//! The persistent store, modelled on its documents: one line-oriented
//! document of annotation records and one of file-status records. The
//! functions here own every decision about the documents' content; reading
//! them from disk and committing them back (append, or write-to-temp then
//! rename) is left to the thin layer around the library.

use vstd::prelude::*;

use crate::annotation::{Annotation, AnnotationView, FileReviewState, FileReviewStateView,
    FileStatus};
use crate::adjust::ann_views;
use crate::codec::{chars_to_string, is_ws_char, lemma_skip_ws_nop, skip_ws, spec_skip_ws,
    str_chars};
use crate::records::{annotation_line, lemma_annotation_roundtrip, lemma_status_roundtrip,
    parse_annotation_chars, parse_status_chars, push_annotation_line, push_status_line,
    spec_parse_annotation, spec_parse_status, status_line};

verus! {

/// Why a load failed.
#[derive(Debug, Clone, Copy, PartialEq, Eq)]
pub enum StoreError {
    /// The 1-based number of the first line that is neither blank nor a
    /// well-formed record.
    Format { line: usize },
}

// ------------------------------------------------------------------ lines
/// The pieces of `s` between its newlines: one more piece than newlines,
/// a trailing newline yielding a final empty piece.
pub open spec fn split_lines(s: Seq<char>) -> Seq<Seq<char>>
    decreases s.len(),
{
    if s.len() == 0 {
        seq![Seq::empty()]
    } else if s[0] == '\n' {
        seq![Seq::<char>::empty()] + split_lines(s.drop_first())
    } else {
        let rest = split_lines(s.drop_first());
        seq![seq![s[0]] + rest[0]] + rest.drop_first()
    }
}

/// A line of nothing but whitespace, the empty line included.
pub open spec fn is_blank(l: Seq<char>) -> bool {
    spec_skip_ws(l).len() == 0
}

/// No raw newline anywhere in `s`.
pub open spec fn no_newline(s: Seq<char>) -> bool {
    forall|i: int| 0 <= i < s.len() ==> s[i] != '\n'
}

proof fn lemma_split_nonempty(s: Seq<char>)
    ensures
        split_lines(s).len() >= 1,
    decreases s.len(),
{
    if s.len() > 0 {
        lemma_split_nonempty(s.drop_first());
    }
}

proof fn lemma_split_single(x: Seq<char>)
    requires
        no_newline(x),
    ensures
        split_lines(x + seq!['\n']) == seq![x, Seq::<char>::empty()],
    decreases x.len(),
{
    if x.len() == 0 {
        assert(x + seq!['\n'] =~= seq!['\n']);
        assert(seq!['\n'][0] == '\n');
        assert(seq!['\n'].drop_first() =~= Seq::<char>::empty());
        assert(split_lines(Seq::<char>::empty()) =~= seq![Seq::<char>::empty()]);
        assert(split_lines(seq!['\n']) =~= seq![Seq::<char>::empty(), Seq::<char>::empty()]);
        assert(x =~= Seq::<char>::empty());
    } else {
        assert((x + seq!['\n'])[0] == x[0]);
        assert((x + seq!['\n']).drop_first() =~= x.drop_first() + seq!['\n']);
        assert(no_newline(x.drop_first())) by {
            assert(forall|i: int|
                0 <= i < x.drop_first().len() ==> x.drop_first()[i] == x[i + 1]);
        }
        lemma_split_single(x.drop_first());
        let rest = split_lines(x.drop_first() + seq!['\n']);
        assert(rest[0] == x.drop_first());
        assert(rest.drop_first() =~= seq![Seq::<char>::empty()]);
        assert(seq![x[0]] + x.drop_first() =~= x);
        assert(split_lines(x + seq!['\n']) =~= seq![x, Seq::<char>::empty()]);
    }
}

proof fn lemma_split_append(d: Seq<char>, e: Seq<char>)
    requires
        d.len() > 0,
        d.last() == '\n',
    ensures
        split_lines(d + e) == split_lines(d).drop_last() + split_lines(e),
    decreases d.len(),
{
    lemma_split_nonempty(e);
    if d.len() == 1 {
        assert(d =~= seq!['\n']);
        assert((d + e)[0] == '\n');
        assert((d + e).drop_first() =~= e);
        assert(split_lines(d) =~= seq![Seq::<char>::empty(), Seq::<char>::empty()]);
        assert(split_lines(d + e) =~= split_lines(d).drop_last() + split_lines(e));
    } else {
        assert(d.drop_first().len() > 0 && d.drop_first().last() == '\n');
        lemma_split_append(d.drop_first(), e);
        lemma_split_nonempty(d.drop_first());
        assert((d + e)[0] == d[0]);
        assert((d + e).drop_first() =~= d.drop_first() + e);
        if d[0] == '\n' {
            assert(split_lines(d + e) =~= seq![Seq::<char>::empty()] + (split_lines(
                d.drop_first(),
            ).drop_last() + split_lines(e)));
            assert(split_lines(d).drop_last() =~= seq![Seq::<char>::empty()] + split_lines(
                d.drop_first(),
            ).drop_last()) by {
                assert(split_lines(d) =~= seq![Seq::<char>::empty()] + split_lines(
                    d.drop_first(),
                ));
            }
            assert(split_lines(d + e) =~= split_lines(d).drop_last() + split_lines(e));
        } else {
            let rest = split_lines(d.drop_first() + e);
            let rest_d = split_lines(d.drop_first());
            assert(rest =~= rest_d.drop_last() + split_lines(e));
            // The tail of `d` still ends in a newline, so its split has at
            // least the final empty piece and one more.
            lemma_split_last_empty(d.drop_first());
            assert(rest_d.len() >= 2);
            assert(rest[0] == rest_d[0]);
            assert(split_lines(d) =~= seq![seq![d[0]] + rest_d[0]] + rest_d.drop_first());
            assert(split_lines(d + e) =~= seq![seq![d[0]] + rest[0]] + rest.drop_first());
            assert(split_lines(d + e) =~= split_lines(d).drop_last() + split_lines(e));
        }
    }
}

proof fn lemma_split_last_empty(d: Seq<char>)
    requires
        d.len() > 0,
        d.last() == '\n',
    ensures
        split_lines(d).len() >= 2,
        split_lines(d).last() == Seq::<char>::empty(),
    decreases d.len(),
{
    if d.len() == 1 {
        assert(d =~= seq!['\n']);
        assert(seq!['\n'][0] == '\n');
        assert(seq!['\n'].drop_first() =~= Seq::<char>::empty());
        assert(split_lines(Seq::<char>::empty()) =~= seq![Seq::<char>::empty()]);
        assert(split_lines(d) =~= seq![Seq::<char>::empty(), Seq::<char>::empty()]);
    } else {
        assert(d.drop_first().len() > 0 && d.drop_first().last() == '\n');
        lemma_split_last_empty(d.drop_first());
        lemma_split_nonempty(d.drop_first());
    }
}

/// The models of a vector of lines.
pub open spec fn line_views(ls: Seq<Vec<char>>) -> Seq<Seq<char>> {
    Seq::new(ls.len(), |i: int| ls[i]@)
}

/// A partly read line put back in front of the lines still to come.
pub open spec fn prepend_line(c: Seq<char>, ls: Seq<Seq<char>>) -> Seq<Seq<char>> {
    seq![c + ls[0]] + ls.drop_first()
}

/// Split `s` into its lines.
fn split_into_lines(s: &Vec<char>) -> (r: Vec<Vec<char>>)
    ensures
        line_views(r@) == split_lines(s@),
{
    let mut lines: Vec<Vec<char>> = Vec::new();
    let mut cur: Vec<char> = Vec::new();
    let mut p: usize = 0;
    proof {
        assert(s@.skip(0) =~= s@);
        lemma_split_nonempty(s@);
        assert(line_views(lines@) =~= Seq::<Seq<char>>::empty());
        assert(cur@ + split_lines(s@)[0] =~= split_lines(s@)[0]);
        assert(Seq::<Seq<char>>::empty() + prepend_line(cur@, split_lines(s@.skip(0)))
            =~= split_lines(s@));
    }
    while p < s.len()
        invariant
            p <= s@.len(),
            split_lines(s@) == line_views(lines@) + prepend_line(
                cur@,
                split_lines(s@.skip(p as int)),
            ),
        decreases s@.len() - p,
    {
        let ghost suffix = s@.skip(p as int);
        let ghost ls = split_lines(s@.skip(p as int + 1));
        proof {
            assert(suffix[0] == s@[p as int]);
            assert(suffix.drop_first() =~= s@.skip(p as int + 1));
            lemma_split_nonempty(s@.skip(p as int + 1));
        }
        let c = s[p];
        if c == '\n' {
            let ghost lines_pre = line_views(lines@);
            let ghost cur_pre = cur@;
            lines.push(cur);
            cur = Vec::new();
            proof {
                assert(split_lines(suffix) =~= seq![Seq::<char>::empty()] + ls);
                assert(prepend_line(cur_pre, split_lines(suffix)) =~= seq![cur_pre] + ls) by {
                    assert((seq![Seq::<char>::empty()] + ls)[0] =~= Seq::<char>::empty());
                    assert((seq![Seq::<char>::empty()] + ls).drop_first() =~= ls);
                    assert(cur_pre + Seq::<char>::empty() =~= cur_pre);
                }
                assert(line_views(lines@) =~= lines_pre.push(cur_pre));
                assert(prepend_line(cur@, ls) =~= ls) by {
                    assert(cur@ + ls[0] =~= ls[0]);
                }
                assert(lines_pre.push(cur_pre) + ls =~= lines_pre + (seq![cur_pre] + ls));
            }
        } else {
            let ghost cur_pre = cur@;
            cur.push(c);
            proof {
                assert(split_lines(suffix) =~= seq![seq![s@[p as int]] + ls[0]] + ls.drop_first());
                assert(prepend_line(cur_pre, split_lines(suffix)) =~= prepend_line(cur@, ls)) by {
                    assert((seq![seq![s@[p as int]] + ls[0]] + ls.drop_first())[0] == seq![
                        s@[p as int],
                    ] + ls[0]);
                    assert((seq![seq![s@[p as int]] + ls[0]]
                        + ls.drop_first()).drop_first() =~= ls.drop_first());
                    assert(cur_pre + (seq![s@[p as int]] + ls[0]) =~= cur@ + ls[0]);
                }
            }
        }
        p = p + 1;
    }
    let ghost lines_pre = line_views(lines@);
    let ghost cur_final = cur@;
    lines.push(cur);
    proof {
        assert(s@.skip(s@.len() as int) =~= Seq::<char>::empty());
        let e = split_lines(Seq::<char>::empty());
        assert(e =~= seq![Seq::<char>::empty()]);
        assert(prepend_line(cur_final, e) =~= seq![cur_final]) by {
            assert(e[0] =~= Seq::<char>::empty());
            assert(e.drop_first() =~= Seq::<Seq<char>>::empty());
            assert(cur_final + Seq::<char>::empty() =~= cur_final);
        }
        assert(line_views(lines@) =~= lines_pre.push(cur_final));
        assert(lines_pre.push(cur_final) =~= lines_pre + seq![cur_final]);
    }
    lines
}

// ------------------------------------------------------------ documents
/// Read a line-oriented document: blank lines are skipped, every other line
/// must parse as one record, in order.
pub open spec fn load_doc_lines<T>(
    lines: Seq<Seq<char>>,
    parse: spec_fn(Seq<char>) -> Option<T>,
) -> Option<Seq<T>>
    decreases lines.len(),
{
    if lines.len() == 0 {
        Some(Seq::empty())
    } else {
        match load_doc_lines(lines.drop_last(), parse) {
            None => None,
            Some(v) => if is_blank(lines.last()) {
                Some(v)
            } else {
                match parse(lines.last()) {
                    Some(t) => Some(v.push(t)),
                    None => None,
                }
            },
        }
    }
}

/// Index of the first line that is neither blank nor a record; negative
/// when every line is in order.
pub open spec fn first_bad_line<T>(
    lines: Seq<Seq<char>>,
    parse: spec_fn(Seq<char>) -> Option<T>,
) -> int
    decreases lines.len(),
{
    if lines.len() == 0 {
        -1
    } else if !is_blank(lines[0]) && parse(lines[0]) is None {
        0
    } else {
        let r = first_bad_line(lines.drop_first(), parse);
        if r < 0 {
            -1
        } else {
            1 + r
        }
    }
}

/// A line-oriented document: one rendered record per line.
pub open spec fn doc_of<T>(items: Seq<T>, render: spec_fn(T) -> Seq<char>) -> Seq<char>
    decreases items.len(),
{
    if items.len() == 0 {
        Seq::empty()
    } else {
        doc_of(items.drop_last(), render) + render(items.last()) + seq!['\n']
    }
}

proof fn lemma_doc_of_shape<T>(items: Seq<T>, render: spec_fn(T) -> Seq<char>)
    ensures
        doc_of(items, render).len() == 0 || doc_of(items, render).last() == '\n',
    decreases items.len(),
{
}

/// A bad line anywhere makes the whole load fail.
proof fn lemma_bad_line_load_none<T>(
    lines: Seq<Seq<char>>,
    parse: spec_fn(Seq<char>) -> Option<T>,
    i: int,
)
    requires
        0 <= i < lines.len(),
        !is_blank(lines[i]),
        parse(lines[i]) is None,
    ensures
        load_doc_lines(lines, parse) is None,
    decreases lines.len(),
{
    if i < lines.len() - 1 {
        assert(lines.drop_last()[i] == lines[i]);
        lemma_bad_line_load_none(lines.drop_last(), parse, i);
    }
}

/// Where the first bad line sits, counted from the front.
proof fn lemma_first_bad_at<T>(
    lines: Seq<Seq<char>>,
    parse: spec_fn(Seq<char>) -> Option<T>,
    i: int,
)
    requires
        0 <= i < lines.len(),
        forall|k: int|
            0 <= k < i ==> is_blank(#[trigger] lines[k]) || parse(lines[k]) is Some,
        !is_blank(lines[i]),
        parse(lines[i]) is None,
    ensures
        first_bad_line(lines, parse) == i,
    decreases i,
{
    if i == 0 {
    } else {
        assert(forall|k: int|
            0 <= k < i - 1 ==> is_blank(#[trigger] lines.drop_first()[k]) || parse(
                lines.drop_first()[k],
            ) is Some) by {
            assert(forall|k: int|
                0 <= k < lines.drop_first().len() ==> #[trigger] lines.drop_first()[k] == lines[k
                    + 1]);
        }
        assert(lines.drop_first()[i - 1] == lines[i]);
        lemma_first_bad_at(lines.drop_first(), parse, i - 1);
    }
}

/// Reading back a rendered document gives the records, in order, provided
/// each record reads back to itself, holds no raw newline, and is not blank.
proof fn lemma_doc_roundtrip<T>(
    items: Seq<T>,
    render: spec_fn(T) -> Seq<char>,
    parse: spec_fn(Seq<char>) -> Option<T>,
)
    requires
        forall|t: T| #[trigger] parse(render(t)) == Some(t),
        forall|t: T, i: int| 0 <= i < render(t).len() ==> #[trigger] render(t)[i] != '\n',
        forall|t: T| !is_blank(#[trigger] render(t)),
    ensures
        load_doc_lines(split_lines(doc_of(items, render)), parse) == Some(items),
    decreases items.len(),
{
    if items.len() == 0 {
        assert(split_lines(Seq::<char>::empty()) =~= seq![Seq::<char>::empty()]);
        assert(seq![Seq::<char>::empty()].drop_last() =~= Seq::<Seq<char>>::empty());
        assert(is_blank(Seq::<char>::empty()));
    } else {
        let prior = items.drop_last();
        let t = items.last();
        let d = doc_of(prior, render);
        let line = render(t);
        lemma_doc_roundtrip(prior, render, parse);
        assert(no_newline(line));
        lemma_split_single(line);
        let whole = doc_of(items, render);
        if prior.len() == 0 {
            assert(d =~= Seq::<char>::empty());
            assert(whole =~= line + seq!['\n']);
            assert(split_lines(whole) =~= seq![line, Seq::<char>::empty()]);
            let ls = seq![line, Seq::<char>::empty()];
            assert(ls.drop_last() =~= seq![line]);
            assert(seq![line].drop_last() =~= Seq::<Seq<char>>::empty());
            assert(is_blank(ls.last()));
            assert(!is_blank(line) && parse(line) == Some(t));
            assert(load_doc_lines(Seq::<Seq<char>>::empty(), parse) == Some(Seq::<T>::empty()));
            assert(load_doc_lines(seq![line], parse) == Some(Seq::<T>::empty().push(t)));
            assert(load_doc_lines(ls, parse) == load_doc_lines(seq![line], parse));
            assert(Seq::<T>::empty().push(t) =~= items);
        } else {
            lemma_doc_of_shape(prior, render);
            assert(d.len() > 0 && d.last() == '\n');
            assert(whole =~= d + (line + seq!['\n']));
            lemma_split_append(d, line + seq!['\n']);
            lemma_split_last_empty(d);
            let a = split_lines(d).drop_last();
            assert(split_lines(whole) =~= a + seq![line, Seq::<char>::empty()]);
            assert(split_lines(d) =~= a + seq![Seq::<char>::empty()]);
            // The prior document's load skips its final blank line.
            assert(is_blank(split_lines(d).last()));
            assert(split_lines(d).drop_last() =~= a);
            assert(load_doc_lines(a, parse) == Some(prior)) by {
                assert(load_doc_lines(split_lines(d), parse) == Some(prior));
            }
            let ls = a + seq![line, Seq::<char>::empty()];
            assert(ls.last() =~= Seq::<char>::empty());
            assert(ls.drop_last() =~= a + seq![line]);
            assert((a + seq![line]).last() == line);
            assert((a + seq![line]).drop_last() =~= a);
            assert(!is_blank(line) && parse(line) == Some(t));
            assert(load_doc_lines(a + seq![line], parse) == Some(prior.push(t)));
            assert(load_doc_lines(ls, parse) == load_doc_lines(a + seq![line], parse));
            assert(prior.push(t) =~= items);
        }
    }
}

/// Appending one rendered record to a well-read document appends its record
/// to what is read back.
proof fn lemma_doc_append<T>(
    doc: Seq<char>,
    t: T,
    items: Seq<T>,
    render: spec_fn(T) -> Seq<char>,
    parse: spec_fn(Seq<char>) -> Option<T>,
)
    requires
        forall|u: T| #[trigger] parse(render(u)) == Some(u),
        forall|u: T, i: int| 0 <= i < render(u).len() ==> #[trigger] render(u)[i] != '\n',
        forall|u: T| !is_blank(#[trigger] render(u)),
        load_doc_lines(split_lines(doc), parse) == Some(items),
        doc.len() == 0 || doc.last() == '\n',
    ensures
        load_doc_lines(split_lines(doc + render(t) + seq!['\n']), parse) == Some(items.push(t)),
{
    let line = render(t);
    assert(no_newline(line));
    lemma_split_single(line);
    if doc.len() == 0 {
        let whole = doc + line + seq!['\n'];
        assert(whole =~= line + seq!['\n']);
        assert(split_lines(whole) =~= seq![line, Seq::<char>::empty()]);
        let ls = seq![line, Seq::<char>::empty()];
        assert(ls.drop_last() =~= seq![line]);
        assert(seq![line].drop_last() =~= Seq::<Seq<char>>::empty());
        assert(split_lines(doc) =~= seq![Seq::<char>::empty()]);
        assert(seq![Seq::<char>::empty()].drop_last() =~= Seq::<Seq<char>>::empty());
        assert(is_blank(Seq::<char>::empty()));
        assert(load_doc_lines(Seq::<Seq<char>>::empty(), parse) == Some(Seq::<T>::empty()));
        assert(items =~= Seq::<T>::empty());
        assert(!is_blank(line) && parse(line) == Some(t));
        assert(load_doc_lines(seq![line], parse) == Some(Seq::<T>::empty().push(t)));
        assert(load_doc_lines(ls, parse) == load_doc_lines(seq![line], parse));
        assert(Seq::<T>::empty().push(t) =~= items.push(t));
    } else {
        let whole = doc + (line + seq!['\n']);
        assert(doc + line + seq!['\n'] =~= whole);
        lemma_split_append(doc, line + seq!['\n']);
        lemma_split_last_empty(doc);
        let a = split_lines(doc).drop_last();
        assert(split_lines(whole) =~= a + seq![line, Seq::<char>::empty()]);
        assert(is_blank(split_lines(doc).last()));
        assert(load_doc_lines(a, parse) == Some(items)) by {
            assert(split_lines(doc).drop_last() =~= a);
        }
        let ls = a + seq![line, Seq::<char>::empty()];
        assert(ls.last() =~= Seq::<char>::empty());
        assert(is_blank(ls.last()));
        assert(ls.drop_last() =~= a + seq![line]);
        assert((a + seq![line]).last() == line);
        assert((a + seq![line]).drop_last() =~= a);
        assert(!is_blank(line) && parse(line) == Some(t));
        assert(load_doc_lines(a + seq![line], parse) == Some(items.push(t)));
        assert(load_doc_lines(ls, parse) == load_doc_lines(a + seq![line], parse));
    }
}

// ------------------------------------------------------- concrete documents
/// The annotation-record parser, as a value.
pub open spec fn annotation_parser() -> spec_fn(Seq<char>) -> Option<AnnotationView> {
    |l: Seq<char>| spec_parse_annotation(l)
}

/// The annotation-record renderer, as a value.
pub open spec fn annotation_renderer() -> spec_fn(AnnotationView) -> Seq<char> {
    |a: AnnotationView| annotation_line(a)
}

/// The status-record parser, as a value.
pub open spec fn status_parser() -> spec_fn(Seq<char>) -> Option<FileReviewStateView> {
    |l: Seq<char>| spec_parse_status(l)
}

/// The status-record renderer, as a value.
pub open spec fn status_renderer() -> spec_fn(FileReviewStateView) -> Seq<char> {
    |st: FileReviewStateView| status_line(st)
}

/// What loading an annotations document yields.
pub open spec fn spec_load_annotations(doc: Seq<char>) -> Option<Seq<AnnotationView>> {
    load_doc_lines(split_lines(doc), annotation_parser())
}

/// The document a list of annotations persists as.
pub open spec fn annotations_doc_of(l: Seq<AnnotationView>) -> Seq<char> {
    doc_of(l, annotation_renderer())
}

/// What loading a file-status document yields.
pub open spec fn spec_load_statuses(doc: Seq<char>) -> Option<Seq<FileReviewStateView>> {
    load_doc_lines(split_lines(doc), status_parser())
}

/// The document a list of file statuses persists as.
pub open spec fn statuses_doc_of(l: Seq<FileReviewStateView>) -> Seq<char> {
    doc_of(l, status_renderer())
}

/// The models of a vector of file statuses.
pub open spec fn status_views(s: Seq<FileReviewState>) -> Seq<FileReviewStateView> {
    Seq::new(s.len(), |i: int| s[i]@)
}

// -------------------------------------------------------------------- laws
/// Round trip of the store: loading a saved list gives the list back,
/// element for element and in order.
pub proof fn lemma_save_load_roundtrip(l: Seq<AnnotationView>)
    ensures
        spec_load_annotations(annotations_doc_of(l)) == Some(l),
{
    assert forall|a: AnnotationView| #[trigger] annotation_parser()(annotation_renderer()(a))
        == Some(a) by {
        lemma_annotation_roundtrip(a);
    }
    assert forall|a: AnnotationView, i: int|
        0 <= i < annotation_renderer()(a).len() implies #[trigger] annotation_renderer()(a)[i]
        != '\n' by {
        crate::records::lemma_annotation_line_shape(a);
    }
    assert forall|a: AnnotationView| !is_blank(#[trigger] annotation_renderer()(a)) by {
        crate::records::lemma_annotation_line_shape(a);
        lemma_skip_ws_nop(annotation_line(a));
    }
    lemma_doc_roundtrip(l, annotation_renderer(), annotation_parser());
}

/// Round trip of an append: one more record at the end of a well-read
/// document is one more annotation at the end of what is read back.
pub proof fn lemma_append_load_roundtrip(doc: Seq<char>, a: AnnotationView, l: Seq<
    AnnotationView,
>)
    requires
        spec_load_annotations(doc) == Some(l),
        doc.len() == 0 || doc.last() == '\n',
    ensures
        spec_load_annotations(doc + annotation_line(a) + seq!['\n']) == Some(l.push(a)),
{
    assert forall|u: AnnotationView| #[trigger] annotation_parser()(annotation_renderer()(u))
        == Some(u) by {
        lemma_annotation_roundtrip(u);
    }
    assert forall|u: AnnotationView, i: int|
        0 <= i < annotation_renderer()(u).len() implies #[trigger] annotation_renderer()(u)[i]
        != '\n' by {
        crate::records::lemma_annotation_line_shape(u);
    }
    assert forall|u: AnnotationView| !is_blank(#[trigger] annotation_renderer()(u)) by {
        crate::records::lemma_annotation_line_shape(u);
        lemma_skip_ws_nop(annotation_line(u));
    }
    lemma_doc_append(doc, a, l, annotation_renderer(), annotation_parser());
    assert(annotation_renderer()(a) == annotation_line(a));
}

/// The same round trip for the file-status document.
pub proof fn lemma_statuses_roundtrip(l: Seq<FileReviewStateView>)
    ensures
        spec_load_statuses(statuses_doc_of(l)) == Some(l),
{
    assert forall|st: FileReviewStateView| #[trigger] status_parser()(status_renderer()(st))
        == Some(st) by {
        lemma_status_roundtrip(st);
    }
    assert forall|st: FileReviewStateView, i: int|
        0 <= i < status_renderer()(st).len() implies #[trigger] status_renderer()(st)[i]
        != '\n' by {
        crate::records::lemma_status_line_shape(st);
    }
    assert forall|st: FileReviewStateView| !is_blank(#[trigger] status_renderer()(st)) by {
        crate::records::lemma_status_line_shape(st);
        lemma_skip_ws_nop(status_line(st));
    }
    lemma_doc_roundtrip(l, status_renderer(), status_parser());
}

// ------------------------------------------------------------- list editing
/// The first annotation with the identity of `a` replaced by `a`; the rest
/// untouched.
pub open spec fn replace_first(l: Seq<AnnotationView>, a: AnnotationView) -> Seq<AnnotationView>
    decreases l.len(),
{
    if l.len() == 0 {
        Seq::empty()
    } else if l[0].id == a.id {
        seq![a] + l.drop_first()
    } else {
        seq![l[0]] + replace_first(l.drop_first(), a)
    }
}

/// Every annotation with identity `id` removed.
pub open spec fn remove_id(l: Seq<AnnotationView>, id: u128) -> Seq<AnnotationView>
    decreases l.len(),
{
    if l.len() == 0 {
        Seq::empty()
    } else {
        let rest = remove_id(l.drop_last(), id);
        if l.last().id == id {
            rest
        } else {
            rest.push(l.last())
        }
    }
}

/// The annotations sitting in the file at `path`, in order.
pub open spec fn filter_file(l: Seq<AnnotationView>, path: Seq<char>) -> Seq<AnnotationView>
    decreases l.len(),
{
    if l.len() == 0 {
        Seq::empty()
    } else {
        let rest = filter_file(l.drop_last(), path);
        if l.last().file_path == path {
            rest.push(l.last())
        } else {
            rest
        }
    }
}

/// The status list with the first record for `path` set to `st`, or a new
/// record appended when none names `path`.
pub open spec fn set_status(l: Seq<FileReviewStateView>, path: Seq<char>, st: FileStatus) -> Seq<
    FileReviewStateView,
>
    decreases l.len(),
{
    if l.len() == 0 {
        seq![FileReviewStateView { file_path: path, status: st }]
    } else if l[0].file_path == path {
        seq![FileReviewStateView { file_path: path, status: st }] + l.drop_first()
    } else {
        seq![l[0]] + set_status(l.drop_first(), path, st)
    }
}

/// The status recorded for `path`; unknown paths count as unreviewed.
pub open spec fn status_for(l: Seq<FileReviewStateView>, path: Seq<char>) -> FileStatus
    decreases l.len(),
{
    if l.len() == 0 {
        FileStatus::Unreviewed
    } else if l[0].file_path == path {
        l[0].status
    } else {
        status_for(l.drop_first(), path)
    }
}

// -------------------------------------------------------------------- store
/// The store over its two documents. The layer around the library reads the
/// documents from disk into a `Store` and commits them back after each
/// mutation — an `append_annotation` by appending the document's new tail, a
/// rewrite by writing a sibling temporary file and renaming it over the old
/// one, so a crash shows either document, never a mix.
pub struct Store {
    annotations_doc: String,
    file_status_doc: String,
}

/// Mathematical model of a [`Store`]: the text of its two documents.
pub ghost struct StoreView {
    pub annotations_doc: Seq<char>,
    pub file_status_doc: Seq<char>,
}

impl View for Store {
    type V = StoreView;

    closed spec fn view(&self) -> StoreView {
        StoreView { annotations_doc: self.annotations_doc@, file_status_doc: self.file_status_doc@ }
    }
}

impl Store {
    /// A store over the given document texts — empty strings for files that
    /// do not exist yet.
    pub fn new(annotations_doc: String, file_status_doc: String) -> (r: Store)
        ensures
            r@.annotations_doc == annotations_doc@,
            r@.file_status_doc == file_status_doc@,
    {
        Store { annotations_doc, file_status_doc }
    }

    /// The current text of the annotations document.
    pub fn annotations_text(&self) -> (r: &String)
        ensures
            r@ == self@.annotations_doc,
    {
        &self.annotations_doc
    }

    /// The current text of the file-status document.
    pub fn file_status_text(&self) -> (r: &String)
        ensures
            r@ == self@.file_status_doc,
    {
        &self.file_status_doc
    }

    /// Read every annotation out of the annotations document: blank lines
    /// are skipped; the first line that is neither blank nor a record fails
    /// the whole load with its 1-based number.
    pub fn load_annotations(&self) -> (r: Result<Vec<Annotation>, StoreError>)
        ensures
            match r {
                Ok(v) => spec_load_annotations(self@.annotations_doc) == Some(ann_views(v@)),
                Err(e) => spec_load_annotations(self@.annotations_doc) is None && e
                    == (StoreError::Format {
                    line: (first_bad_line(
                        split_lines(self@.annotations_doc),
                        annotation_parser(),
                    ) + 1) as usize,
                }),
            },
    {
        let chars = str_chars(self.annotations_doc.as_str());
        let lines = split_into_lines(&chars);
        let ghost lv = line_views(lines@);
        let mut out: Vec<Annotation> = Vec::new();
        let mut i: usize = 0;
        proof {
            assert(lv.take(0) =~= Seq::<Seq<char>>::empty());
            assert(ann_views(out@) =~= Seq::<AnnotationView>::empty());
        }
        while i < lines.len()
            invariant
                lv == line_views(lines@),
                lv == split_lines(self@.annotations_doc),
                i <= lines@.len(),
                forall|k: int|
                    0 <= k < i ==> is_blank(#[trigger] lv[k]) || annotation_parser()(lv[k])
                        is Some,
                load_doc_lines(lv.take(i as int), annotation_parser()) == Some(ann_views(out@)),
            decreases lines@.len() - i,
        {
            let line = &lines[i];
            proof {
                assert(lv[i as int] == line@);
                assert(lv.take(i as int + 1).drop_last() =~= lv.take(i as int));
                assert(lv.take(i as int + 1).last() == lv[i as int]);
            }
            let j = skip_ws(line, 0);
            proof {
                assert(line@.skip(0) =~= line@);
                assert(is_blank(line@) == (line@.skip(j as int).len() == 0));
            }
            if j == line.len() {
                // blank line: skipped
                proof {
                    assert(line@.skip(j as int).len() == 0);
                }
            } else {
                proof {
                    assert(line@.skip(j as int).len() > 0);
                }
                match parse_annotation_chars(line) {
                    Some(a) => {
                        let ghost out_pre = ann_views(out@);
                        out.push(a);
                        proof {
                            assert(ann_views(out@) =~= out_pre.push(a@));
                        }
                    },
                    None => {
                        proof {
                            lemma_first_bad_at(lv, annotation_parser(), i as int);
                            lemma_bad_line_load_none(lv, annotation_parser(), i as int);
                        }
                        return Err(StoreError::Format { line: i + 1 });
                    },
                }
            }
            i = i + 1;
        }
        proof {
            assert(lv.take(lv.len() as int) =~= lv);
        }
        Ok(out)
    }

    /// Append one annotation as one new record line at the document's end.
    pub fn append_annotation(&mut self, annotation: &Annotation)
        ensures
            final(self)@.annotations_doc == old(self)@.annotations_doc + annotation_line(
                annotation@,
            ) + seq!['\n'],
            final(self)@.file_status_doc == old(self)@.file_status_doc,
    {
        let mut line: Vec<char> = Vec::new();
        push_annotation_line(&mut line, annotation);
        line.push('\n');
        let tail = chars_to_string(&line);
        self.annotations_doc.append(tail.as_str());
        proof {
            assert(final(self)@.annotations_doc =~= old(self)@.annotations_doc + annotation_line(
                annotation@,
            ) + seq!['\n']);
        }
    }

    /// Rewrite the annotations document to hold exactly this list, in order.
    pub fn save_annotations(&mut self, annotations: &[Annotation])
        ensures
            final(self)@.annotations_doc == annotations_doc_of(ann_views(annotations@)),
            final(self)@.file_status_doc == old(self)@.file_status_doc,
    {
        let mut out: Vec<char> = Vec::new();
        let mut i: usize = 0;
        proof {
            assert(ann_views(annotations@).take(0) =~= Seq::<AnnotationView>::empty());
            assert(out@ =~= annotations_doc_of(ann_views(annotations@).take(0)));
        }
        while i < annotations.len()
            invariant
                i <= annotations@.len(),
                out@ == annotations_doc_of(ann_views(annotations@).take(i as int)),
            decreases annotations@.len() - i,
        {
            let ghost av = ann_views(annotations@);
            proof {
                assert(av.take(i as int + 1).drop_last() =~= av.take(i as int));
                assert(av.take(i as int + 1).last() == av[i as int]);
                assert(av[i as int] == annotations@[i as int]@);
            }
            push_annotation_line(&mut out, &annotations[i]);
            out.push('\n');
            proof {
                assert(out@ =~= annotations_doc_of(av.take(i as int)) + annotation_line(
                    av[i as int],
                ) + seq!['\n']);
                assert(annotation_renderer()(av[i as int]) == annotation_line(av[i as int]));
            }
            i = i + 1;
        }
        proof {
            assert(ann_views(annotations@).take(annotations@.len() as int) =~= ann_views(
                annotations@,
            ));
        }
        self.annotations_doc = chars_to_string(&out);
    }

    /// Replace the stored annotation with the identity of `updated` by
    /// `updated`, and rewrite the document.
    pub fn update_annotation(&mut self, updated: &Annotation) -> (r: Result<(), StoreError>)
        ensures
            match spec_load_annotations(old(self)@.annotations_doc) {
                Some(l) => r is Ok && final(self)@.annotations_doc == annotations_doc_of(
                    replace_first(l, updated@),
                ) && final(self)@.file_status_doc == old(self)@.file_status_doc,
                None => r is Err && final(self)@ == old(self)@,
            },
    {
        let all = match self.load_annotations() {
            Ok(v) => v,
            Err(e) => {
                return Err(e);
            },
        };
        let ghost l = ann_views(all@);
        let mut out: Vec<Annotation> = Vec::new();
        let mut replaced = false;
        let mut i: usize = 0;
        proof {
            assert(l.skip(0) =~= l);
        }
        while i < all.len()
            invariant
                l == ann_views(all@),
                i <= all@.len(),
                out@.len() == i,
                replace_first(l, updated@) == if replaced {
                    ann_views(out@) + l.skip(i as int)
                } else {
                    ann_views(out@) + replace_first(l.skip(i as int), updated@)
                },
            decreases all@.len() - i,
        {
            let a = &all[i];
            let ghost out_pre = ann_views(out@);
            proof {
                assert(l[i as int] == a@);
                assert(l.skip(i as int)[0] == l[i as int]);
                assert(l.skip(i as int).drop_first() =~= l.skip(i as int + 1));
            }
            if !replaced && a.id == updated.id {
                out.push(updated.duplicate());
                replaced = true;
                proof {
                    assert(ann_views(out@) =~= out_pre.push(updated@));
                    assert(out_pre + (seq![updated@] + l.skip(i as int + 1)) =~= out_pre.push(
                        updated@,
                    ) + l.skip(i as int + 1));
                }
            } else {
                out.push(a.duplicate());
                proof {
                    assert(ann_views(out@) =~= out_pre.push(a@));
                    if replaced {
                        assert(out_pre + l.skip(i as int) =~= out_pre.push(a@) + l.skip(
                            i as int + 1,
                        ));
                    } else {
                        assert(out_pre + (seq![a@] + replace_first(l.skip(i as int + 1), updated@))
                            =~= out_pre.push(a@) + replace_first(l.skip(i as int + 1), updated@));
                    }
                }
            }
            i = i + 1;
        }
        proof {
            assert(l.skip(l.len() as int) =~= Seq::<AnnotationView>::empty());
            if replaced {
                assert(ann_views(out@) + l.skip(l.len() as int) =~= ann_views(out@));
            } else {
                assert(ann_views(out@) + replace_first(
                    Seq::<AnnotationView>::empty(),
                    updated@,
                ) =~= ann_views(out@));
            }
        }
        self.save_annotations(out.as_slice());
        Ok(())
    }

    /// Remove every stored annotation with this identity, and rewrite the
    /// document.
    pub fn delete_annotation(&mut self, id: u128) -> (r: Result<(), StoreError>)
        ensures
            match spec_load_annotations(old(self)@.annotations_doc) {
                Some(l) => r is Ok && final(self)@.annotations_doc == annotations_doc_of(
                    remove_id(l, id),
                ) && final(self)@.file_status_doc == old(self)@.file_status_doc,
                None => r is Err && final(self)@ == old(self)@,
            },
    {
        let all = match self.load_annotations() {
            Ok(v) => v,
            Err(e) => {
                return Err(e);
            },
        };
        let ghost l = ann_views(all@);
        let mut out: Vec<Annotation> = Vec::new();
        let mut i: usize = 0;
        proof {
            assert(l.take(0) =~= Seq::<AnnotationView>::empty());
            assert(ann_views(out@) =~= remove_id(l.take(0), id));
        }
        while i < all.len()
            invariant
                l == ann_views(all@),
                i <= all@.len(),
                ann_views(out@) == remove_id(l.take(i as int), id),
            decreases all@.len() - i,
        {
            let a = &all[i];
            let ghost out_pre = ann_views(out@);
            proof {
                assert(l[i as int] == a@);
                assert(l.take(i as int + 1).drop_last() =~= l.take(i as int));
                assert(l.take(i as int + 1).last() == l[i as int]);
            }
            if a.id != id {
                out.push(a.duplicate());
                proof {
                    assert(ann_views(out@) =~= out_pre.push(a@));
                }
            }
            i = i + 1;
        }
        proof {
            assert(l.take(l.len() as int) =~= l);
        }
        self.save_annotations(out.as_slice());
        Ok(())
    }

    /// The stored annotations sitting in the file at `file_path`, in order.
    pub fn annotations_for_file(&self, file_path: &String) -> (r: Result<
        Vec<Annotation>,
        StoreError,
    >)
        ensures
            match r {
                Ok(v) => spec_load_annotations(self@.annotations_doc) is Some && ann_views(v@)
                    == filter_file(
                    spec_load_annotations(self@.annotations_doc)->Some_0,
                    file_path@,
                ),
                Err(_) => spec_load_annotations(self@.annotations_doc) is None,
            },
    {
        let all = match self.load_annotations() {
            Ok(v) => v,
            Err(e) => {
                return Err(e);
            },
        };
        let ghost l = ann_views(all@);
        let mut out: Vec<Annotation> = Vec::new();
        let mut i: usize = 0;
        proof {
            assert(l.take(0) =~= Seq::<AnnotationView>::empty());
            assert(ann_views(out@) =~= filter_file(l.take(0), file_path@));
        }
        while i < all.len()
            invariant
                l == ann_views(all@),
                i <= all@.len(),
                ann_views(out@) == filter_file(l.take(i as int), file_path@),
            decreases all@.len() - i,
        {
            let a = &all[i];
            let ghost out_pre = ann_views(out@);
            proof {
                assert(l[i as int] == a@);
                assert(l.take(i as int + 1).drop_last() =~= l.take(i as int));
                assert(l.take(i as int + 1).last() == l[i as int]);
            }
            if a.file_path == *file_path {
                out.push(a.duplicate());
                proof {
                    assert(ann_views(out@) =~= out_pre.push(a@));
                }
            }
            i = i + 1;
        }
        proof {
            assert(l.take(l.len() as int) =~= l);
        }
        Ok(out)
    }

    /// Read every record out of the file-status document, as
    /// [`Store::load_annotations`] does for annotations.
    pub fn load_file_statuses(&self) -> (r: Result<Vec<FileReviewState>, StoreError>)
        ensures
            match r {
                Ok(v) => spec_load_statuses(self@.file_status_doc) == Some(status_views(v@)),
                Err(e) => spec_load_statuses(self@.file_status_doc) is None && e
                    == (StoreError::Format {
                    line: (first_bad_line(split_lines(self@.file_status_doc), status_parser())
                        + 1) as usize,
                }),
            },
    {
        let chars = str_chars(self.file_status_doc.as_str());
        let lines = split_into_lines(&chars);
        let ghost lv = line_views(lines@);
        let mut out: Vec<FileReviewState> = Vec::new();
        let mut i: usize = 0;
        proof {
            assert(lv.take(0) =~= Seq::<Seq<char>>::empty());
            assert(status_views(out@) =~= Seq::<FileReviewStateView>::empty());
        }
        while i < lines.len()
            invariant
                lv == line_views(lines@),
                lv == split_lines(self@.file_status_doc),
                i <= lines@.len(),
                forall|k: int|
                    0 <= k < i ==> is_blank(#[trigger] lv[k]) || status_parser()(lv[k]) is Some,
                load_doc_lines(lv.take(i as int), status_parser()) == Some(status_views(out@)),
            decreases lines@.len() - i,
        {
            let line = &lines[i];
            proof {
                assert(lv[i as int] == line@);
                assert(lv.take(i as int + 1).drop_last() =~= lv.take(i as int));
                assert(lv.take(i as int + 1).last() == lv[i as int]);
            }
            let j = skip_ws(line, 0);
            proof {
                assert(line@.skip(0) =~= line@);
                assert(is_blank(line@) == (line@.skip(j as int).len() == 0));
            }
            if j == line.len() {
                proof {
                    assert(line@.skip(j as int).len() == 0);
                }
            } else {
                proof {
                    assert(line@.skip(j as int).len() > 0);
                }
                match parse_status_chars(line) {
                    Some(st) => {
                        let ghost out_pre = status_views(out@);
                        out.push(st);
                        proof {
                            assert(status_views(out@) =~= out_pre.push(st@));
                        }
                    },
                    None => {
                        proof {
                            lemma_first_bad_at(lv, status_parser(), i as int);
                            lemma_bad_line_load_none(lv, status_parser(), i as int);
                        }
                        return Err(StoreError::Format { line: i + 1 });
                    },
                }
            }
            i = i + 1;
        }
        proof {
            assert(lv.take(lv.len() as int) =~= lv);
        }
        Ok(out)
    }

    /// Rewrite the file-status document to hold exactly this list, in order.
    pub fn save_file_statuses(&mut self, statuses: &[FileReviewState])
        ensures
            final(self)@.file_status_doc == statuses_doc_of(status_views(statuses@)),
            final(self)@.annotations_doc == old(self)@.annotations_doc,
    {
        let mut out: Vec<char> = Vec::new();
        let mut i: usize = 0;
        proof {
            assert(status_views(statuses@).take(0) =~= Seq::<FileReviewStateView>::empty());
            assert(out@ =~= statuses_doc_of(status_views(statuses@).take(0)));
        }
        while i < statuses.len()
            invariant
                i <= statuses@.len(),
                out@ == statuses_doc_of(status_views(statuses@).take(i as int)),
            decreases statuses@.len() - i,
        {
            let ghost sv = status_views(statuses@);
            proof {
                assert(sv.take(i as int + 1).drop_last() =~= sv.take(i as int));
                assert(sv.take(i as int + 1).last() == sv[i as int]);
                assert(sv[i as int] == statuses@[i as int]@);
            }
            push_status_line(&mut out, &statuses[i]);
            out.push('\n');
            proof {
                assert(out@ =~= statuses_doc_of(sv.take(i as int)) + status_line(sv[i as int])
                    + seq!['\n']);
                assert(status_renderer()(sv[i as int]) == status_line(sv[i as int]));
            }
            i = i + 1;
        }
        proof {
            assert(status_views(statuses@).take(statuses@.len() as int) =~= status_views(
                statuses@,
            ));
        }
        self.file_status_doc = chars_to_string(&out);
    }

    /// Record the status of one file: update its first record, or append a
    /// new one, then rewrite the document.
    pub fn set_file_status(&mut self, file_path: &String, status: FileStatus) -> (r: Result<
        (),
        StoreError,
    >)
        ensures
            match spec_load_statuses(old(self)@.file_status_doc) {
                Some(l) => r is Ok && final(self)@.file_status_doc == statuses_doc_of(
                    set_status(l, file_path@, status),
                ) && final(self)@.annotations_doc == old(self)@.annotations_doc,
                None => r is Err && final(self)@ == old(self)@,
            },
    {
        let all = match self.load_file_statuses() {
            Ok(v) => v,
            Err(e) => {
                return Err(e);
            },
        };
        let ghost l = status_views(all@);
        let mut out: Vec<FileReviewState> = Vec::new();
        let mut found = false;
        let mut i: usize = 0;
        proof {
            assert(l.skip(0) =~= l);
        }
        while i < all.len()
            invariant
                l == status_views(all@),
                i <= all@.len(),
                out@.len() == i,
                set_status(l, file_path@, status) == if found {
                    status_views(out@) + l.skip(i as int)
                } else {
                    status_views(out@) + set_status(l.skip(i as int), file_path@, status)
                },
            decreases all@.len() - i,
        {
            let st = &all[i];
            let ghost out_pre = status_views(out@);
            proof {
                assert(l[i as int] == st@);
                assert(l.skip(i as int)[0] == l[i as int]);
                assert(l.skip(i as int).drop_first() =~= l.skip(i as int + 1));
            }
            if !found && st.file_path == *file_path {
                out.push(FileReviewState { file_path: file_path.clone(), status });
                found = true;
                proof {
                    let newer = FileReviewStateView { file_path: file_path@, status };
                    assert(status_views(out@) =~= out_pre.push(newer));
                    assert(out_pre + (seq![newer] + l.skip(i as int + 1)) =~= out_pre.push(newer)
                        + l.skip(i as int + 1));
                }
            } else {
                out.push(FileReviewState { file_path: st.file_path.clone(), status: st.status });
                proof {
                    assert(status_views(out@) =~= out_pre.push(st@));
                    if found {
                        assert(out_pre + l.skip(i as int) =~= out_pre.push(st@) + l.skip(
                            i as int + 1,
                        ));
                    } else {
                        assert(out_pre + (seq![st@] + set_status(
                            l.skip(i as int + 1),
                            file_path@,
                            status,
                        )) =~= out_pre.push(st@) + set_status(
                            l.skip(i as int + 1),
                            file_path@,
                            status,
                        ));
                    }
                }
            }
            i = i + 1;
        }
        proof {
            assert(l.skip(l.len() as int) =~= Seq::<FileReviewStateView>::empty());
        }
        if !found {
            let ghost out_pre = status_views(out@);
            out.push(FileReviewState { file_path: file_path.clone(), status });
            proof {
                let newer = FileReviewStateView { file_path: file_path@, status };
                assert(status_views(out@) =~= out_pre.push(newer));
                assert(set_status(Seq::<FileReviewStateView>::empty(), file_path@, status)
                    =~= seq![newer]);
                assert(out_pre + seq![newer] =~= out_pre.push(newer));
            }
        } else {
            proof {
                assert(status_views(out@) + Seq::<FileReviewStateView>::empty() =~= status_views(
                    out@,
                ));
            }
        }
        self.save_file_statuses(out.as_slice());
        Ok(())
    }

    /// The recorded status of one file; a file no record names is
    /// unreviewed.
    pub fn get_file_status(&self, file_path: &String) -> (r: Result<FileStatus, StoreError>)
        ensures
            match r {
                Ok(st) => spec_load_statuses(self@.file_status_doc) is Some && st == status_for(
                    spec_load_statuses(self@.file_status_doc)->Some_0,
                    file_path@,
                ),
                Err(_) => spec_load_statuses(self@.file_status_doc) is None,
            },
    {
        let all = match self.load_file_statuses() {
            Ok(v) => v,
            Err(e) => {
                return Err(e);
            },
        };
        let ghost l = status_views(all@);
        let mut i: usize = 0;
        proof {
            assert(l.skip(0) =~= l);
        }
        while i < all.len()
            invariant
                l == status_views(all@),
                spec_load_statuses(self@.file_status_doc) == Some(l),
                i <= all@.len(),
                status_for(l, file_path@) == status_for(l.skip(i as int), file_path@),
            decreases all@.len() - i,
        {
            let st = &all[i];
            proof {
                assert(l[i as int] == st@);
                assert(l.skip(i as int)[0] == l[i as int]);
                assert(l.skip(i as int).drop_first() =~= l.skip(i as int + 1));
            }
            if st.file_path == *file_path {
                proof {
                    assert(l.skip(i as int).len() > 0);
                    assert(status_for(l.skip(i as int), file_path@) == st@.status);
                    assert(spec_load_statuses(self@.file_status_doc)->Some_0 == l);
                    assert(st@.status == status_for(l, file_path@));
                    assert(st@.status == st.status);
                }
                return Ok(st.status);
            }
            i = i + 1;
        }
        proof {
            assert(l.skip(l.len() as int) =~= Seq::<FileReviewStateView>::empty());
        }
        Ok(FileStatus::Unreviewed)
    }
}

} // verus!
