//! The Markdown export: annotations grouped by file, files in ascending path
//! order, each group sorted by start line, single-line and multi-line
//! entries rendered differently.

use vstd::prelude::*;

use crate::adjust::ann_views;
use crate::annotation::{Annotation, AnnotationView};
use crate::codec::{chars_le, chars_to_string, dec_digits, lex_le, push_u32, str_chars};
use crate::records::push_all;
use crate::store::filter_file;

verus! {

// ------------------------------------------------------------------- tokens
/// `# Annotations\n\n`
pub open spec fn md_header() -> Seq<char> {
    seq!['#', ' ', 'A', 'n', 'n', 'o', 't', 'a', 't', 'i', 'o', 'n', 's', '\n', '\n']
}

/// `No annotations found.\n`
pub open spec fn md_no_annotations() -> Seq<char> {
    seq!['N', 'o', ' ', 'a', 'n', 'n', 'o', 't', 'a', 't', 'i', 'o', 'n', 's', ' ', 'f', 'o', 'u',
        'n', 'd', '.', '\n']
}

/// ``## ` ``
pub open spec fn md_section_open() -> Seq<char> {
    seq!['#', '#', ' ', '`']
}

/// `` `\n\n ``
pub open spec fn md_section_close() -> Seq<char> {
    seq!['`', '\n', '\n']
}

/// `- **Line `
pub open spec fn md_line_one() -> Seq<char> {
    seq!['-', ' ', '*', '*', 'L', 'i', 'n', 'e', ' ']
}

/// `- **Lines `
pub open spec fn md_line_many() -> Seq<char> {
    seq!['-', ' ', '*', '*', 'L', 'i', 'n', 'e', 's', ' ']
}

/// `**: `
pub open spec fn md_line_mid() -> Seq<char> {
    seq!['*', '*', ':', ' ']
}

// ------------------------------------------------------------------ grouping
/// The models of a vector of paths.
pub open spec fn path_views(s: Seq<String>) -> Seq<Seq<char>> {
    Seq::new(s.len(), |i: int| s[i]@)
}

/// `p` inserted into an ascending list of distinct paths; nothing changes
/// when it is already there.
pub open spec fn insert_unique(ps: Seq<Seq<char>>, p: Seq<char>) -> Seq<Seq<char>>
    decreases ps.len(),
{
    if ps.len() == 0 {
        seq![p]
    } else if ps[0] == p {
        ps
    } else if lex_le(p, ps[0]) {
        seq![p] + ps
    } else {
        seq![ps[0]] + insert_unique(ps.drop_first(), p)
    }
}

/// The distinct file paths of the annotations, in ascending order.
pub open spec fn distinct_sorted_paths(anns: Seq<AnnotationView>) -> Seq<Seq<char>>
    decreases anns.len(),
{
    if anns.len() == 0 {
        Seq::empty()
    } else {
        insert_unique(distinct_sorted_paths(anns.drop_last()), anns.last().file_path)
    }
}

/// `a` inserted after every annotation whose start line is at most its own:
/// a stable insertion.
pub open spec fn insert_by_start(l: Seq<AnnotationView>, a: AnnotationView) -> Seq<AnnotationView>
    decreases l.len(),
{
    if l.len() == 0 {
        seq![a]
    } else if a.start_line < l.last().start_line {
        insert_by_start(l.drop_last(), a).push(l.last())
    } else {
        l.push(a)
    }
}

/// The list sorted by start line, stably.
pub open spec fn sort_by_start(l: Seq<AnnotationView>) -> Seq<AnnotationView>
    decreases l.len(),
{
    if l.len() == 0 {
        Seq::empty()
    } else {
        insert_by_start(sort_by_start(l.drop_last()), l.last())
    }
}

// ------------------------------------------------------------------ renderer
/// One exported entry: its line or line range, then its text.
pub open spec fn md_entry(a: AnnotationView) -> Seq<char> {
    if a.start_line == a.end_line {
        md_line_one() + dec_digits(a.start_line as nat) + md_line_mid() + a.text + seq!['\n']
    } else {
        md_line_many() + dec_digits(a.start_line as nat) + seq!['-'] + dec_digits(
            a.end_line as nat,
        ) + md_line_mid() + a.text + seq!['\n']
    }
}

/// The entries of one group, in order.
pub open spec fn md_entries(l: Seq<AnnotationView>) -> Seq<char>
    decreases l.len(),
{
    if l.len() == 0 {
        Seq::empty()
    } else {
        md_entries(l.drop_last()) + md_entry(l.last())
    }
}

/// One file's section: its path as a heading, then its entries sorted by
/// start line, then a blank line.
pub open spec fn md_section(path: Seq<char>, anns: Seq<AnnotationView>) -> Seq<char> {
    md_section_open() + path + md_section_close() + md_entries(
        sort_by_start(filter_file(anns, path)),
    ) + seq!['\n']
}

/// The sections for the given paths, in order.
pub open spec fn md_sections(paths: Seq<Seq<char>>, anns: Seq<AnnotationView>) -> Seq<char>
    decreases paths.len(),
{
    if paths.len() == 0 {
        Seq::empty()
    } else {
        md_section(paths[0], anns) + md_sections(paths.drop_first(), anns)
    }
}

/// The whole export: a heading, then either a notice that nothing is there
/// or one section per annotated file, ascending by path.
pub open spec fn spec_export_markdown(anns: Seq<AnnotationView>) -> Seq<char> {
    if anns.len() == 0 {
        md_header() + md_no_annotations()
    } else {
        md_header() + md_sections(distinct_sorted_paths(anns), anns)
    }
}

fn copy_paths_from(paths: &Vec<String>, i: usize) -> (r: Vec<String>)
    requires
        i <= paths@.len(),
    ensures
        path_views(r@) == path_views(paths@).skip(i as int),
    decreases paths@.len() - i,
{
    let mut r: Vec<String> = Vec::new();
    let mut k = i;
    proof {
        assert(path_views(r@) =~= path_views(paths@).subrange(i as int, i as int));
    }
    while k < paths.len()
        invariant
            i <= k <= paths@.len(),
            path_views(r@) == path_views(paths@).subrange(i as int, k as int),
        decreases paths@.len() - k,
    {
        r.push(paths[k].clone());
        proof {
            assert(path_views(r@) =~= path_views(paths@).subrange(i as int, k as int).push(
                path_views(paths@)[k as int],
            ));
            assert(path_views(paths@).subrange(i as int, k as int + 1) =~= path_views(
                paths@,
            ).subrange(i as int, k as int).push(path_views(paths@)[k as int]));
        }
        k = k + 1;
    }
    proof {
        assert(path_views(paths@).subrange(i as int, paths@.len() as int) =~= path_views(
            paths@,
        ).skip(i as int));
    }
    r
}

fn insert_unique_from(paths: &Vec<String>, i: usize, p: &String) -> (r: Vec<String>)
    requires
        i <= paths@.len(),
    ensures
        path_views(r@) == insert_unique(path_views(paths@).skip(i as int), p@),
    decreases paths@.len() - i,
{
    if i >= paths.len() {
        proof {
            assert(path_views(paths@).skip(i as int).len() == 0);
        }
        let r = vec![p.clone()];
        proof {
            assert(path_views(r@) =~= seq![p@]);
        }
        r
    } else {
        let ghost pv = path_views(paths@);
        proof {
            assert(pv.skip(i as int)[0] == pv[i as int]);
            assert(pv.skip(i as int).drop_first() =~= pv.skip(i as int + 1));
            assert(pv[i as int] == paths@[i as int]@);
        }
        if paths[i] == *p {
            copy_paths_from(paths, i)
        } else {
            let pc = str_chars(p.as_str());
            let ec = str_chars(paths[i].as_str());
            if chars_le(&pc, &ec) {
                let mut r = copy_paths_from(paths, i);
                r.insert(0, p.clone());
                proof {
                    assert(path_views(r@) =~= seq![p@] + pv.skip(i as int));
                }
                r
            } else {
                let mut r = insert_unique_from(paths, i + 1, p);
                r.insert(0, paths[i].clone());
                proof {
                    assert(path_views(r@) =~= seq![pv[i as int]] + insert_unique(
                        pv.skip(i as int + 1),
                        p@,
                    ));
                }
                r
            }
        }
    }
}

fn insert_by_start_exec(l: Vec<Annotation>, a: Annotation) -> (r: Vec<Annotation>)
    ensures
        ann_views(r@) == insert_by_start(ann_views(l@), a@),
    decreases l@.len(),
{
    let mut l = l;
    let ghost lv = ann_views(l@);
    match l.pop() {
        None => {
            proof {
                assert(lv.len() == 0);
            }
            let r = vec![a];
            proof {
                assert(ann_views(r@) =~= seq![a@]);
            }
            r
        },
        Some(last) => {
            proof {
                assert(ann_views(l@) =~= lv.drop_last());
                assert(lv.last() == last@);
            }
            if a.start_line < last.start_line {
                let mut r = insert_by_start_exec(l, a);
                let ghost rv = ann_views(r@);
                r.push(last);
                proof {
                    assert(ann_views(r@) =~= rv.push(last@));
                }
                r
            } else {
                let ghost av = a@;
                l.push(last);
                proof {
                    assert(ann_views(l@) =~= lv);
                }
                l.push(a);
                proof {
                    assert(ann_views(l@) =~= lv.push(av));
                }
                l
            }
        },
    }
}

fn sort_by_start_exec(l: Vec<Annotation>) -> (r: Vec<Annotation>)
    ensures
        ann_views(r@) == sort_by_start(ann_views(l@)),
    decreases l@.len(),
{
    let mut l = l;
    let ghost lv = ann_views(l@);
    match l.pop() {
        None => {
            proof {
                assert(lv.len() == 0);
                assert(ann_views(l@) =~= Seq::<AnnotationView>::empty());
            }
            l
        },
        Some(last) => {
            proof {
                assert(ann_views(l@) =~= lv.drop_last());
                assert(lv.last() == last@);
            }
            let sorted = sort_by_start_exec(l);
            insert_by_start_exec(sorted, last)
        },
    }
}

/// Render every annotation as Markdown, grouped by file.
pub fn export_markdown(annotations: &[Annotation]) -> (r: String)
    ensures
        r@ == spec_export_markdown(ann_views(annotations@)),
{
    let header: Vec<char> = vec!['#', ' ', 'A', 'n', 'n', 'o', 't', 'a', 't', 'i', 'o', 'n', 's',
        '\n', '\n'];
    proof {
        assert(header@ =~= md_header());
    }
    let ghost av = ann_views(annotations@);
    let mut out: Vec<char> = Vec::new();
    push_all(&mut out, &header);
    if annotations.len() == 0 {
        let msg: Vec<char> = vec!['N', 'o', ' ', 'a', 'n', 'n', 'o', 't', 'a', 't', 'i', 'o', 'n',
            's', ' ', 'f', 'o', 'u', 'n', 'd', '.', '\n'];
        proof {
            assert(msg@ =~= md_no_annotations());
        }
        push_all(&mut out, &msg);
        proof {
            assert(av.len() == 0);
            assert(out@ =~= spec_export_markdown(av));
        }
        return chars_to_string(&out);
    }
    // The distinct paths, ascending.
    let mut paths: Vec<String> = Vec::new();
    let mut i: usize = 0;
    proof {
        assert(av.take(0) =~= Seq::<AnnotationView>::empty());
        assert(path_views(paths@) =~= distinct_sorted_paths(av.take(0)));
    }
    while i < annotations.len()
        invariant
            av == ann_views(annotations@),
            i <= annotations@.len(),
            path_views(paths@) == distinct_sorted_paths(av.take(i as int)),
        decreases annotations@.len() - i,
    {
        proof {
            assert(av.take(i as int + 1).drop_last() =~= av.take(i as int));
            assert(av.take(i as int + 1).last() == av[i as int]);
            assert(av[i as int] == annotations@[i as int]@);
            assert(path_views(paths@).skip(0) =~= path_views(paths@));
        }
        paths = insert_unique_from(&paths, 0, &annotations[i].file_path);
        i = i + 1;
    }
    proof {
        assert(av.take(av.len() as int) =~= av);
    }
    // One section per path.
    let ghost pv = path_views(paths@);
    let sec_open: Vec<char> = vec!['#', '#', ' ', '`'];
    let sec_close: Vec<char> = vec!['`', '\n', '\n'];
    let line_one: Vec<char> = vec!['-', ' ', '*', '*', 'L', 'i', 'n', 'e', ' '];
    let line_many: Vec<char> = vec!['-', ' ', '*', '*', 'L', 'i', 'n', 'e', 's', ' '];
    let line_mid: Vec<char> = vec!['*', '*', ':', ' '];
    proof {
        assert(sec_open@ =~= md_section_open());
        assert(sec_close@ =~= md_section_close());
        assert(line_one@ =~= md_line_one());
        assert(line_many@ =~= md_line_many());
        assert(line_mid@ =~= md_line_mid());
        assert(pv.skip(0) =~= pv);
    }
    let mut j: usize = 0;
    while j < paths.len()
        invariant
            av == ann_views(annotations@),
            pv == path_views(paths@),
            j <= paths@.len(),
            sec_open@ == md_section_open(),
            sec_close@ == md_section_close(),
            line_one@ == md_line_one(),
            line_many@ == md_line_many(),
            line_mid@ == md_line_mid(),
            md_header() + md_sections(pv, av) == out@ + md_sections(pv.skip(j as int), av),
        decreases paths@.len() - j,
    {
        let path = &paths[j];
        proof {
            assert(pv.skip(j as int)[0] == pv[j as int]);
            assert(pv.skip(j as int).drop_first() =~= pv.skip(j as int + 1));
            assert(pv[j as int] == paths@[j as int]@);
        }
        // Gather and sort this file's annotations.
        let mut group: Vec<Annotation> = Vec::new();
        let mut k: usize = 0;
        proof {
            assert(av.take(0) =~= Seq::<AnnotationView>::empty());
            assert(ann_views(group@) =~= filter_file(av.take(0), path@));
        }
        while k < annotations.len()
            invariant
                av == ann_views(annotations@),
                k <= annotations@.len(),
                ann_views(group@) == filter_file(av.take(k as int), path@),
            decreases annotations@.len() - k,
        {
            let a = &annotations[k];
            let ghost gv = ann_views(group@);
            proof {
                assert(av.take(k as int + 1).drop_last() =~= av.take(k as int));
                assert(av.take(k as int + 1).last() == av[k as int]);
                assert(av[k as int] == a@);
            }
            if a.file_path == *path {
                group.push(a.duplicate());
                proof {
                    assert(ann_views(group@) =~= gv.push(a@));
                }
            }
            k = k + 1;
        }
        proof {
            assert(av.take(av.len() as int) =~= av);
        }
        let sorted = sort_by_start_exec(group);
        let ghost sv = ann_views(sorted@);
        // Render the section.
        let ghost out_at_section = out@;
        push_all(&mut out, &sec_open);
        let pc = str_chars(path.as_str());
        push_all(&mut out, &pc);
        push_all(&mut out, &sec_close);
        let mut m: usize = 0;
        let ghost out_at_entries = out@;
        proof {
            assert(sv.take(0) =~= Seq::<AnnotationView>::empty());
            assert(out@ =~= out_at_entries + md_entries(sv.take(0)));
        }
        while m < sorted.len()
            invariant
                sv == ann_views(sorted@),
                m <= sorted@.len(),
                line_one@ == md_line_one(),
                line_many@ == md_line_many(),
                line_mid@ == md_line_mid(),
                out@ == out_at_entries + md_entries(sv.take(m as int)),
            decreases sorted@.len() - m,
        {
            let a = &sorted[m];
            let ghost out_pre = out@;
            proof {
                assert(sv.take(m as int + 1).drop_last() =~= sv.take(m as int));
                assert(sv.take(m as int + 1).last() == sv[m as int]);
                assert(sv[m as int] == a@);
            }
            if a.start_line == a.end_line {
                push_all(&mut out, &line_one);
                push_u32(&mut out, a.start_line);
            } else {
                push_all(&mut out, &line_many);
                push_u32(&mut out, a.start_line);
                out.push('-');
                push_u32(&mut out, a.end_line);
            }
            push_all(&mut out, &line_mid);
            let tc = str_chars(a.text.as_str());
            push_all(&mut out, &tc);
            out.push('\n');
            proof {
                assert(out@ =~= out_pre + md_entry(a@));
                assert(out@ =~= out_at_entries + md_entries(sv.take(m as int + 1)));
            }
            m = m + 1;
        }
        proof {
            assert(sv.take(sorted@.len() as int) =~= sv);
        }
        out.push('\n');
        proof {
            assert(out@ =~= out_at_section + md_section(pv[j as int], av));
        }
        j = j + 1;
    }
    proof {
        assert(pv.skip(pv.len() as int) =~= Seq::<Seq<char>>::empty());
        assert(md_header() + md_sections(pv, av) =~= out@);
        assert(out@ =~= spec_export_markdown(av));
    }
    chars_to_string(&out)
}

} // verus!
