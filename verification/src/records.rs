//! The persisted record formats: one annotation or file-status record per
//! line, and the session object, in the canonical textual form the library
//! writes — self-describing records with quoted, escaped string fields.

use vstd::prelude::*;

use crate::annotation::{Annotation, AnnotationView, FileReviewState, FileReviewStateView,
    FileStatus};
use crate::codec::{escape_char, escape_string, is_ws_char, lemma_parse_escaped, lemma_skip_ws_nop,
    lemma_parse_dec_roundtrip, dec_digits, spec_parse_string_body, spec_parse_u32, spec_skip_ws,
    parse_string_body, parse_u32_at, push_escaped, push_u32, skip_ws, str_chars, chars_to_string};
use crate::uid::{lemma_pow16_consts, lemma_uuid_roundtrip, lemma_hex_fixed_shape, pow16,
    push_uuid, spec_uuid_value, uuid_chars, uuid_from_chars, hex_fixed};

verus! {

// ------------------------------------------------------------------- tokens
/// `{"id":"`
pub open spec fn tok_id() -> Seq<char> {
    seq!['{', '"', 'i', 'd', '"', ':', '"']
}

/// `","file_path":"`
pub open spec fn tok_file_path() -> Seq<char> {
    seq!['"', ',', '"', 'f', 'i', 'l', 'e', '_', 'p', 'a', 't', 'h', '"', ':', '"']
}

/// `","start_line":`
pub open spec fn tok_start_line() -> Seq<char> {
    seq!['"', ',', '"', 's', 't', 'a', 'r', 't', '_', 'l', 'i', 'n', 'e', '"', ':']
}

/// `,"end_line":`
pub open spec fn tok_end_line() -> Seq<char> {
    seq![',', '"', 'e', 'n', 'd', '_', 'l', 'i', 'n', 'e', '"', ':']
}

/// `,"text":"`
pub open spec fn tok_text() -> Seq<char> {
    seq![',', '"', 't', 'e', 'x', 't', '"', ':', '"']
}

/// `","created_at":"`
pub open spec fn tok_created_at() -> Seq<char> {
    seq!['"', ',', '"', 'c', 'r', 'e', 'a', 't', 'e', 'd', '_', 'a', 't', '"', ':', '"']
}

/// `","updated_at":"`
pub open spec fn tok_updated_at() -> Seq<char> {
    seq!['"', ',', '"', 'u', 'p', 'd', 'a', 't', 'e', 'd', '_', 'a', 't', '"', ':', '"']
}

/// `"}`
pub open spec fn tok_close() -> Seq<char> {
    seq!['"', '}']
}

// ------------------------------------------------------------------ renderer
/// The one-line textual form of an annotation record.
pub open spec fn annotation_line(a: AnnotationView) -> Seq<char> {
    tok_id() + uuid_chars(a.id as int) + tok_file_path() + escape_string(a.file_path)
        + tok_start_line() + dec_digits(a.start_line as nat) + tok_end_line() + dec_digits(
        a.end_line as nat,
    ) + tok_text() + escape_string(a.text) + tok_created_at() + escape_string(a.created_at)
        + tok_updated_at() + escape_string(a.updated_at) + tok_close()
}

/// Append the one-line form of `a` to `out`.
pub fn push_annotation_line(out: &mut Vec<char>, a: &Annotation)
    ensures
        final(out)@ == old(out)@ + annotation_line(a@),
{
    let t1: Vec<char> = vec!['{', '"', 'i', 'd', '"', ':', '"'];
    let t2: Vec<char> = vec!['"', ',', '"', 'f', 'i', 'l', 'e', '_', 'p', 'a', 't', 'h', '"', ':',
        '"'];
    let t3: Vec<char> = vec!['"', ',', '"', 's', 't', 'a', 'r', 't', '_', 'l', 'i', 'n', 'e', '"',
        ':'];
    let t4: Vec<char> = vec![',', '"', 'e', 'n', 'd', '_', 'l', 'i', 'n', 'e', '"', ':'];
    let t5: Vec<char> = vec![',', '"', 't', 'e', 'x', 't', '"', ':', '"'];
    let t6: Vec<char> = vec!['"', ',', '"', 'c', 'r', 'e', 'a', 't', 'e', 'd', '_', 'a', 't', '"',
        ':', '"'];
    let t7: Vec<char> = vec!['"', ',', '"', 'u', 'p', 'd', 'a', 't', 'e', 'd', '_', 'a', 't', '"',
        ':', '"'];
    let t8: Vec<char> = vec!['"', '}'];
    proof {
        assert(t1@ =~= tok_id());
        assert(t2@ =~= tok_file_path());
        assert(t3@ =~= tok_start_line());
        assert(t4@ =~= tok_end_line());
        assert(t5@ =~= tok_text());
        assert(t6@ =~= tok_created_at());
        assert(t7@ =~= tok_updated_at());
        assert(t8@ =~= tok_close());
    }
    let file_path = str_chars(a.file_path.as_str());
    let text = str_chars(a.text.as_str());
    let created = str_chars(a.created_at.as_str());
    let updated = str_chars(a.updated_at.as_str());
    push_all(out, &t1);
    push_uuid(out, a.id);
    push_all(out, &t2);
    push_escaped(out, &file_path);
    push_all(out, &t3);
    push_u32(out, a.start_line);
    push_all(out, &t4);
    push_u32(out, a.end_line);
    push_all(out, &t5);
    push_escaped(out, &text);
    push_all(out, &t6);
    push_escaped(out, &created);
    push_all(out, &t7);
    push_escaped(out, &updated);
    push_all(out, &t8);
    proof {
        assert(final(out)@ =~= old(out)@ + annotation_line(a@));
    }
}

/// Append every character of `tok` to `out`.
pub fn push_all(out: &mut Vec<char>, tok: &Vec<char>)
    ensures
        final(out)@ == old(out)@ + tok@,
{
    let mut i: usize = 0;
    proof {
        assert(out@ =~= old(out)@ + tok@.take(0));
    }
    while i < tok.len()
        invariant
            i <= tok@.len(),
            out@ == old(out)@ + tok@.take(i as int),
        decreases tok@.len() - i,
    {
        out.push(tok[i]);
        proof {
            assert(old(out)@ + tok@.take(i as int + 1) =~= (old(out)@ + tok@.take(i as int)).push(
                tok@[i as int],
            ));
        }
        i = i + 1;
    }
    proof {
        assert(tok@.take(tok@.len() as int) =~= tok@);
    }
}

// -------------------------------------------------------------------- parser
/// Consume `tok` from the front of `s`, or nothing.
pub open spec fn expect(s: Seq<char>, tok: Seq<char>) -> Option<Seq<char>> {
    if tok.len() <= s.len() && s.take(tok.len() as int) == tok {
        Some(s.skip(tok.len() as int))
    } else {
        None
    }
}

/// Consuming a token from text that starts with it leaves the rest.
pub proof fn lemma_expect_prefix(tok: Seq<char>, rest: Seq<char>)
    ensures
        expect(tok + rest, tok) == Some(rest),
{
    assert((tok + rest).take(tok.len() as int) =~= tok);
    assert((tok + rest).skip(tok.len() as int) =~= rest);
}

/// What parsing one annotation record yields. The record is read in the
/// canonical form the renderer writes, with leading and trailing whitespace
/// allowed around it.
pub open spec fn spec_parse_annotation(line: Seq<char>) -> Option<AnnotationView> {
    let s0 = spec_skip_ws(line);
    match expect(s0, tok_id()) {
        None => None,
        Some(s1) => match spec_parse_string_body(s1) {
            None => None,
            Some((idv, s2)) => match spec_uuid_value(idv) {
                None => None,
                Some(id) => match expect(s2, tok_file_path().drop_first()) {
                    None => None,
                    Some(s3) => match spec_parse_string_body(s3) {
                        None => None,
                        Some((fp, s4)) => match expect(s4, tok_start_line().drop_first()) {
                            None => None,
                            Some(s5) => match spec_parse_u32(s5) {
                                None => None,
                                Some((start, s6)) => match expect(s6, tok_end_line()) {
                                    None => None,
                                    Some(s7) => match spec_parse_u32(s7) {
                                        None => None,
                                        Some((end, s8)) => match expect(s8, tok_text()) {
                                            None => None,
                                            Some(s9) => match spec_parse_string_body(s9) {
                                                None => None,
                                                Some((text, s10)) => match expect(
                                                    s10,
                                                    tok_created_at().drop_first(),
                                                ) {
                                                    None => None,
                                                    Some(s11) => match spec_parse_string_body(s11) {
                                                        None => None,
                                                        Some((created, s12)) => match expect(
                                                            s12,
                                                            tok_updated_at().drop_first(),
                                                        ) {
                                                            None => None,
                                                            Some(s13) => match spec_parse_string_body(
                                                                s13,
                                                            ) {
                                                                None => None,
                                                                Some((updated, s14)) => match expect(
                                                                    s14,
                                                                    tok_close().drop_first(),
                                                                ) {
                                                                    None => None,
                                                                    Some(s15) => if spec_skip_ws(
                                                                        s15,
                                                                    ).len() == 0 {
                                                                        Some(
                                                                            AnnotationView {
                                                                                id: id as u128,
                                                                                file_path: fp,
                                                                                start_line: start as u32,
                                                                                end_line: end as u32,
                                                                                text: text,
                                                                                created_at: created,
                                                                                updated_at: updated,
                                                                            },
                                                                        )
                                                                    } else {
                                                                        None
                                                                    },
                                                                },
                                                            },
                                                        },
                                                    },
                                                },
                                            },
                                        },
                                    },
                                },
                            },
                        },
                    },
                },
            },
        },
    }
}

/// Consume `tok` at position `i`: the position after it, or nothing.
pub fn expect_at(s: &Vec<char>, i: usize, tok: &Vec<char>) -> (r: Option<usize>)
    requires
        i <= s@.len(),
    ensures
        match r {
            Some(j) => i <= j <= s@.len() && expect(s@.skip(i as int), tok@) == Some(
                s@.skip(j as int),
            ),
            None => expect(s@.skip(i as int), tok@) is None,
        },
{
    let n = s.len();
    let tn = tok.len();
    if n - i < tn {
        return None;
    }
    let mut k: usize = 0;
    while k < tn
        invariant
            n == s@.len(),
            tn == tok@.len(),
            i <= s@.len(),
            tok@.len() <= s@.len() - i,
            k <= tok@.len(),
            forall|m: int| 0 <= m < k ==> s@.skip(i as int)[m] == tok@[m],
        decreases tok@.len() - k,
    {
        if s[i + k] != tok[k] {
            proof {
                assert(s@.skip(i as int)[k as int] == s@[i + k]);
                assert(s@.skip(i as int).take(tok@.len() as int)[k as int] != tok@[k as int]);
            }
            return None;
        }
        proof {
            assert(s@.skip(i as int)[k as int] == s@[i + k]);
        }
        k = k + 1;
    }
    proof {
        assert(s@.skip(i as int).take(tok@.len() as int) =~= tok@);
        assert(s@.skip(i as int).skip(tok@.len() as int) =~= s@.skip(i as int + tok@.len()));
    }
    Some(i + tok.len())
}

/// Parse one annotation record; `None` when the line is not in the record
/// form.
pub fn parse_annotation_chars(v: &Vec<char>) -> (r: Option<Annotation>)
    ensures
        match r {
            Some(a) => spec_parse_annotation(v@) == Some(a@),
            None => spec_parse_annotation(v@) is None,
        },
{
    let t1: Vec<char> = vec!['{', '"', 'i', 'd', '"', ':', '"'];
    let p2: Vec<char> = vec![',', '"', 'f', 'i', 'l', 'e', '_', 'p', 'a', 't', 'h', '"', ':', '"'];
    let p3: Vec<char> = vec![',', '"', 's', 't', 'a', 'r', 't', '_', 'l', 'i', 'n', 'e', '"', ':'];
    let t4: Vec<char> = vec![',', '"', 'e', 'n', 'd', '_', 'l', 'i', 'n', 'e', '"', ':'];
    let t5: Vec<char> = vec![',', '"', 't', 'e', 'x', 't', '"', ':', '"'];
    let p6: Vec<char> = vec![',', '"', 'c', 'r', 'e', 'a', 't', 'e', 'd', '_', 'a', 't', '"', ':',
        '"'];
    let p7: Vec<char> = vec![',', '"', 'u', 'p', 'd', 'a', 't', 'e', 'd', '_', 'a', 't', '"', ':',
        '"'];
    let p8: Vec<char> = vec!['}'];
    proof {
        assert(t1@ =~= tok_id());
        assert(p2@ =~= tok_file_path().drop_first());
        assert(p3@ =~= tok_start_line().drop_first());
        assert(t4@ =~= tok_end_line());
        assert(t5@ =~= tok_text());
        assert(p6@ =~= tok_created_at().drop_first());
        assert(p7@ =~= tok_updated_at().drop_first());
        assert(p8@ =~= tok_close().drop_first());
    }
    let i0 = skip_ws(v, 0);
    proof {
        assert(v@.skip(0) =~= v@);
    }
    let i1 = match expect_at(v, i0, &t1) {
        Some(j) => j,
        None => {
            return None;
        },
    };
    let (idv, i2) = match parse_string_body(v, i1) {
        Some(p) => p,
        None => {
            return None;
        },
    };
    let id = match uuid_from_chars(&idv) {
        Some(x) => x,
        None => {
            return None;
        },
    };
    let i3 = match expect_at(v, i2, &p2) {
        Some(j) => j,
        None => {
            return None;
        },
    };
    let (fp, i4) = match parse_string_body(v, i3) {
        Some(p) => p,
        None => {
            return None;
        },
    };
    let i5 = match expect_at(v, i4, &p3) {
        Some(j) => j,
        None => {
            return None;
        },
    };
    let (start, i6) = match parse_u32_at(v, i5) {
        Some(p) => p,
        None => {
            return None;
        },
    };
    let i7 = match expect_at(v, i6, &t4) {
        Some(j) => j,
        None => {
            return None;
        },
    };
    let (end, i8) = match parse_u32_at(v, i7) {
        Some(p) => p,
        None => {
            return None;
        },
    };
    let i9 = match expect_at(v, i8, &t5) {
        Some(j) => j,
        None => {
            return None;
        },
    };
    let (text, i10) = match parse_string_body(v, i9) {
        Some(p) => p,
        None => {
            return None;
        },
    };
    let i11 = match expect_at(v, i10, &p6) {
        Some(j) => j,
        None => {
            return None;
        },
    };
    let (created, i12) = match parse_string_body(v, i11) {
        Some(p) => p,
        None => {
            return None;
        },
    };
    let i13 = match expect_at(v, i12, &p7) {
        Some(j) => j,
        None => {
            return None;
        },
    };
    let (updated, i14) = match parse_string_body(v, i13) {
        Some(p) => p,
        None => {
            return None;
        },
    };
    let i15 = match expect_at(v, i14, &p8) {
        Some(j) => j,
        None => {
            return None;
        },
    };
    let i16 = skip_ws(v, i15);
    if i16 < v.len() {
        proof {
            assert(spec_skip_ws(v@.skip(i15 as int)).len() == v@.len() - i16);
        }
        return None;
    }
    proof {
        assert(spec_skip_ws(v@.skip(i15 as int)).len() == 0);
    }
    Some(
        Annotation {
            id,
            file_path: chars_to_string(&fp),
            start_line: start,
            end_line: end,
            text: chars_to_string(&text),
            created_at: chars_to_string(&created),
            updated_at: chars_to_string(&updated),
        },
    )
}

// ---------------------------------------------------------------- round trip
proof fn lemma_escape_plain(s: Seq<char>)
    requires
        forall|i: int| 0 <= i < s.len() ==> #[trigger] escape_char(s[i]) == seq![s[i]],
    ensures
        escape_string(s) == s,
    decreases s.len(),
{
    if s.len() > 0 {
        lemma_escape_plain(s.drop_last());
        assert(escape_char(s.last()) == seq![s.last()]);
        assert(escape_string(s) =~= s);
    }
}

proof fn lemma_uuid_chars_plain(id: int)
    ensures
        escape_string(uuid_chars(id)) == uuid_chars(id),
{
    let s = uuid_chars(id);
    lemma_hex_fixed_shape(id / pow16(24), 8);
    lemma_hex_fixed_shape((id % pow16(24)) / pow16(20), 4);
    lemma_hex_fixed_shape((id % pow16(24)) % pow16(20) / pow16(16), 4);
    lemma_hex_fixed_shape((id % pow16(24)) % pow16(20) % pow16(16) / pow16(12), 4);
    lemma_hex_fixed_shape((id % pow16(24)) % pow16(20) % pow16(16) % pow16(12), 12);
    assert forall|i: int| 0 <= i < s.len() implies #[trigger] escape_char(s[i]) == seq![s[i]] by {
        assert(crate::codec::is_hex_char(s[i]) || s[i] == '-');
        let c = s[i];
        assert(c != '"' && c != '\\' && c != '\n' && c != '\r' && c != '\t' && (c as u32) >= 0x20);
    }
    lemma_escape_plain(s);
}

/// A rendered record line holds no raw newline and is not blank, so the
/// line-oriented document keeps one record per line.
pub proof fn lemma_annotation_line_shape(a: AnnotationView)
    ensures
        forall|i: int|
            0 <= i < annotation_line(a).len() ==> #[trigger] annotation_line(a)[i] != '\n',
        annotation_line(a).len() > 0,
        annotation_line(a)[0] == '{',
{
    let line = annotation_line(a);
    crate::codec::lemma_escape_no_newline(a.file_path);
    crate::codec::lemma_escape_no_newline(a.text);
    crate::codec::lemma_escape_no_newline(a.created_at);
    crate::codec::lemma_escape_no_newline(a.updated_at);
    crate::codec::lemma_dec_digits_plain(a.start_line as nat);
    crate::codec::lemma_dec_digits_plain(a.end_line as nat);
    let u = uuid_chars(a.id as int);
    lemma_hex_fixed_shape(a.id as int / pow16(24), 8);
    lemma_hex_fixed_shape((a.id as int % pow16(24)) / pow16(20), 4);
    lemma_hex_fixed_shape((a.id as int % pow16(24)) % pow16(20) / pow16(16), 4);
    lemma_hex_fixed_shape((a.id as int % pow16(24)) % pow16(20) % pow16(16) / pow16(12), 4);
    lemma_hex_fixed_shape((a.id as int % pow16(24)) % pow16(20) % pow16(16) % pow16(12), 12);
    assert(forall|i: int| 0 <= i < u.len() ==> #[trigger] u[i] != '\n') by {
        assert(forall|i: int|
            0 <= i < u.len() ==> crate::codec::is_hex_char(#[trigger] u[i]) || u[i] == '-');
    }
    assert(forall|i: int| 0 <= i < tok_id().len() ==> #[trigger] tok_id()[i] != '\n');
    assert(forall|i: int|
        0 <= i < tok_file_path().len() ==> #[trigger] tok_file_path()[i] != '\n');
    assert(forall|i: int|
        0 <= i < tok_start_line().len() ==> #[trigger] tok_start_line()[i] != '\n');
    assert(forall|i: int| 0 <= i < tok_end_line().len() ==> #[trigger] tok_end_line()[i] != '\n');
    assert(forall|i: int| 0 <= i < tok_text().len() ==> #[trigger] tok_text()[i] != '\n');
    assert(forall|i: int|
        0 <= i < tok_created_at().len() ==> #[trigger] tok_created_at()[i] != '\n');
    assert(forall|i: int|
        0 <= i < tok_updated_at().len() ==> #[trigger] tok_updated_at()[i] != '\n');
    assert(forall|i: int| 0 <= i < tok_close().len() ==> #[trigger] tok_close()[i] != '\n');
    assert(line[0] == '{');
}

/// The same shape facts for a file-status record line.
pub proof fn lemma_status_line_shape(st: FileReviewStateView)
    ensures
        forall|i: int| 0 <= i < status_line(st).len() ==> #[trigger] status_line(st)[i] != '\n',
        status_line(st).len() > 0,
        status_line(st)[0] == '{',
{
    let line = status_line(st);
    crate::codec::lemma_escape_no_newline(st.file_path);
    assert(forall|i: int|
        0 <= i < tok_status_path().len() ==> #[trigger] tok_status_path()[i] != '\n');
    assert(forall|i: int| 0 <= i < tok_status().len() ==> #[trigger] tok_status()[i] != '\n');
    assert(forall|i: int| 0 <= i < tok_close().len() ==> #[trigger] tok_close()[i] != '\n');
    assert(forall|i: int|
        0 <= i < status_chars(st.status).len() ==> #[trigger] status_chars(st.status)[i] != '\n');
    assert(line[0] == '{');
}

/// Reading back the rendered line of an annotation gives the annotation.
#[verifier::rlimit(50)]
pub proof fn lemma_annotation_roundtrip(a: AnnotationView)
    ensures
        spec_parse_annotation(annotation_line(a)) == Some(a),
{
    lemma_pow16_consts();
    let q = seq!['"'];
    let u = uuid_chars(a.id as int);
    let e_fp = escape_string(a.file_path);
    let e_text = escape_string(a.text);
    let e_created = escape_string(a.created_at);
    let e_updated = escape_string(a.updated_at);
    let d1 = dec_digits(a.start_line as nat);
    let d2 = dec_digits(a.end_line as nat);
    let m14 = tok_close().drop_first();
    let m13 = e_updated + q + m14;
    let m12 = tok_updated_at().drop_first() + m13;
    let m11 = e_created + q + m12;
    let m10 = tok_created_at().drop_first() + m11;
    let m9 = e_text + q + m10;
    let m8 = tok_text() + m9;
    let m7 = d2 + m8;
    let m6 = tok_end_line() + m7;
    let m5 = d1 + m6;
    let m4 = tok_start_line().drop_first() + m5;
    let m3 = e_fp + q + m4;
    let m2 = tok_file_path().drop_first() + m3;
    let m1 = u + q + m2;
    let line = annotation_line(a);
    assert(line =~= tok_id() + m1);
    assert(line[0] == '{');
    lemma_skip_ws_nop(line);
    lemma_expect_prefix(tok_id(), m1);
    lemma_uuid_chars_plain(a.id as int);
    assert(m1 =~= escape_string(u) + seq!['"'] + m2);
    lemma_parse_escaped(u, m2);
    lemma_uuid_roundtrip(a.id as int);
    lemma_expect_prefix(tok_file_path().drop_first(), m3);
    assert(m3 =~= e_fp + seq!['"'] + m4);
    lemma_parse_escaped(a.file_path, m4);
    lemma_expect_prefix(tok_start_line().drop_first(), m5);
    assert(m5 =~= d1 + m6);
    assert(m6[0] == ',');
    lemma_parse_dec_roundtrip(a.start_line as nat, m6);
    lemma_expect_prefix(tok_end_line(), m7);
    assert(m8[0] == ',');
    lemma_parse_dec_roundtrip(a.end_line as nat, m8);
    lemma_expect_prefix(tok_text(), m9);
    assert(m9 =~= e_text + seq!['"'] + m10);
    lemma_parse_escaped(a.text, m10);
    lemma_expect_prefix(tok_created_at().drop_first(), m11);
    assert(m11 =~= e_created + seq!['"'] + m12);
    lemma_parse_escaped(a.created_at, m12);
    lemma_expect_prefix(tok_updated_at().drop_first(), m13);
    assert(m13 =~= e_updated + seq!['"'] + m14);
    lemma_parse_escaped(a.updated_at, m14);
    assert(m14 =~= tok_close().drop_first() + Seq::<char>::empty());
    lemma_expect_prefix(tok_close().drop_first(), Seq::<char>::empty());
    lemma_skip_ws_nop(Seq::<char>::empty());
    assert(spec_parse_annotation(line) == Some(
        AnnotationView {
            id: (a.id as int) as u128,
            file_path: a.file_path,
            start_line: (a.start_line as int) as u32,
            end_line: (a.end_line as int) as u32,
            text: a.text,
            created_at: a.created_at,
            updated_at: a.updated_at,
        },
    ));
}

// ------------------------------------------------------------ status records
/// `{"file_path":"`
pub open spec fn tok_status_path() -> Seq<char> {
    seq!['{', '"', 'f', 'i', 'l', 'e', '_', 'p', 'a', 't', 'h', '"', ':', '"']
}

/// `","status":"`
pub open spec fn tok_status() -> Seq<char> {
    seq!['"', ',', '"', 's', 't', 'a', 't', 'u', 's', '"', ':', '"']
}

/// The wire name of a review status.
pub open spec fn status_chars(st: FileStatus) -> Seq<char> {
    match st {
        FileStatus::Unreviewed => seq!['u', 'n', 'r', 'e', 'v', 'i', 'e', 'w', 'e', 'd'],
        FileStatus::Annotated => seq!['a', 'n', 'n', 'o', 't', 'a', 't', 'e', 'd'],
        FileStatus::Clean => seq!['c', 'l', 'e', 'a', 'n'],
    }
}

/// The review status a wire name denotes.
pub open spec fn status_of_chars(v: Seq<char>) -> Option<FileStatus> {
    if v == status_chars(FileStatus::Unreviewed) {
        Some(FileStatus::Unreviewed)
    } else if v == status_chars(FileStatus::Annotated) {
        Some(FileStatus::Annotated)
    } else if v == status_chars(FileStatus::Clean) {
        Some(FileStatus::Clean)
    } else {
        None
    }
}

/// The one-line textual form of a file-status record.
pub open spec fn status_line(st: FileReviewStateView) -> Seq<char> {
    tok_status_path() + escape_string(st.file_path) + tok_status() + status_chars(st.status)
        + tok_close()
}

/// What parsing one file-status record yields.
pub open spec fn spec_parse_status(line: Seq<char>) -> Option<FileReviewStateView> {
    let s0 = spec_skip_ws(line);
    match expect(s0, tok_status_path()) {
        None => None,
        Some(s1) => match spec_parse_string_body(s1) {
            None => None,
            Some((fp, s2)) => match expect(s2, tok_status().drop_first()) {
                None => None,
                Some(s3) => match spec_parse_string_body(s3) {
                    None => None,
                    Some((sv, s4)) => match status_of_chars(sv) {
                        None => None,
                        Some(st) => match expect(s4, tok_close().drop_first()) {
                            None => None,
                            Some(s5) => if spec_skip_ws(s5).len() == 0 {
                                Some(FileReviewStateView { file_path: fp, status: st })
                            } else {
                                None
                            },
                        },
                    },
                },
            },
        },
    }
}

/// Append the one-line form of `st` to `out`.
pub fn push_status_line(out: &mut Vec<char>, st: &FileReviewState)
    ensures
        final(out)@ == old(out)@ + status_line(st@),
{
    let u1: Vec<char> = vec!['{', '"', 'f', 'i', 'l', 'e', '_', 'p', 'a', 't', 'h', '"', ':', '"'];
    let u2: Vec<char> = vec!['"', ',', '"', 's', 't', 'a', 't', 'u', 's', '"', ':', '"'];
    let u3: Vec<char> = vec!['"', '}'];
    let name: Vec<char> = match st.status {
        FileStatus::Unreviewed => vec!['u', 'n', 'r', 'e', 'v', 'i', 'e', 'w', 'e', 'd'],
        FileStatus::Annotated => vec!['a', 'n', 'n', 'o', 't', 'a', 't', 'e', 'd'],
        FileStatus::Clean => vec!['c', 'l', 'e', 'a', 'n'],
    };
    proof {
        assert(u1@ =~= tok_status_path());
        assert(u2@ =~= tok_status());
        assert(u3@ =~= tok_close());
        assert(name@ =~= status_chars(st.status));
    }
    let fp = str_chars(st.file_path.as_str());
    push_all(out, &u1);
    push_escaped(out, &fp);
    push_all(out, &u2);
    push_all(out, &name);
    push_all(out, &u3);
    proof {
        assert(final(out)@ =~= old(out)@ + status_line(st@));
    }
}

/// Whether two character vectors hold the same characters.
pub fn chars_eq(a: &Vec<char>, b: &Vec<char>) -> (r: bool)
    ensures
        r == (a@ == b@),
{
    if a.len() != b.len() {
        return false;
    }
    let mut i: usize = 0;
    while i < a.len()
        invariant
            a@.len() == b@.len(),
            i <= a@.len(),
            forall|k: int| 0 <= k < i ==> a@[k] == b@[k],
        decreases a@.len() - i,
    {
        if a[i] != b[i] {
            return false;
        }
        i = i + 1;
    }
    proof {
        assert(a@ =~= b@);
    }
    true
}

/// Parse one file-status record; `None` when the line is not in the record
/// form.
pub fn parse_status_chars(v: &Vec<char>) -> (r: Option<FileReviewState>)
    ensures
        match r {
            Some(st) => spec_parse_status(v@) == Some(st@),
            None => spec_parse_status(v@) is None,
        },
{
    let u1: Vec<char> = vec!['{', '"', 'f', 'i', 'l', 'e', '_', 'p', 'a', 't', 'h', '"', ':', '"'];
    let u2: Vec<char> = vec![',', '"', 's', 't', 'a', 't', 'u', 's', '"', ':', '"'];
    let u3: Vec<char> = vec!['}'];
    let unreviewed: Vec<char> = vec!['u', 'n', 'r', 'e', 'v', 'i', 'e', 'w', 'e', 'd'];
    let annotated: Vec<char> = vec!['a', 'n', 'n', 'o', 't', 'a', 't', 'e', 'd'];
    let clean: Vec<char> = vec!['c', 'l', 'e', 'a', 'n'];
    proof {
        assert(u1@ =~= tok_status_path());
        assert(u2@ =~= tok_status().drop_first());
        assert(u3@ =~= tok_close().drop_first());
        assert(unreviewed@ =~= status_chars(FileStatus::Unreviewed));
        assert(annotated@ =~= status_chars(FileStatus::Annotated));
        assert(clean@ =~= status_chars(FileStatus::Clean));
    }
    let i0 = skip_ws(v, 0);
    proof {
        assert(v@.skip(0) =~= v@);
    }
    let i1 = match expect_at(v, i0, &u1) {
        Some(j) => j,
        None => {
            return None;
        },
    };
    let (fp, i2) = match parse_string_body(v, i1) {
        Some(p) => p,
        None => {
            return None;
        },
    };
    let i3 = match expect_at(v, i2, &u2) {
        Some(j) => j,
        None => {
            return None;
        },
    };
    let (sv, i4) = match parse_string_body(v, i3) {
        Some(p) => p,
        None => {
            return None;
        },
    };
    let status = if chars_eq(&sv, &unreviewed) {
        FileStatus::Unreviewed
    } else if chars_eq(&sv, &annotated) {
        FileStatus::Annotated
    } else if chars_eq(&sv, &clean) {
        FileStatus::Clean
    } else {
        return None;
    };
    let i5 = match expect_at(v, i4, &u3) {
        Some(j) => j,
        None => {
            return None;
        },
    };
    let i6 = skip_ws(v, i5);
    if i6 < v.len() {
        proof {
            assert(spec_skip_ws(v@.skip(i5 as int)).len() == v@.len() - i6);
        }
        return None;
    }
    proof {
        assert(spec_skip_ws(v@.skip(i5 as int)).len() == 0);
    }
    Some(FileReviewState { file_path: chars_to_string(&fp), status })
}

proof fn lemma_status_chars_plain(st: FileStatus)
    ensures
        escape_string(status_chars(st)) == status_chars(st),
{
    let s = status_chars(st);
    assert forall|i: int| 0 <= i < s.len() implies #[trigger] escape_char(s[i]) == seq![s[i]] by {
        let c = s[i];
        assert(c != '"' && c != '\\' && c != '\n' && c != '\r' && c != '\t' && (c as u32) >= 0x20);
    }
    lemma_escape_plain(s);
}

/// Reading back the rendered line of a file-status record gives the record.
pub proof fn lemma_status_roundtrip(st: FileReviewStateView)
    ensures
        spec_parse_status(status_line(st)) == Some(st),
{
    let q = seq!['"'];
    let e_fp = escape_string(st.file_path);
    let name = status_chars(st.status);
    let m4 = tok_close().drop_first();
    let m3 = name + q + m4;
    let m2 = tok_status().drop_first() + m3;
    let m1 = e_fp + q + m2;
    let line = status_line(st);
    assert(line =~= tok_status_path() + m1);
    assert(line[0] == '{');
    lemma_skip_ws_nop(line);
    lemma_expect_prefix(tok_status_path(), m1);
    assert(m1 =~= e_fp + seq!['"'] + m2);
    lemma_parse_escaped(st.file_path, m2);
    lemma_expect_prefix(tok_status().drop_first(), m3);
    lemma_status_chars_plain(st.status);
    assert(m3 =~= escape_string(name) + seq!['"'] + m4);
    lemma_parse_escaped(name, m4);
    assert(status_of_chars(name) == Some(st.status));
    assert(m4 =~= tok_close().drop_first() + Seq::<char>::empty());
    lemma_expect_prefix(tok_close().drop_first(), Seq::<char>::empty());
    lemma_skip_ws_nop(Seq::<char>::empty());
    assert(spec_parse_status(line) == Some(
        FileReviewStateView { file_path: st.file_path, status: st.status },
    ));
}

} // verus!
