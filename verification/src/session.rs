//! The review session: transient cursor state and the snapshot anchor — the
//! opaque snapshot id against which the persisted annotations are currently
//! positionally valid — with its textual form and the reconciliation rule.

use vstd::prelude::*;

use crate::codec::{chars_to_string, dec_digits, escape_char, escape_string, lemma_parse_dec_roundtrip,
    lemma_parse_escaped, lemma_skip_ws_nop, parse_string_body, parse_u32_at, push_escaped,
    push_u32, skip_ws, spec_parse_string_body, spec_parse_u32, spec_skip_ws, str_chars};
use crate::records::{expect, expect_at, lemma_expect_prefix, push_all};

verus! {

/// The session state of one working copy. Only `last_adjust_commit` matters
/// to the engine: the snapshot the stored annotations are valid against.
#[derive(Debug, Clone)]
pub struct Session {
    pub current_file: Option<String>,
    pub current_line: u32,
    pub current_col: u32,
    pub scroll_offset: u32,
    pub last_adjust_commit: Option<String>,
}

/// Mathematical model of a [`Session`].
pub ghost struct SessionView {
    pub current_file: Option<Seq<char>>,
    pub current_line: u32,
    pub current_col: u32,
    pub scroll_offset: u32,
    pub last_adjust_commit: Option<Seq<char>>,
}

impl View for Session {
    type V = SessionView;

    open spec fn view(&self) -> SessionView {
        SessionView {
            current_file: match self.current_file {
                Some(ref s) => Some(s@),
                None => None,
            },
            current_line: self.current_line,
            current_col: self.current_col,
            scroll_offset: self.scroll_offset,
            last_adjust_commit: match self.last_adjust_commit {
                Some(ref s) => Some(s@),
                None => None,
            },
        }
    }
}

impl Default for Session {
    /// A fresh session: no file, origin cursor, no anchor.
    fn default() -> (r: Self)
        ensures
            r@.current_file is None,
            r@.current_line == 0,
            r@.current_col == 0,
            r@.scroll_offset == 0,
            r@.last_adjust_commit is None,
    {
        Session {
            current_file: None,
            current_line: 0,
            current_col: 0,
            scroll_offset: 0,
            last_adjust_commit: None,
        }
    }
}

// -------------------------------------------------------------------- codec
/// `{\n  "current_file": `
pub open spec fn tok_session_open() -> Seq<char> {
    seq!['{', '\n', ' ', ' ', '"', 'c', 'u', 'r', 'r', 'e', 'n', 't', '_', 'f', 'i', 'l', 'e', '"',
        ':', ' ']
}

/// `,\n  "current_line": `
pub open spec fn tok_session_line() -> Seq<char> {
    seq![',', '\n', ' ', ' ', '"', 'c', 'u', 'r', 'r', 'e', 'n', 't', '_', 'l', 'i', 'n', 'e', '"',
        ':', ' ']
}

/// `,\n  "current_col": `
pub open spec fn tok_session_col() -> Seq<char> {
    seq![',', '\n', ' ', ' ', '"', 'c', 'u', 'r', 'r', 'e', 'n', 't', '_', 'c', 'o', 'l', '"', ':',
        ' ']
}

/// `,\n  "scroll_offset": `
pub open spec fn tok_session_scroll() -> Seq<char> {
    seq![',', '\n', ' ', ' ', '"', 's', 'c', 'r', 'o', 'l', 'l', '_', 'o', 'f', 'f', 's', 'e', 't',
        '"', ':', ' ']
}

/// `,\n  "last_adjust_commit": `
pub open spec fn tok_session_anchor() -> Seq<char> {
    seq![',', '\n', ' ', ' ', '"', 'l', 'a', 's', 't', '_', 'a', 'd', 'j', 'u', 's', 't', '_', 'c',
        'o', 'm', 'm', 'i', 't', '"', ':', ' ']
}

/// `\n}`
pub open spec fn tok_session_close() -> Seq<char> {
    seq!['\n', '}']
}

/// `null`
pub open spec fn null_chars() -> Seq<char> {
    seq!['n', 'u', 'l', 'l']
}

/// An optional string on the wire: `null`, or quoted and escaped.
pub open spec fn opt_string_chars(v: Option<Seq<char>>) -> Seq<char> {
    match v {
        None => null_chars(),
        Some(s) => seq!['"'] + escape_string(s) + seq!['"'],
    }
}

/// Parse an optional string: `null` or a quoted string.
pub open spec fn spec_parse_opt_string(s: Seq<char>) -> Option<(Option<Seq<char>>, Seq<char>)> {
    if s.len() > 0 && s[0] == 'n' {
        match expect(s, null_chars()) {
            Some(rem) => Some((None, rem)),
            None => None,
        }
    } else if s.len() > 0 && s[0] == '"' {
        match spec_parse_string_body(s.drop_first()) {
            Some(p) => Some((Some(p.0), p.1)),
            None => None,
        }
    } else {
        None
    }
}

/// The pretty-printed textual form of a session.
pub open spec fn session_text(s: SessionView) -> Seq<char> {
    tok_session_open() + opt_string_chars(s.current_file) + tok_session_line() + dec_digits(
        s.current_line as nat,
    ) + tok_session_col() + dec_digits(s.current_col as nat) + tok_session_scroll() + dec_digits(
        s.scroll_offset as nat,
    ) + tok_session_anchor() + opt_string_chars(s.last_adjust_commit) + tok_session_close()
}

/// What parsing a session object yields.
pub open spec fn spec_parse_session(text: Seq<char>) -> Option<SessionView> {
    let s0 = spec_skip_ws(text);
    match expect(s0, tok_session_open()) {
        None => None,
        Some(s1) => match spec_parse_opt_string(s1) {
            None => None,
            Some((cf, s2)) => match expect(s2, tok_session_line()) {
                None => None,
                Some(s3) => match spec_parse_u32(s3) {
                    None => None,
                    Some((line, s4)) => match expect(s4, tok_session_col()) {
                        None => None,
                        Some(s5) => match spec_parse_u32(s5) {
                            None => None,
                            Some((col, s6)) => match expect(s6, tok_session_scroll()) {
                                None => None,
                                Some(s7) => match spec_parse_u32(s7) {
                                    None => None,
                                    Some((scroll, s8)) => match expect(s8, tok_session_anchor()) {
                                        None => None,
                                        Some(s9) => match spec_parse_opt_string(s9) {
                                            None => None,
                                            Some((lac, s10)) => match expect(
                                                s10,
                                                tok_session_close(),
                                            ) {
                                                None => None,
                                                Some(s11) => if spec_skip_ws(s11).len() == 0 {
                                                    Some(
                                                        SessionView {
                                                            current_file: cf,
                                                            current_line: line as u32,
                                                            current_col: col as u32,
                                                            scroll_offset: scroll as u32,
                                                            last_adjust_commit: lac,
                                                        },
                                                    )
                                                } else {
                                                    None
                                                },
                                            },
                                        },
                                    },
                                },
                            },
                        },
                    },
                },
            },
        },
    }
}

fn push_opt_string(out: &mut Vec<char>, v: &Option<String>)
    ensures
        final(out)@ == old(out)@ + opt_string_chars(match v {
            Some(s) => Some(s@),
            None => None,
        }),
{
    match v {
        None => {
            out.push('n');
            out.push('u');
            out.push('l');
            out.push('l');
            proof {
                assert(final(out)@ =~= old(out)@ + null_chars());
            }
        },
        Some(s) => {
            let cs = str_chars(s.as_str());
            out.push('"');
            push_escaped(out, &cs);
            out.push('"');
            proof {
                assert(final(out)@ =~= old(out)@ + (seq!['"'] + escape_string(s@) + seq!['"']));
            }
        },
    }
}

fn parse_opt_string(v: &Vec<char>, i: usize) -> (r: Option<(Option<Vec<char>>, usize)>)
    requires
        i <= v@.len(),
    ensures
        match r {
            Some(p) => p.1 <= v@.len() && spec_parse_opt_string(v@.skip(i as int)) == Some(
                (
                    match p.0 {
                        Some(ref cs) => Some(cs@),
                        None => None,
                    },
                    v@.skip(p.1 as int),
                ),
            ),
            None => spec_parse_opt_string(v@.skip(i as int)) is None,
        },
{
    let nul: Vec<char> = vec!['n', 'u', 'l', 'l'];
    proof {
        assert(nul@ =~= null_chars());
    }
    if i >= v.len() {
        proof {
            assert(v@.skip(i as int) =~= Seq::<char>::empty());
        }
        return None;
    }
    proof {
        assert(v@.skip(i as int)[0] == v@[i as int]);
    }
    let c = v[i];
    if c == 'n' {
        match expect_at(v, i, &nul) {
            Some(j) => Some((None, j)),
            None => None,
        }
    } else if c == '"' {
        proof {
            assert(v@.skip(i as int).drop_first() =~= v@.skip(i as int + 1));
        }
        match parse_string_body(v, i + 1) {
            Some((cs, j)) => Some((Some(cs), j)),
            None => None,
        }
    } else {
        None
    }
}

impl Session {
    /// The pretty-printed text this session persists as.
    pub fn render(&self) -> (r: String)
        ensures
            r@ == session_text(self@),
    {
        let s1: Vec<char> = vec!['{', '\n', ' ', ' ', '"', 'c', 'u', 'r', 'r', 'e', 'n', 't', '_',
            'f', 'i', 'l', 'e', '"', ':', ' '];
        let s2: Vec<char> = vec![',', '\n', ' ', ' ', '"', 'c', 'u', 'r', 'r', 'e', 'n', 't', '_',
            'l', 'i', 'n', 'e', '"', ':', ' '];
        let s3: Vec<char> = vec![',', '\n', ' ', ' ', '"', 'c', 'u', 'r', 'r', 'e', 'n', 't', '_',
            'c', 'o', 'l', '"', ':', ' '];
        let s4: Vec<char> = vec![',', '\n', ' ', ' ', '"', 's', 'c', 'r', 'o', 'l', 'l', '_', 'o',
            'f', 'f', 's', 'e', 't', '"', ':', ' '];
        let s5: Vec<char> = vec![',', '\n', ' ', ' ', '"', 'l', 'a', 's', 't', '_', 'a', 'd', 'j',
            'u', 's', 't', '_', 'c', 'o', 'm', 'm', 'i', 't', '"', ':', ' '];
        let s6: Vec<char> = vec!['\n', '}'];
        proof {
            assert(s1@ =~= tok_session_open());
            assert(s2@ =~= tok_session_line());
            assert(s3@ =~= tok_session_col());
            assert(s4@ =~= tok_session_scroll());
            assert(s5@ =~= tok_session_anchor());
            assert(s6@ =~= tok_session_close());
        }
        let mut out: Vec<char> = Vec::new();
        push_all(&mut out, &s1);
        push_opt_string(&mut out, &self.current_file);
        push_all(&mut out, &s2);
        push_u32(&mut out, self.current_line);
        push_all(&mut out, &s3);
        push_u32(&mut out, self.current_col);
        push_all(&mut out, &s4);
        push_u32(&mut out, self.scroll_offset);
        push_all(&mut out, &s5);
        push_opt_string(&mut out, &self.last_adjust_commit);
        push_all(&mut out, &s6);
        proof {
            assert(out@ =~= session_text(self@));
        }
        chars_to_string(&out)
    }

    /// Parse a session object from its persisted text; `None` when the text
    /// is not in the canonical form.
    #[verifier::rlimit(100)]
    pub fn parse(text: &str) -> (r: Option<Session>)
        ensures
            match r {
                Some(s) => spec_parse_session(text@) == Some(s@),
                None => spec_parse_session(text@) is None,
            },
    {
        let v = str_chars(text);
        let s1: Vec<char> = vec!['{', '\n', ' ', ' ', '"', 'c', 'u', 'r', 'r', 'e', 'n', 't', '_',
            'f', 'i', 'l', 'e', '"', ':', ' '];
        let s2: Vec<char> = vec![',', '\n', ' ', ' ', '"', 'c', 'u', 'r', 'r', 'e', 'n', 't', '_',
            'l', 'i', 'n', 'e', '"', ':', ' '];
        let s3: Vec<char> = vec![',', '\n', ' ', ' ', '"', 'c', 'u', 'r', 'r', 'e', 'n', 't', '_',
            'c', 'o', 'l', '"', ':', ' '];
        let s4: Vec<char> = vec![',', '\n', ' ', ' ', '"', 's', 'c', 'r', 'o', 'l', 'l', '_', 'o',
            'f', 'f', 's', 'e', 't', '"', ':', ' '];
        let s5: Vec<char> = vec![',', '\n', ' ', ' ', '"', 'l', 'a', 's', 't', '_', 'a', 'd', 'j',
            'u', 's', 't', '_', 'c', 'o', 'm', 'm', 'i', 't', '"', ':', ' '];
        let s6: Vec<char> = vec!['\n', '}'];
        proof {
            assert(s1@ =~= tok_session_open());
            assert(s2@ =~= tok_session_line());
            assert(s3@ =~= tok_session_col());
            assert(s4@ =~= tok_session_scroll());
            assert(s5@ =~= tok_session_anchor());
            assert(s6@ =~= tok_session_close());
        }
        let i0 = skip_ws(&v, 0);
        proof {
            assert(v@.skip(0) =~= v@);
        }
        let i1 = match expect_at(&v, i0, &s1) {
            Some(j) => j,
            None => {
                return None;
            },
        };
        let (cf, i2) = match parse_opt_string(&v, i1) {
            Some(p) => p,
            None => {
                return None;
            },
        };
        let i3 = match expect_at(&v, i2, &s2) {
            Some(j) => j,
            None => {
                return None;
            },
        };
        let (line, i4) = match parse_u32_at(&v, i3) {
            Some(p) => p,
            None => {
                return None;
            },
        };
        let i5 = match expect_at(&v, i4, &s3) {
            Some(j) => j,
            None => {
                return None;
            },
        };
        let (col, i6) = match parse_u32_at(&v, i5) {
            Some(p) => p,
            None => {
                return None;
            },
        };
        let i7 = match expect_at(&v, i6, &s4) {
            Some(j) => j,
            None => {
                return None;
            },
        };
        let (scroll, i8) = match parse_u32_at(&v, i7) {
            Some(p) => p,
            None => {
                return None;
            },
        };
        let i9 = match expect_at(&v, i8, &s5) {
            Some(j) => j,
            None => {
                return None;
            },
        };
        let (lac, i10) = match parse_opt_string(&v, i9) {
            Some(p) => p,
            None => {
                return None;
            },
        };
        let i11 = match expect_at(&v, i10, &s6) {
            Some(j) => j,
            None => {
                return None;
            },
        };
        let i12 = skip_ws(&v, i11);
        if i12 < v.len() {
            proof {
                assert(spec_skip_ws(v@.skip(i11 as int)).len() == v@.len() - i12);
            }
            return None;
        }
        proof {
            assert(spec_skip_ws(v@.skip(i11 as int)).len() == 0);
        }
        Some(
            Session {
                current_file: match cf {
                    Some(cs) => Some(chars_to_string(&cs)),
                    None => None,
                },
                current_line: line,
                current_col: col,
                scroll_offset: scroll,
                last_adjust_commit: match lac {
                    Some(cs) => Some(chars_to_string(&cs)),
                    None => None,
                },
            },
        )
    }
}

// ------------------------------------------------------------------- anchor
/// The reconciliation rule: adjustment runs exactly when an anchor is
/// recorded and the repository's head moved past it.
pub open spec fn spec_needs_adjustment(s: SessionView, head: Seq<char>) -> Option<Seq<char>> {
    match s.last_adjust_commit {
        Some(anchor) => if anchor != head {
            Some(anchor)
        } else {
            None
        },
        None => None,
    }
}

impl Session {
    /// The snapshot to adjust from, if the recorded anchor differs from the
    /// current head; `None` when no anchor is recorded or nothing moved.
    pub fn needs_adjustment(&self, head: &String) -> (r: Option<String>)
        ensures
            match r {
                Some(from) => spec_needs_adjustment(self@, head@) == Some(from@),
                None => spec_needs_adjustment(self@, head@) is None,
            },
    {
        match &self.last_adjust_commit {
            Some(anchor) => {
                if *anchor != *head {
                    Some(anchor.clone())
                } else {
                    None
                }
            },
            None => None,
        }
    }

    /// Record that the stored annotations are now valid against `to`.
    pub fn advance_anchor(&mut self, to: &str)
        ensures
            final(self)@.last_adjust_commit == Some(to@),
            final(self)@.current_file == old(self)@.current_file,
            final(self)@.current_line == old(self)@.current_line,
            final(self)@.current_col == old(self)@.current_col,
            final(self)@.scroll_offset == old(self)@.scroll_offset,
    {
        self.last_adjust_commit = Some(to.to_owned());
    }

    /// Whether an anchor is recorded at all; a fresh session takes the
    /// current head as its anchor without adjusting.
    pub fn has_anchor(&self) -> (r: bool)
        ensures
            r == (self@.last_adjust_commit is Some),
    {
        self.last_adjust_commit.is_some()
    }
}

/// Anchor monotonicity: once the anchor is advanced to `to`, a session at
/// snapshot `to` asks for no adjustment.
pub proof fn lemma_anchor_monotonic(s: SessionView, to: Seq<char>)
    ensures
        spec_needs_adjustment(
            SessionView { last_adjust_commit: Some(to), ..s },
            to,
        ) is None,
{
}

proof fn lemma_parse_opt_string_roundtrip(v: Option<Seq<char>>, rest: Seq<char>)
    ensures
        spec_parse_opt_string(opt_string_chars(v) + rest) == Some((v, rest)),
{
    match v {
        None => {
            let whole = null_chars() + rest;
            assert(whole[0] == 'n');
            lemma_expect_prefix(null_chars(), rest);
        },
        Some(s) => {
            let whole = opt_string_chars(v) + rest;
            assert(whole =~= seq!['"'] + (escape_string(s) + seq!['"'] + rest));
            assert(whole[0] == '"');
            assert(whole[0] != 'n');
            assert(whole.drop_first() =~= escape_string(s) + seq!['"'] + rest);
            lemma_parse_escaped(s, rest);
        },
    }
}

/// Reading back the rendered text of a session gives the session.
#[verifier::rlimit(100)]
pub proof fn lemma_session_roundtrip(s: SessionView)
    ensures
        spec_parse_session(session_text(s)) == Some(s),
{
    let m10 = tok_session_close();
    let m9 = opt_string_chars(s.last_adjust_commit) + m10;
    let m8 = tok_session_anchor() + m9;
    let m7 = dec_digits(s.scroll_offset as nat) + m8;
    let m6 = tok_session_scroll() + m7;
    let m5 = dec_digits(s.current_col as nat) + m6;
    let m4 = tok_session_col() + m5;
    let m3 = dec_digits(s.current_line as nat) + m4;
    let m2 = tok_session_line() + m3;
    let m1 = opt_string_chars(s.current_file) + m2;
    let text = session_text(s);
    assert(text =~= tok_session_open() + m1);
    assert(text[0] == '{');
    lemma_skip_ws_nop(text);
    lemma_expect_prefix(tok_session_open(), m1);
    assert(m2[0] == ',');
    assert(m1 =~= opt_string_chars(s.current_file) + m2);
    lemma_parse_opt_string_roundtrip(s.current_file, m2);
    lemma_expect_prefix(tok_session_line(), m3);
    assert(m4[0] == ',');
    lemma_parse_dec_roundtrip(s.current_line as nat, m4);
    lemma_expect_prefix(tok_session_col(), m5);
    assert(m6[0] == ',');
    lemma_parse_dec_roundtrip(s.current_col as nat, m6);
    lemma_expect_prefix(tok_session_scroll(), m7);
    assert(m8[0] == ',');
    lemma_parse_dec_roundtrip(s.scroll_offset as nat, m8);
    lemma_expect_prefix(tok_session_anchor(), m9);
    assert(m9 =~= opt_string_chars(s.last_adjust_commit) + m10);
    lemma_parse_opt_string_roundtrip(s.last_adjust_commit, m10);
    assert(m10 =~= tok_session_close() + Seq::<char>::empty());
    lemma_expect_prefix(tok_session_close(), Seq::<char>::empty());
    lemma_skip_ws_nop(Seq::<char>::empty());
    assert(spec_parse_session(text) == Some(
        SessionView {
            current_file: s.current_file,
            current_line: (s.current_line as int) as u32,
            current_col: (s.current_col as int) as u32,
            scroll_offset: (s.scroll_offset as int) as u32,
            last_adjust_commit: s.last_adjust_commit,
        },
    ));
}

} // verus!
