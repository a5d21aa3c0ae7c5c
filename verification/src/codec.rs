//! Character-level building blocks of the record codec: whitespace, string
//! escaping in the JSON style, and decimal numbers, each with a renderer, a
//! parser, and a proof that the parser undoes the renderer.

use vstd::prelude::*;

verus! {

// ---------------------------------------------------------------- characters
/// Whitespace the parser skips between tokens.
pub open spec fn is_ws_char(c: char) -> bool {
    c == ' ' || c == '\t' || c == '\r' || c == '\n'
}

/// A decimal digit.
pub open spec fn is_digit_char(c: char) -> bool {
    '0' <= c && c <= '9'
}

/// A hexadecimal digit, lower or upper case.
pub open spec fn is_hex_char(c: char) -> bool {
    is_digit_char(c) || ('a' <= c && c <= 'f') || ('A' <= c && c <= 'F')
}

/// Numeric value of a hexadecimal digit.
pub open spec fn hex_val(c: char) -> int {
    if is_digit_char(c) {
        c as u32 - '0' as u32
    } else if 'a' <= c && c <= 'f' {
        c as u32 - 'a' as u32 + 10
    } else {
        c as u32 - 'A' as u32 + 10
    }
}

/// The lower-case hexadecimal digit for a value below 16.
pub open spec fn hex_char(n: int) -> char {
    if n == 0 {
        '0'
    } else if n == 1 {
        '1'
    } else if n == 2 {
        '2'
    } else if n == 3 {
        '3'
    } else if n == 4 {
        '4'
    } else if n == 5 {
        '5'
    } else if n == 6 {
        '6'
    } else if n == 7 {
        '7'
    } else if n == 8 {
        '8'
    } else if n == 9 {
        '9'
    } else if n == 10 {
        'a'
    } else if n == 11 {
        'b'
    } else if n == 12 {
        'c'
    } else if n == 13 {
        'd'
    } else if n == 14 {
        'e'
    } else {
        'f'
    }
}

/// Rendering a digit and reading it back gives the value again.
pub proof fn lemma_hex_char_val(n: int)
    requires
        0 <= n < 16,
    ensures
        is_hex_char(hex_char(n)),
        hex_val(hex_char(n)) == n,
        hex_char(n) != '-',
        !is_ws_char(hex_char(n)),
        n < 10 ==> is_digit_char(hex_char(n)),
{
}

/// The digit for a value below 16.
pub fn hex_char_of(n: u32) -> (r: char)
    requires
        n < 16,
    ensures
        r == hex_char(n as int),
{
    match n {
        0 => '0',
        1 => '1',
        2 => '2',
        3 => '3',
        4 => '4',
        5 => '5',
        6 => '6',
        7 => '7',
        8 => '8',
        9 => '9',
        10 => 'a',
        11 => 'b',
        12 => 'c',
        13 => 'd',
        14 => 'e',
        _ => 'f',
    }
}

/// Whitespace test, as the parser's specification sees it.
pub fn is_ws(c: char) -> (r: bool)
    ensures
        r == is_ws_char(c),
{
    c == ' ' || c == '\t' || c == '\r' || c == '\n'
}

/// Decimal-digit test, as the parser's specification sees it.
pub fn is_digit(c: char) -> (r: bool)
    ensures
        r == is_digit_char(c),
{
    c >= '0' && c <= '9'
}

/// Relies on `str::chars` collected into a `Vec` (std): the characters of
/// the string, in order.
#[verifier::external_body]
pub fn str_chars(s: &str) -> (r: Vec<char>)
    ensures
        r@ == s@,
{
    s.chars().collect()
}

/// Relies on `String: FromIterator<char>` (std): the string holding exactly
/// these characters, in order.
#[verifier::external_body]
pub fn chars_to_string(v: &Vec<char>) -> (r: String)
    ensures
        r@ == v@,
{
    v.iter().collect()
}

/// Relies on `char::from_u32` (std): `Some` exactly for Unicode scalar
/// values, that is everything below `0x110000` except the surrogate range.
#[verifier::external_body]
pub fn char_from_u32(v: u32) -> (r: Option<char>)
    ensures
        r == (if v < 0xD800 || (0xE000 <= v && v < 0x110000) {
            Some(v as char)
        } else {
            None::<char>
        }),
{
    char::from_u32(v)
}

// ---------------------------------------------------------------- whitespace
/// The sequence with its leading whitespace removed.
pub open spec fn spec_skip_ws(s: Seq<char>) -> Seq<char>
    decreases s.len(),
{
    if s.len() > 0 && is_ws_char(s[0]) {
        spec_skip_ws(s.drop_first())
    } else {
        s
    }
}

/// Skipping whitespace where none stands changes nothing.
pub proof fn lemma_skip_ws_nop(s: Seq<char>)
    requires
        s.len() == 0 || !is_ws_char(s[0]),
    ensures
        spec_skip_ws(s) == s,
{
}

/// First position at or after `i` holding a non-whitespace character.
pub fn skip_ws(s: &Vec<char>, i: usize) -> (j: usize)
    requires
        i <= s@.len(),
    ensures
        i <= j <= s@.len(),
        s@.skip(j as int) == spec_skip_ws(s@.skip(i as int)),
{
    let mut j = i;
    while j < s.len() && is_ws(s[j])
        invariant
            i <= j <= s@.len(),
            spec_skip_ws(s@.skip(i as int)) == spec_skip_ws(s@.skip(j as int)),
        decreases s@.len() - j,
    {
        proof {
            assert(s@.skip(j as int)[0] == s@[j as int]);
            assert(s@.skip(j as int).drop_first() =~= s@.skip(j as int + 1));
        }
        j = j + 1;
    }
    proof {
        if j < s@.len() {
            assert(s@.skip(j as int)[0] == s@[j as int]);
            lemma_skip_ws_nop(s@.skip(j as int));
        } else {
            assert(s@.skip(j as int) =~= Seq::<char>::empty());
            lemma_skip_ws_nop(s@.skip(j as int));
        }
    }
    j
}

// ------------------------------------------------------------------ escaping
/// How one character stands inside a quoted string: quote and backslash get
/// a backslash; newline, carriage return and tab their short names; other
/// control characters a four-digit hexadecimal escape; the rest themselves.
pub open spec fn escape_char(c: char) -> Seq<char> {
    if c == '"' {
        seq!['\\', '"']
    } else if c == '\\' {
        seq!['\\', '\\']
    } else if c == '\n' {
        seq!['\\', 'n']
    } else if c == '\r' {
        seq!['\\', 'r']
    } else if c == '\t' {
        seq!['\\', 't']
    } else if (c as u32) < 0x20 {
        seq!['\\', 'u', '0', '0', hex_char((c as u32) as int / 16), hex_char((c as u32) as int % 16)]
    } else {
        seq![c]
    }
}

/// A string escaped character by character.
pub open spec fn escape_string(s: Seq<char>) -> Seq<char>
    decreases s.len(),
{
    if s.len() == 0 {
        Seq::empty()
    } else {
        escape_string(s.drop_last()) + escape_char(s.last())
    }
}

/// Escaping also proceeds from the front.
pub proof fn lemma_escape_front(s: Seq<char>)
    requires
        s.len() > 0,
    ensures
        escape_string(s) == escape_char(s[0]) + escape_string(s.drop_first()),
    decreases s.len(),
{
    if s.len() == 1 {
        assert(s.drop_last() =~= Seq::<char>::empty());
        assert(s.drop_first() =~= Seq::<char>::empty());
        assert(escape_string(s) =~= escape_char(s[0]) + escape_string(s.drop_first()));
    } else {
        lemma_escape_front(s.drop_last());
        assert(s.drop_last().drop_first() =~= s.drop_first().drop_last());
        assert(s.drop_first().last() == s.last());
        assert(escape_char(s[0]) + escape_string(s.drop_first()) =~= escape_string(s.drop_last())
            + escape_char(s.last())) by {
            assert(escape_string(s.drop_first()) == escape_string(s.drop_first().drop_last())
                + escape_char(s.last()));
            assert(escape_string(s.drop_last()) == escape_char(s[0]) + escape_string(
                s.drop_last().drop_first(),
            ));
        }
    }
}

/// Append the escaped form of `s` to `out`.
pub fn push_escaped(out: &mut Vec<char>, s: &Vec<char>)
    ensures
        final(out)@ == old(out)@ + escape_string(s@),
{
    let mut i: usize = 0;
    proof {
        assert(out@ =~= old(out)@ + escape_string(s@.take(0)));
    }
    while i < s.len()
        invariant
            i <= s@.len(),
            out@ == old(out)@ + escape_string(s@.take(i as int)),
        decreases s@.len() - i,
    {
        let c = s[i];
        proof {
            assert(s@.take(i as int + 1).drop_last() =~= s@.take(i as int));
            assert(s@.take(i as int + 1).last() == s@[i as int]);
        }
        let ghost out_pre = out@;
        if c == '"' {
            out.push('\\');
            out.push('"');
        } else if c == '\\' {
            out.push('\\');
            out.push('\\');
        } else if c == '\n' {
            out.push('\\');
            out.push('n');
        } else if c == '\r' {
            out.push('\\');
            out.push('r');
        } else if c == '\t' {
            out.push('\\');
            out.push('t');
        } else if (c as u32) < 0x20 {
            let v = c as u32;
            out.push('\\');
            out.push('u');
            out.push('0');
            out.push('0');
            out.push(hex_char_of(v / 16));
            out.push(hex_char_of(v % 16));
        } else {
            out.push(c);
        }
        proof {
            assert(out@ =~= out_pre + escape_char(c));
            assert(out@ =~= old(out)@ + escape_string(s@.take(i as int + 1)));
        }
        i = i + 1;
    }
    proof {
        assert(s@.take(s@.len() as int) =~= s@);
    }
}

/// Escaping never emits a raw newline: the newline itself is escaped, and
/// every escape is drawn from quote, backslash, letters and digits.
pub proof fn lemma_escape_no_newline(s: Seq<char>)
    ensures
        forall|i: int| 0 <= i < escape_string(s).len() ==> #[trigger] escape_string(s)[i] != '\n',
    decreases s.len(),
{
    if s.len() > 0 {
        lemma_escape_no_newline(s.drop_last());
        let pre = escape_string(s.drop_last());
        let e = escape_char(s.last());
        let c = s.last();
        assert forall|i: int|
            0 <= i < escape_string(s).len() implies #[trigger] escape_string(s)[i] != '\n' by {
            assert(escape_string(s) == pre + e);
            if i < pre.len() {
                assert(escape_string(s)[i] == pre[i]);
            } else {
                assert(escape_string(s)[i] == e[i - pre.len()]);
                if c == '"' || c == '\\' || c == '\n' || c == '\r' || c == '\t' {
                } else if (c as u32) < 0x20 {
                    lemma_hex_char_val((c as u32) as int / 16);
                    lemma_hex_char_val((c as u32) as int % 16);
                } else {
                    assert(e == seq![c]);
                    assert(('\n' as u32) < 0x20);
                }
            }
        }
    }
}

/// Decimal digits are digits: never a newline, never whitespace.
pub proof fn lemma_dec_digits_plain(n: nat)
    ensures
        forall|i: int|
            0 <= i < dec_digits(n).len() ==> is_digit_char(#[trigger] dec_digits(n)[i]),
        forall|i: int| 0 <= i < dec_digits(n).len() ==> #[trigger] dec_digits(n)[i] != '\n',
    decreases n,
{
    if n < 10 {
        lemma_hex_char_val(n as int);
        assert(dec_digits(n) == seq![hex_char(n as int)]);
        assert(dec_digits(n)[0] == hex_char(n as int));
    } else {
        lemma_dec_digits_plain(n / 10);
        lemma_hex_char_val((n % 10) as int);
        let pre = dec_digits(n / 10);
        let d = hex_char((n % 10) as int);
        assert forall|i: int|
            0 <= i < dec_digits(n).len() implies is_digit_char(#[trigger] dec_digits(n)[i])
            && dec_digits(n)[i] != '\n' by {
            assert(dec_digits(n) == pre.push(d));
            if i < pre.len() {
                assert(dec_digits(n)[i] == pre[i]);
            } else {
                assert(dec_digits(n)[i] == d);
            }
        }
    }
}

// -------------------------------------------------------------- string parse
/// Prepend a character to a successful parse.
pub open spec fn cons_parsed(c: char, r: Option<(Seq<char>, Seq<char>)>) -> Option<
    (Seq<char>, Seq<char>),
> {
    match r {
        Some(p) => Some((seq![c] + p.0, p.1)),
        None => None,
    }
}

/// Parse the body of a quoted string, after its opening quote: the decoded
/// characters and what follows the closing quote. Understands the escapes
/// the renderer writes, the other short JSON escapes, and four-digit
/// hexadecimal escapes outside the surrogate range.
pub open spec fn spec_parse_string_body(s: Seq<char>) -> Option<(Seq<char>, Seq<char>)>
    decreases s.len(),
{
    if s.len() == 0 {
        None
    } else if s[0] == '"' {
        Some((Seq::empty(), s.drop_first()))
    } else if s[0] == '\\' {
        if s.len() < 2 {
            None
        } else {
            let e = s[1];
            let rest = s.skip(2);
            if e == '"' {
                cons_parsed('"', spec_parse_string_body(rest))
            } else if e == '\\' {
                cons_parsed('\\', spec_parse_string_body(rest))
            } else if e == '/' {
                cons_parsed('/', spec_parse_string_body(rest))
            } else if e == 'n' {
                cons_parsed('\n', spec_parse_string_body(rest))
            } else if e == 'r' {
                cons_parsed('\r', spec_parse_string_body(rest))
            } else if e == 't' {
                cons_parsed('\t', spec_parse_string_body(rest))
            } else if e == 'b' {
                cons_parsed('\u{0008}', spec_parse_string_body(rest))
            } else if e == 'f' {
                cons_parsed('\u{000C}', spec_parse_string_body(rest))
            } else if e == 'u' {
                if s.len() < 6 {
                    None
                } else if is_hex_char(s[2]) && is_hex_char(s[3]) && is_hex_char(s[4]) && is_hex_char(
                    s[5],
                ) {
                    let v = ((hex_val(s[2]) * 16 + hex_val(s[3])) * 16 + hex_val(s[4])) * 16
                        + hex_val(s[5]);
                    if 0xD800 <= v <= 0xDFFF {
                        None
                    } else {
                        cons_parsed((v as u32) as char, spec_parse_string_body(s.skip(6)))
                    }
                } else {
                    None
                }
            } else {
                None
            }
        }
    } else {
        cons_parsed(s[0], spec_parse_string_body(s.drop_first()))
    }
}

/// The string parser undoes the renderer: an escaped string followed by its
/// closing quote parses back to the string, leaving the rest untouched.
#[verifier::rlimit(50)]
pub proof fn lemma_parse_escaped(s: Seq<char>, rest: Seq<char>)
    ensures
        spec_parse_string_body(escape_string(s) + seq!['"'] + rest) == Some((s, rest)),
    decreases s.len(),
{
    broadcast use vstd::utf8::char_is_scalar;

    if s.len() == 0 {
        assert(escape_string(s) + seq!['"'] + rest =~= seq!['"'] + rest);
        assert((seq!['"'] + rest)[0] == '"');
        assert((seq!['"'] + rest).drop_first() =~= rest);
    } else {
        lemma_escape_front(s);
        let c = s[0];
        let tail = escape_string(s.drop_first()) + seq!['"'] + rest;
        lemma_parse_escaped(s.drop_first(), rest);
        let whole = escape_string(s) + seq!['"'] + rest;
        assert(whole =~= escape_char(c) + tail);
        if c == '"' || c == '\\' || c == '\n' || c == '\r' || c == '\t' {
            assert(whole[0] == '\\');
            assert(whole.skip(2) =~= tail);
            assert(seq![c] + s.drop_first() =~= s);
        } else if (c as u32) < 0x20 {
            assert(whole[0] == '\\');
            assert(whole[1] == 'u');
            assert(whole[2] == '0' && whole[3] == '0');
            assert(whole[4] == hex_char((c as u32) as int / 16));
            assert(whole[5] == hex_char((c as u32) as int % 16));
            lemma_hex_char_val((c as u32) as int / 16);
            lemma_hex_char_val((c as u32) as int % 16);
            assert(hex_val('0') == 0);
            let v = ((hex_val(whole[2]) * 16 + hex_val(whole[3])) * 16 + hex_val(whole[4])) * 16
                + hex_val(whole[5]);
            assert(v == c as u32);
            assert(!(0xD800 <= v <= 0xDFFF));
            assert((v as u32) as char == c) by {
                vstd::utf8::char_u32_cast(c, c as u32);
            }
            assert(whole.skip(6) =~= tail);
            assert(seq![c] + s.drop_first() =~= s);
        } else {
            assert(escape_char(c) =~= seq![c]);
            assert(whole[0] == c);
            assert(c != '"' && c != '\\');
            assert(whole.drop_first() =~= tail);
            assert(seq![c] + s.drop_first() =~= s);
        }
    }
}

/// Parse a quoted string body starting at `i` (just after the opening
/// quote): the decoded characters and the position after the closing quote.
pub fn parse_string_body(s: &Vec<char>, i: usize) -> (r: Option<(Vec<char>, usize)>)
    requires
        i <= s@.len(),
    ensures
        match r {
            Some(p) => p.1 <= s@.len() && spec_parse_string_body(s@.skip(i as int)) == Some(
                (p.0@, s@.skip(p.1 as int)),
            ),
            None => spec_parse_string_body(s@.skip(i as int)) is None,
        },
{
    let mut acc: Vec<char> = Vec::new();
    let mut j = i;
    while j < s.len()
        invariant
            i <= j <= s@.len(),
            spec_parse_string_body(s@.skip(i as int)) == cons_many(
                acc@,
                spec_parse_string_body(s@.skip(j as int)),
            ),
        decreases s@.len() - j,
    {
        let ghost suffix = s@.skip(j as int);
        proof {
            assert(suffix[0] == s@[j as int]);
            assert(suffix.drop_first() =~= s@.skip(j as int + 1));
        }
        let c = s[j];
        if c == '"' {
            proof {
                lemma_cons_many_some(acc@, Seq::empty(), s@.skip(j as int + 1));
                assert(acc@ + Seq::<char>::empty() =~= acc@);
            }
            return Some((acc, j + 1));
        } else if c == '\\' {
            if s.len() - j < 2 {
                proof {
                    assert(suffix.len() < 2);
                    lemma_cons_many_none(acc@);
                }
                return None;
            }
            let e = s[j + 1];
            proof {
                assert(suffix[1] == s@[j as int + 1]);
                assert(suffix.skip(2) =~= s@.skip(j as int + 2));
            }
            let decoded: Option<char> = match e {
                '"' => Some('"'),
                '\\' => Some('\\'),
                '/' => Some('/'),
                'n' => Some('\n'),
                'r' => Some('\r'),
                't' => Some('\t'),
                'b' => Some('\u{0008}'),
                'f' => Some('\u{000C}'),
                _ => None,
            };
            match decoded {
                Some(d) => {
                    proof {
                        lemma_cons_many_step(acc@, d, spec_parse_string_body(s@.skip(j as int + 2)));
                    }
                    acc.push(d);
                    j = j + 2;
                },
                None => {
                    if e != 'u' {
                        proof {
                            lemma_cons_many_none(acc@);
                        }
                        return None;
                    }
                    if s.len() - j < 6 {
                        proof {
                            assert(suffix.len() < 6);
                            lemma_cons_many_none(acc@);
                        }
                        return None;
                    }
                    proof {
                        assert(suffix[2] == s@[j as int + 2]);
                        assert(suffix[3] == s@[j as int + 3]);
                        assert(suffix[4] == s@[j as int + 4]);
                        assert(suffix[5] == s@[j as int + 5]);
                        assert(suffix.skip(6) =~= s@.skip(j as int + 6));
                    }
                    let h0 = hex_digit_value(s[j + 2]);
                    let h1 = hex_digit_value(s[j + 3]);
                    let h2 = hex_digit_value(s[j + 4]);
                    let h3 = hex_digit_value(s[j + 5]);
                    match (h0, h1, h2, h3) {
                        (Some(a), Some(b), Some(cc), Some(d)) => {
                            let v: u32 = ((a * 16 + b) * 16 + cc) * 16 + d;
                            if 0xD800 <= v && v <= 0xDFFF {
                                proof {
                                    lemma_cons_many_none(acc@);
                                }
                                return None;
                            }
                            let ch = match char_from_u32(v) {
                                Some(ch) => ch,
                                None => {
                                    proof {
                                        assert(false);
                                    }
                                    unreached()
                                },
                            };
                            proof {
                                lemma_cons_many_step(
                                    acc@,
                                    ch,
                                    spec_parse_string_body(s@.skip(j as int + 6)),
                                );
                            }
                            acc.push(ch);
                            j = j + 6;
                        },
                        _ => {
                            proof {
                                lemma_cons_many_none(acc@);
                            }
                            return None;
                        },
                    }
                },
            }
        } else {
            proof {
                lemma_cons_many_step(acc@, c, spec_parse_string_body(s@.skip(j as int + 1)));
            }
            acc.push(c);
            j = j + 1;
        }
    }
    proof {
        assert(s@.skip(j as int) =~= Seq::<char>::empty());
        lemma_cons_many_none(acc@);
    }
    None
}

/// Prepend a whole prefix to a successful parse.
pub open spec fn cons_many(prefix: Seq<char>, r: Option<(Seq<char>, Seq<char>)>) -> Option<
    (Seq<char>, Seq<char>),
> {
    match r {
        Some(p) => Some((prefix + p.0, p.1)),
        None => None,
    }
}

proof fn lemma_cons_many_none(prefix: Seq<char>)
    ensures
        cons_many(prefix, None) is None,
{
}

proof fn lemma_cons_many_some(prefix: Seq<char>, v: Seq<char>, rem: Seq<char>)
    ensures
        cons_many(prefix, Some((v, rem))) == Some::<(Seq<char>, Seq<char>)>((prefix + v, rem)),
{
}

proof fn lemma_cons_many_step(prefix: Seq<char>, c: char, r: Option<(Seq<char>, Seq<char>)>)
    ensures
        cons_many(prefix, cons_parsed(c, r)) == cons_many(prefix.push(c), r),
{
    match r {
        Some(p) => {
            assert(prefix + (seq![c] + p.0) =~= prefix.push(c) + p.0);
        },
        None => {},
    }
}

/// The value of a hexadecimal digit character.
pub fn hex_digit_value(c: char) -> (r: Option<u32>)
    ensures
        r is Some <==> is_hex_char(c),
        r is Some ==> r->Some_0 == hex_val(c) && r->Some_0 < 16,
{
    let v = c as u32;
    if v >= 48 && v <= 57 {
        Some(v - 48)
    } else if v >= 97 && v <= 102 {
        Some(v - 97 + 10)
    } else if v >= 65 && v <= 70 {
        Some(v - 65 + 10)
    } else {
        proof {
            assert('0' as u32 == 48 && '9' as u32 == 57);
            assert('a' as u32 == 97 && 'f' as u32 == 102);
            assert('A' as u32 == 65 && 'F' as u32 == 70);
        }
        None
    }
}

// ------------------------------------------------------------------- numbers
/// The decimal digits of `n`, most significant first.
pub open spec fn dec_digits(n: nat) -> Seq<char>
    decreases n,
{
    if n < 10 {
        seq![hex_char(n as int)]
    } else {
        dec_digits(n / 10).push(hex_char((n % 10) as int))
    }
}

/// Greedy digit accumulation: consume leading digits, folding them onto
/// `acc`.
pub open spec fn spec_parse_digits(s: Seq<char>, acc: int) -> (int, Seq<char>)
    decreases s.len(),
{
    if s.len() > 0 && is_digit_char(s[0]) {
        spec_parse_digits(s.drop_first(), acc * 10 + hex_val(s[0]))
    } else {
        (acc, s)
    }
}

/// Parse an unsigned number that fits a `u32`: at least one digit, value at
/// most `u32::MAX`.
pub open spec fn spec_parse_u32(s: Seq<char>) -> Option<(int, Seq<char>)> {
    if s.len() > 0 && is_digit_char(s[0]) {
        let p = spec_parse_digits(s, 0);
        if p.0 <= u32::MAX {
            Some(p)
        } else {
            None
        }
    } else {
        None
    }
}

/// The scale a number's digits shift an accumulator by.
pub open spec fn dec_mag(n: nat) -> int
    decreases n,
{
    if n < 10 {
        10
    } else {
        10 * dec_mag(n / 10)
    }
}

proof fn lemma_dec_digits_shape(n: nat)
    ensures
        dec_digits(n).len() > 0,
        forall|i: int| 0 <= i < dec_digits(n).len() ==> is_digit_char(#[trigger] dec_digits(n)[i]),
    decreases n,
{
    if n < 10 {
        lemma_hex_char_val(n as int);
    } else {
        lemma_dec_digits_shape(n / 10);
        lemma_hex_char_val((n % 10) as int);
    }
}

proof fn lemma_parse_digits_chain(n: nat, acc: int, rest: Seq<char>)
    ensures
        spec_parse_digits(dec_digits(n) + rest, acc) == spec_parse_digits(
            rest,
            acc * dec_mag(n) + n,
        ),
    decreases n,
{
    if n < 10 {
        lemma_hex_char_val(n as int);
        let whole = dec_digits(n) + rest;
        assert(whole[0] == hex_char(n as int));
        assert(whole.drop_first() =~= rest);
    } else {
        let d = (n % 10) as int;
        lemma_hex_char_val(d);
        assert(dec_digits(n) + rest =~= dec_digits(n / 10) + (seq![hex_char(d)] + rest));
        lemma_parse_digits_chain(n / 10, acc, seq![hex_char(d)] + rest);
        let mid = acc * dec_mag(n / 10) + n / 10;
        let whole2 = seq![hex_char(d)] + rest;
        assert(whole2[0] == hex_char(d));
        assert(whole2.drop_first() =~= rest);
        assert(spec_parse_digits(whole2, mid) == spec_parse_digits(rest, mid * 10 + d));
        assert(mid * 10 + d == acc * dec_mag(n) + n) by {
            assert(dec_mag(n) == 10 * dec_mag(n / 10));
            assert((acc * dec_mag(n / 10) + n / 10) * 10 == acc * (dec_mag(n / 10) * 10) + (n / 10)
                * 10) by (nonlinear_arith);
            assert((n / 10) * 10 + d == n);
        }
    }
}

/// The number parser undoes the renderer, provided no digit follows.
pub proof fn lemma_parse_dec_roundtrip(n: nat, rest: Seq<char>)
    requires
        n <= u32::MAX,
        rest.len() == 0 || !is_digit_char(rest[0]),
    ensures
        spec_parse_u32(dec_digits(n) + rest) == Some((n as int, rest)),
{
    lemma_dec_digits_shape(n);
    assert((dec_digits(n) + rest)[0] == dec_digits(n)[0]);
    lemma_parse_digits_chain(n, 0, rest);
    assert(spec_parse_digits(rest, 0 * dec_mag(n) + n) == (n as int, rest));
}

proof fn lemma_parse_digits_monotone(s: Seq<char>, acc: int)
    requires
        acc >= 0,
    ensures
        spec_parse_digits(s, acc).0 >= acc,
    decreases s.len(),
{
    if s.len() > 0 && is_digit_char(s[0]) {
        assert(acc * 10 + hex_val(s[0]) >= acc) by (nonlinear_arith)
            requires
                acc >= 0,
                hex_val(s[0]) >= 0,
        ;
        lemma_parse_digits_monotone(s.drop_first(), acc * 10 + hex_val(s[0]));
    }
}

/// Append the decimal rendering of `n` to `out`.
pub fn push_u32(out: &mut Vec<char>, n: u32)
    ensures
        final(out)@ == old(out)@ + dec_digits(n as nat),
    decreases n,
{
    if n < 10 {
        out.push(hex_char_of(n));
        proof {
            assert(final(out)@ =~= old(out)@ + dec_digits(n as nat));
        }
    } else {
        push_u32(out, n / 10);
        out.push(hex_char_of(n % 10));
        proof {
            assert(final(out)@ =~= old(out)@ + dec_digits(n as nat));
        }
    }
}

/// Parse a `u32` at position `i`: its value and the position after its last
/// digit.
pub fn parse_u32_at(s: &Vec<char>, i: usize) -> (r: Option<(u32, usize)>)
    requires
        i <= s@.len(),
    ensures
        match r {
            Some(p) => p.1 <= s@.len() && spec_parse_u32(s@.skip(i as int)) == Some(
                (p.0 as int, s@.skip(p.1 as int)),
            ),
            None => spec_parse_u32(s@.skip(i as int)) is None,
        },
{
    if i >= s.len() {
        proof {
            assert(s@.skip(i as int) =~= Seq::<char>::empty());
        }
        return None;
    }
    proof {
        assert(s@.skip(i as int)[0] == s@[i as int]);
    }
    let first = s[i];
    if !(first >= '0' && first <= '9') {
        return None;
    }
    let mut acc: u64 = 0;
    let mut j = i;
    while j < s.len() && is_digit(s[j])
        invariant
            i <= j <= s@.len(),
            acc <= u32::MAX,
            spec_parse_digits(s@.skip(i as int), 0) == spec_parse_digits(
                s@.skip(j as int),
                acc as int,
            ),
        decreases s@.len() - j,
    {
        let c = s[j];
        proof {
            assert(s@.skip(j as int)[0] == s@[j as int]);
            assert(s@.skip(j as int).drop_first() =~= s@.skip(j as int + 1));
            assert('0' as u32 == 48 && '9' as u32 == 57);
        }
        let d = c as u32 - 48;
        proof {
            assert(is_digit_char(c) && hex_val(c) == d);
        }
        let next: u64 = acc * 10 + d as u64;
        if next > u32::MAX as u64 {
            proof {
                lemma_parse_digits_monotone(s@.skip(j as int + 1), next as int);
                assert(spec_parse_digits(s@.skip(i as int), 0).0 > u32::MAX);
            }
            return None;
        }
        acc = next;
        j = j + 1;
    }
    proof {
        if j < s@.len() {
            assert(s@.skip(j as int)[0] == s@[j as int]);
        } else {
            assert(s@.skip(j as int) =~= Seq::<char>::empty());
        }
        assert(spec_parse_digits(s@.skip(j as int), acc as int) == (acc as int, s@.skip(j as int)));
    }
    Some((acc as u32, j))
}

// ------------------------------------------------------------------ ordering
/// Lexicographic order on character sequences, by code point — the order
/// Rust's own string comparison gives, since UTF-8 preserves it.
pub open spec fn lex_le(a: Seq<char>, b: Seq<char>) -> bool
    decreases a.len(),
{
    if a.len() == 0 {
        true
    } else if b.len() == 0 {
        false
    } else if a[0] == b[0] {
        lex_le(a.drop_first(), b.drop_first())
    } else {
        (a[0] as u32) < (b[0] as u32)
    }
}

/// One of two sequences always comes first.
pub proof fn lemma_lex_le_total(a: Seq<char>, b: Seq<char>)
    ensures
        lex_le(a, b) || lex_le(b, a),
    decreases a.len(),
{
    if a.len() > 0 && b.len() > 0 && a[0] == b[0] {
        lemma_lex_le_total(a.drop_first(), b.drop_first());
    } else if a.len() > 0 && b.len() > 0 {
        vstd::utf8::char_u32_cast(a[0], a[0] as u32);
        vstd::utf8::char_u32_cast(b[0], b[0] as u32);
    }
}

/// Whether `a` comes at or before `b` in lexicographic order.
pub fn chars_le(a: &Vec<char>, b: &Vec<char>) -> (r: bool)
    ensures
        r == lex_le(a@, b@),
{
    let mut i: usize = 0;
    proof {
        assert(a@.skip(0) =~= a@);
        assert(b@.skip(0) =~= b@);
    }
    while i < a.len() && i < b.len()
        invariant
            i <= a@.len() && i <= b@.len(),
            lex_le(a@, b@) == lex_le(a@.skip(i as int), b@.skip(i as int)),
        decreases a@.len() - i,
    {
        proof {
            assert(a@.skip(i as int)[0] == a@[i as int]);
            assert(b@.skip(i as int)[0] == b@[i as int]);
            assert(a@.skip(i as int).drop_first() =~= a@.skip(i as int + 1));
            assert(b@.skip(i as int).drop_first() =~= b@.skip(i as int + 1));
        }
        if a[i] != b[i] {
            return (a[i] as u32) < (b[i] as u32);
        }
        i = i + 1;
    }
    proof {
        if i >= a@.len() {
            assert(a@.skip(i as int).len() == 0);
        } else {
            assert(b@.skip(i as int).len() == 0);
            assert(a@.skip(i as int).len() > 0);
        }
    }
    i >= a.len()
}

} // verus!
