//! The annotation identity on the wire: a 128-bit value rendered as five
//! groups of lower-case hexadecimal digits, 8-4-4-4-12, joined by hyphens.

use vstd::prelude::*;

use crate::codec::{hex_char, hex_char_of, hex_val, is_hex_char, lemma_hex_char_val};

verus! {

/// Sixteen to the `w`.
pub open spec fn pow16(w: nat) -> int
    decreases w,
{
    if w == 0 {
        1
    } else {
        16 * pow16((w - 1) as nat)
    }
}

/// `n` in exactly `w` hexadecimal digits, most significant first.
pub open spec fn hex_fixed(n: int, w: nat) -> Seq<char>
    decreases w,
{
    if w == 0 {
        Seq::empty()
    } else {
        hex_fixed(n / 16, (w - 1) as nat).push(hex_char(n % 16))
    }
}

/// The canonical hyphenated rendering of a 128-bit identity.
pub open spec fn uuid_chars(id: int) -> Seq<char> {
    let g1 = id / pow16(24);
    let r1 = id % pow16(24);
    let g2 = r1 / pow16(20);
    let r2 = r1 % pow16(20);
    let g3 = r2 / pow16(16);
    let r3 = r2 % pow16(16);
    let g4 = r3 / pow16(12);
    let g5 = r3 % pow16(12);
    hex_fixed(g1, 8) + seq!['-'] + hex_fixed(g2, 4) + seq!['-'] + hex_fixed(g3, 4) + seq!['-']
        + hex_fixed(g4, 4) + seq!['-'] + hex_fixed(g5, 12)
}

/// Fold hexadecimal digits onto `acc`; `None` on a non-digit.
pub open spec fn hexval_acc(s: Seq<char>, acc: int) -> Option<int>
    decreases s.len(),
{
    if s.len() == 0 {
        Some(acc)
    } else if is_hex_char(s[0]) {
        hexval_acc(s.drop_first(), acc * 16 + hex_val(s[0]))
    } else {
        None
    }
}

/// The identity a 36-character hyphenated rendering denotes, if well formed.
pub open spec fn spec_uuid_value(s: Seq<char>) -> Option<int> {
    if s.len() == 36 && s[8] == '-' && s[13] == '-' && s[18] == '-' && s[23] == '-' {
        let a = hexval_acc(s.subrange(0, 8), 0);
        let b = hexval_acc(s.subrange(9, 13), 0);
        let c = hexval_acc(s.subrange(14, 18), 0);
        let d = hexval_acc(s.subrange(19, 23), 0);
        let e = hexval_acc(s.subrange(24, 36), 0);
        if a is Some && b is Some && c is Some && d is Some && e is Some {
            Some(
                a->Some_0 * pow16(24) + b->Some_0 * pow16(20) + c->Some_0 * pow16(16) + d->Some_0
                    * pow16(12) + e->Some_0,
            )
        } else {
            None
        }
    } else {
        None
    }
}

/// The powers of sixteen the identity codec works with, as literals.
pub proof fn lemma_pow16_consts()
    ensures
        pow16(4) == 0x10000,
        pow16(8) == 0x1_0000_0000,
        pow16(12) == 0x1_0000_0000_0000,
        pow16(16) == 0x1_0000_0000_0000_0000,
        pow16(20) == 0x1_0000_0000_0000_0000_0000,
        pow16(24) == 0x1_0000_0000_0000_0000_0000_0000,
        pow16(32) == 0x1_0000_0000_0000_0000_0000_0000_0000_0000,
{
    assert(pow16(0) == 1);
    assert(pow16(1) == 16);
    assert(pow16(2) == 0x100);
    assert(pow16(3) == 0x1000);
    assert(pow16(4) == 0x10000);
    assert(pow16(5) == 0x10_0000);
    assert(pow16(6) == 0x100_0000);
    assert(pow16(7) == 0x1000_0000);
    assert(pow16(8) == 0x1_0000_0000);
    assert(pow16(9) == 0x10_0000_0000);
    assert(pow16(10) == 0x100_0000_0000);
    assert(pow16(11) == 0x1000_0000_0000);
    assert(pow16(12) == 0x1_0000_0000_0000);
    assert(pow16(13) == 0x10_0000_0000_0000);
    assert(pow16(14) == 0x100_0000_0000_0000);
    assert(pow16(15) == 0x1000_0000_0000_0000);
    assert(pow16(16) == 0x1_0000_0000_0000_0000);
    assert(pow16(17) == 0x10_0000_0000_0000_0000);
    assert(pow16(18) == 0x100_0000_0000_0000_0000);
    assert(pow16(19) == 0x1000_0000_0000_0000_0000);
    assert(pow16(20) == 0x1_0000_0000_0000_0000_0000);
    assert(pow16(21) == 0x10_0000_0000_0000_0000_0000);
    assert(pow16(22) == 0x100_0000_0000_0000_0000_0000);
    assert(pow16(23) == 0x1000_0000_0000_0000_0000_0000);
    assert(pow16(24) == 0x1_0000_0000_0000_0000_0000_0000);
    assert(pow16(25) == 0x10_0000_0000_0000_0000_0000_0000);
    assert(pow16(26) == 0x100_0000_0000_0000_0000_0000_0000);
    assert(pow16(27) == 0x1000_0000_0000_0000_0000_0000_0000);
    assert(pow16(28) == 0x1_0000_0000_0000_0000_0000_0000_0000);
    assert(pow16(29) == 0x10_0000_0000_0000_0000_0000_0000_0000);
    assert(pow16(30) == 0x100_0000_0000_0000_0000_0000_0000_0000int);
    assert(pow16(31) == 0x1000_0000_0000_0000_0000_0000_0000_0000int);
    assert(pow16(32) == 0x1_0000_0000_0000_0000_0000_0000_0000_0000int);
}

/// A fixed-width rendering has exactly its width, all hexadecimal digits.
pub proof fn lemma_hex_fixed_shape(n: int, w: nat)
    ensures
        hex_fixed(n, w).len() == w,
        forall|i: int| 0 <= i < w ==> is_hex_char(#[trigger] hex_fixed(n, w)[i]),
    decreases w,
{
    if w > 0 {
        lemma_hex_fixed_shape(n / 16, (w - 1) as nat);
        if n >= 0 {
            lemma_hex_char_val(n % 16);
        } else {
            lemma_hex_char_val(n % 16);
        }
    }
}

proof fn lemma_hexval_concat(a: Seq<char>, b: Seq<char>, acc: int)
    ensures
        hexval_acc(a + b, acc) == (match hexval_acc(a, acc) {
            Some(m) => hexval_acc(b, m),
            None => None,
        }),
    decreases a.len(),
{
    if a.len() == 0 {
        assert(a + b =~= b);
    } else {
        assert((a + b)[0] == a[0]);
        if is_hex_char(a[0]) {
            assert((a + b).drop_first() =~= a.drop_first() + b);
            lemma_hexval_concat(a.drop_first(), b, acc * 16 + hex_val(a[0]));
        }
    }
}

proof fn lemma_hexval_fixed(n: int, w: nat, acc: int)
    requires
        0 <= n < pow16(w),
    ensures
        hexval_acc(hex_fixed(n, w), acc) == Some(acc * pow16(w) + n),
    decreases w,
{
    if w == 0 {
        assert(n == 0);
        assert(acc * 1 == acc) by (nonlinear_arith);
    } else {
        let q = n / 16;
        let d = n % 16;
        assert(0 <= d < 16);
        lemma_hex_char_val(d);
        assert(0 <= q < pow16((w - 1) as nat)) by (nonlinear_arith)
            requires
                0 <= n < pow16(w),
                pow16(w) == 16 * pow16((w - 1) as nat),
                q == n / 16,
        ;
        lemma_hexval_fixed(q, (w - 1) as nat, acc);
        assert(hex_fixed(n, w) =~= hex_fixed(q, (w - 1) as nat) + seq![hex_char(d)]);
        lemma_hexval_concat(hex_fixed(q, (w - 1) as nat), seq![hex_char(d)], acc);
        let m = acc * pow16((w - 1) as nat) + q;
        assert(hexval_acc(seq![hex_char(d)], m) == Some(m * 16 + d)) by {
            assert(seq![hex_char(d)][0] == hex_char(d));
            assert(seq![hex_char(d)].drop_first() =~= Seq::<char>::empty());
            assert(hexval_acc(Seq::<char>::empty(), m * 16 + d) == Some(m * 16 + d));
        }
        assert(m * 16 + d == acc * pow16(w) + n) by (nonlinear_arith)
            requires
                m == acc * pow16((w - 1) as nat) + q,
                pow16(w) == 16 * pow16((w - 1) as nat),
                q == n / 16,
                d == n % 16,
        ;
    }
}

/// Reading the canonical rendering of an identity gives the identity back.
pub proof fn lemma_uuid_roundtrip(id: int)
    requires
        0 <= id < pow16(32),
    ensures
        spec_uuid_value(uuid_chars(id)) == Some(id),
{
    lemma_pow16_consts();
    let g1 = id / pow16(24);
    let r1 = id % pow16(24);
    let g2 = r1 / pow16(20);
    let r2 = r1 % pow16(20);
    let g3 = r2 / pow16(16);
    let r3 = r2 % pow16(16);
    let g4 = r3 / pow16(12);
    let g5 = r3 % pow16(12);
    let s = uuid_chars(id);
    lemma_hex_fixed_shape(g1, 8);
    lemma_hex_fixed_shape(g2, 4);
    lemma_hex_fixed_shape(g3, 4);
    lemma_hex_fixed_shape(g4, 4);
    lemma_hex_fixed_shape(g5, 12);
    assert(s.len() == 36);
    assert(s[8] == '-' && s[13] == '-' && s[18] == '-' && s[23] == '-');
    assert(s.subrange(0, 8) =~= hex_fixed(g1, 8));
    assert(s.subrange(9, 13) =~= hex_fixed(g2, 4));
    assert(s.subrange(14, 18) =~= hex_fixed(g3, 4));
    assert(s.subrange(19, 23) =~= hex_fixed(g4, 4));
    assert(s.subrange(24, 36) =~= hex_fixed(g5, 12));
    assert(0 <= g1 < pow16(8)) by (nonlinear_arith)
        requires
            0 <= id < pow16(32),
            g1 == id / pow16(24),
            pow16(24) == 0x1_0000_0000_0000_0000_0000_0000,
            pow16(32) == 0x1_0000_0000_0000_0000_0000_0000_0000_0000int,
            pow16(8) == 0x1_0000_0000,
    ;
    assert(0 <= r1 < pow16(24));
    assert(0 <= g2 < pow16(4)) by (nonlinear_arith)
        requires
            0 <= r1 < pow16(24),
            g2 == r1 / pow16(20),
            pow16(20) == 0x1_0000_0000_0000_0000_0000,
            pow16(24) == 0x1_0000_0000_0000_0000_0000_0000,
            pow16(4) == 0x10000,
    ;
    assert(0 <= r2 < pow16(20));
    assert(0 <= g3 < pow16(4)) by (nonlinear_arith)
        requires
            0 <= r2 < pow16(20),
            g3 == r2 / pow16(16),
            pow16(16) == 0x1_0000_0000_0000_0000,
            pow16(20) == 0x1_0000_0000_0000_0000_0000,
            pow16(4) == 0x10000,
    ;
    assert(0 <= r3 < pow16(16));
    assert(0 <= g4 < pow16(4)) by (nonlinear_arith)
        requires
            0 <= r3 < pow16(16),
            g4 == r3 / pow16(12),
            pow16(12) == 0x1_0000_0000_0000,
            pow16(16) == 0x1_0000_0000_0000_0000,
            pow16(4) == 0x10000,
    ;
    assert(0 <= g5 < pow16(12));
    lemma_hexval_fixed(g1, 8, 0);
    lemma_hexval_fixed(g2, 4, 0);
    lemma_hexval_fixed(g3, 4, 0);
    lemma_hexval_fixed(g4, 4, 0);
    lemma_hexval_fixed(g5, 12, 0);
    assert(0 * pow16(8) + g1 == g1);
    assert(g1 * pow16(24) + g2 * pow16(20) + g3 * pow16(16) + g4 * pow16(12) + g5 == id) by {
        vstd::arithmetic::div_mod::lemma_fundamental_div_mod(id, pow16(24));
        vstd::arithmetic::div_mod::lemma_fundamental_div_mod(r1, pow16(20));
        vstd::arithmetic::div_mod::lemma_fundamental_div_mod(r2, pow16(16));
        vstd::arithmetic::div_mod::lemma_fundamental_div_mod(r3, pow16(12));
    }
}

/// Append `n` in exactly `w` hexadecimal digits to `out`.
pub fn push_hex_fixed(out: &mut Vec<char>, n: u128, w: usize)
    ensures
        final(out)@ == old(out)@ + hex_fixed(n as int, w as nat),
    decreases w,
{
    if w == 0 {
        proof {
            assert(final(out)@ =~= old(out)@ + hex_fixed(n as int, 0));
        }
    } else {
        push_hex_fixed(out, n / 16, w - 1);
        out.push(hex_char_of((n % 16) as u32));
        proof {
            assert(final(out)@ =~= old(out)@ + hex_fixed(n as int, w as nat));
        }
    }
}

/// Append the canonical hyphenated rendering of `id` to `out`.
pub fn push_uuid(out: &mut Vec<char>, id: u128)
    ensures
        final(out)@ == old(out)@ + uuid_chars(id as int),
{
    proof {
        lemma_pow16_consts();
    }
    let g1 = id / 0x1_0000_0000_0000_0000_0000_0000u128;
    let r1 = id % 0x1_0000_0000_0000_0000_0000_0000u128;
    let g2 = r1 / 0x1_0000_0000_0000_0000_0000u128;
    let r2 = r1 % 0x1_0000_0000_0000_0000_0000u128;
    let g3 = r2 / 0x1_0000_0000_0000_0000u128;
    let r3 = r2 % 0x1_0000_0000_0000_0000u128;
    let g4 = r3 / 0x1_0000_0000_0000u128;
    let g5 = r3 % 0x1_0000_0000_0000u128;
    push_hex_fixed(out, g1, 8);
    out.push('-');
    push_hex_fixed(out, g2, 4);
    out.push('-');
    push_hex_fixed(out, g3, 4);
    out.push('-');
    push_hex_fixed(out, g4, 4);
    out.push('-');
    push_hex_fixed(out, g5, 12);
    proof {
        assert(final(out)@ =~= old(out)@ + uuid_chars(id as int));
    }
}

fn parse_hex_group(v: &Vec<char>, from: usize, width: usize) -> (r: Option<u64>)
    requires
        from + width <= v@.len(),
        width <= 12,
    ensures
        match r {
            Some(g) => hexval_acc(v@.subrange(from as int, from as int + width), 0) == Some(
                g as int,
            ) && g < pow16(width as nat),
            None => hexval_acc(v@.subrange(from as int, from as int + width), 0) is None,
        },
{
    proof {
        lemma_pow16_consts();
    }
    let n = v.len();
    let mut acc: u64 = 0;
    let mut k: usize = 0;
    while k < width
        invariant
            n == v@.len(),
            from + width <= v@.len(),
            width <= 12,
            k <= width,
            acc < pow16(k as nat),
            pow16(12) == 0x1_0000_0000_0000,
            hexval_acc(v@.subrange(from as int, from as int + width), 0) == hexval_acc(
                v@.subrange(from as int + k, from as int + width),
                acc as int,
            ),
        decreases width - k,
    {
        let ghost grp = v@.subrange(from as int + k, from as int + width);
        proof {
            assert(grp[0] == v@[from as int + k]);
            assert(grp.drop_first() =~= v@.subrange(from as int + k + 1, from as int + width));
        }
        match crate::codec::hex_digit_value(v[from + k]) {
            Some(d) => {
                proof {
                    assert(acc < pow16(k as nat));
                    assert(pow16((k + 1) as nat) == 16 * pow16(k as nat));
                    assert(acc * 16 + d < pow16((k + 1) as nat)) by (nonlinear_arith)
                        requires
                            acc < pow16(k as nat),
                            d < 16,
                            pow16((k + 1) as nat) == 16 * pow16(k as nat),
                    ;
                    assert(pow16(k as nat) <= pow16(12)) by {
                        lemma_pow16_monotone(k as nat, 12);
                    }
                }
                acc = acc * 16 + d as u64;
                k = k + 1;
            },
            None => {
                return None;
            },
        }
    }
    proof {
        assert(v@.subrange(from as int + width, from as int + width) =~= Seq::<char>::empty());
    }
    Some(acc)
}

proof fn lemma_pow16_pos(w: nat)
    ensures
        pow16(w) >= 1,
    decreases w,
{
    if w > 0 {
        lemma_pow16_pos((w - 1) as nat);
    }
}

proof fn lemma_pow16_monotone(a: nat, b: nat)
    requires
        a <= b,
    ensures
        1 <= pow16(a) <= pow16(b),
    decreases b,
{
    lemma_pow16_pos(a);
    if a < b {
        lemma_pow16_monotone(a, (b - 1) as nat);
        lemma_pow16_pos((b - 1) as nat);
        assert(pow16(b) == 16 * pow16((b - 1) as nat));
    }
}

/// Read a 36-character hyphenated rendering back into the identity it
/// denotes; `None` when the shape is wrong.
pub fn uuid_from_chars(v: &Vec<char>) -> (r: Option<u128>)
    ensures
        match r {
            Some(x) => spec_uuid_value(v@) == Some(x as int),
            None => spec_uuid_value(v@) is None,
        },
{
    proof {
        lemma_pow16_consts();
    }
    if v.len() != 36 {
        return None;
    }
    if !(v[8] == '-' && v[13] == '-' && v[18] == '-' && v[23] == '-') {
        return None;
    }
    let a = parse_hex_group(v, 0, 8);
    let b = parse_hex_group(v, 9, 4);
    let c = parse_hex_group(v, 14, 4);
    let d = parse_hex_group(v, 19, 4);
    let e = parse_hex_group(v, 24, 12);
    match (a, b, c, d, e) {
        (Some(a), Some(b), Some(c), Some(d), Some(e)) => {
            proof {
                assert(a < 0x1_0000_0000 && b < 0x10000 && c < 0x10000 && d < 0x10000 && e
                    < 0x1_0000_0000_0000);
            }
            let x: u128 = (a as u128) * 0x1_0000_0000_0000_0000_0000_0000u128 + (b as u128)
                * 0x1_0000_0000_0000_0000_0000u128 + (c as u128) * 0x1_0000_0000_0000_0000u128 + (
            d as u128) * 0x1_0000_0000_0000u128 + (e as u128);
            Some(x)
        },
        _ => None,
    }
}

} // verus!
