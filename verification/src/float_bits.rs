use vstd::prelude::*;
use vstd::arithmetic::power2::{pow2, lemma_pow2_unfold, lemma_pow2_pos, lemma_pow2_adds, lemma_pow2_strictly_increases, lemma2_to64};

verus! {

/// `s / 2^k` rounded to the nearest integer, ties to even (`k >= 1`).
pub open spec fn round_shift(s: nat, k: nat) -> nat {
    let q = s / pow2(k);
    let r = s % pow2(k);
    let half = pow2((k - 1) as nat);
    if r > half || (r == half && q % 2 == 1) { q + 1 } else { q }
}

/// Position of the highest set bit of `n` (0 for 0 and 1).
pub open spec fn log2(n: nat) -> nat
    decreases n,
{
    if n <= 1 { 0 } else { 1 + log2(n / 2) }
}

pub const SIGN_BIT: u64 = 0x8000_0000_0000_0000u64;
pub const EXP_UNIT: u64 = 0x10_0000_0000_0000u64;

/// The bit pattern of a double converted to single precision (rounding to
/// nearest, ties to even) and back to double: the value an IEEE-754 `f32`
/// holds for the literal, as a double. Fields: sign `s`, biased exponent
/// `e` (11 bits), fraction `m` (52 bits). Doubles whose exponent is within
/// single range keep 24 significant bits; smaller ones round to a multiple
/// of 2^-149 (single subnormals) and are written back as normal doubles;
/// larger ones become infinities. A NaN stays a NaN with its sign and the
/// top 22 bits of its payload, made quiet.
pub open spec fn f32_rounded(b: u64) -> u64 {
    let sign: nat = ((b / SIGN_BIT) * SIGN_BIT) as nat;
    let e: nat = ((b / EXP_UNIT) % 2048) as nat;
    let m: nat = (b % EXP_UNIT) as nat;
    if e == 2047 {
        if m == 0 {
            b
        } else {
            (sign + 0x7FF8_0000_0000_0000 + (m % 0x8_0000_0000_0000) / 0x2000_0000 * 0x2000_0000) as u64
        }
    } else if e == 0 {
        sign as u64
    } else if e > 1150 {
        (sign + 0x7FF0_0000_0000_0000) as u64
    } else if e >= 897 {
        let r = round_shift((EXP_UNIT + m) as nat, 29);
        if r == 0x100_0000 {
            if e + 1 > 1150 { (sign + 0x7FF0_0000_0000_0000) as u64 } else { (sign + (e + 1) * EXP_UNIT) as u64 }
        } else {
            (sign + e * EXP_UNIT + (r - 0x80_0000) * 0x2000_0000) as u64
        }
    } else {
        let k: nat = (29 + (897 - e)) as nat;
        let r = if k > 54 { 0 } else { round_shift((EXP_UNIT + m) as nat, k) };
        if r == 0 {
            sign as u64
        } else {
            let p = log2(r);
            (sign + (p + 874) * EXP_UNIT + (r - pow2(p)) * pow2((52 - p) as nat)) as u64
        }
    }
}

fn pow2_exec(k: u64) -> (res: u64)
    requires
        k < 64,
    ensures
        res as nat == pow2(k as nat),
{
    let mut r: u64 = 1;
    let mut i: u64 = 0;
    proof { lemma2_to64(); }
    while i < k
        invariant
            i <= k < 64,
            r as nat == pow2(i as nat),
        decreases k - i,
    {
        proof {
            lemma_pow2_unfold((i + 1) as nat);
            lemma_pow2_strictly_increases((i + 1) as nat, 64);
            vstd::arithmetic::power2::lemma2_to64_rest();
        }
        r = r * 2;
        i = i + 1;
    }
    r
}

fn round_shift_exec(s: u64, k: u64) -> (res: u64)
    requires
        1 <= k <= 54,
        s < 0x20_0000_0000_0000,
    ensures
        res as nat == round_shift(s as nat, k as nat),
        res as nat <= s as nat / pow2(k as nat) + 1,
{
    let p = pow2_exec(k);
    let h = pow2_exec(k - 1);
    proof { lemma_pow2_pos(k as nat); }
    let q = s / p;
    let r = s % p;
    if r > h || (r == h && q % 2 == 1) { q + 1 } else { q }
}

pub proof fn lemma_log2(n: nat)
    requires
        n >= 1,
    ensures
        pow2(log2(n)) <= n < pow2(log2(n) + 1),
    decreases n,
{
    if n <= 1 {
        lemma2_to64();
    } else {
        lemma_log2(n / 2);
        lemma_pow2_unfold(log2(n));
        lemma_pow2_unfold(log2(n) + 1);
    }
}

proof fn lemma_log2_bound(n: nat, k: nat)
    requires
        1 <= n < pow2(k),
    ensures
        log2(n) < k,
{
    lemma_log2(n);
    if log2(n) >= k {
        if log2(n) > k {
            lemma_pow2_strictly_increases(k, log2(n));
        }
    }
}

fn log2_exec(n: u64) -> (res: u64)
    ensures
        res as nat == log2(n as nat),
        res < 64,
{
    let mut x = n;
    let mut p: u64 = 0;
    proof {
        vstd::arithmetic::power2::lemma2_to64_rest();
        if n >= 1 { lemma_log2_bound(n as nat, 64); }
    }
    while x > 1
        invariant
            log2(n as nat) == p + log2(x as nat),
            p + log2(x as nat) < 64,
            x <= n,
        decreases x,
    {
        x = x / 2;
        p = p + 1;
    }
    p
}

} // verus!

verus! {

/// The double that the literal with bit pattern `b` denotes, rounded to
/// single precision and widened back, as a bit pattern (see `f32_rounded`).
pub fn f32_rounded_bits(b: u64) -> (res: u64)
    ensures
        res == f32_rounded(b),
{
    let sign: u64 = (b / SIGN_BIT) * SIGN_BIT;
    let e: u64 = (b / EXP_UNIT) % 2048;
    let m: u64 = b % EXP_UNIT;
    assert(b / SIGN_BIT <= 1);
    if e == 2047 {
        if m == 0 {
            b
        } else {
            sign + 0x7FF8_0000_0000_0000 + (m % 0x8_0000_0000_0000) / 0x2000_0000 * 0x2000_0000
        }
    } else if e == 0 {
        sign
    } else if e > 1150 {
        sign + 0x7FF0_0000_0000_0000
    } else if e >= 897 {
        proof { lemma2_to64(); vstd::arithmetic::power2::lemma2_to64_rest(); }
        let s = EXP_UNIT + m;
        let r = round_shift_exec(s, 29);
        assert(s as nat / pow2(29) >= 0x80_0000) by {
            assert(pow2(29) == 0x2000_0000);
        }
        assert(s as nat / pow2(29) < 0x100_0000) by {
            assert(pow2(29) == 0x2000_0000);
        }
        assert(r as nat >= s as nat / pow2(29));
        if r == 0x100_0000 {
            if e + 1 > 1150 { sign + 0x7FF0_0000_0000_0000 } else { sign + (e + 1) * EXP_UNIT }
        } else {
            sign + e * EXP_UNIT + (r - 0x80_0000) * 0x2000_0000
        }
    } else {
        let k: u64 = 29 + (897 - e);
        let r: u64 = if k > 54 {
            0
        } else {
            proof { lemma2_to64(); vstd::arithmetic::power2::lemma2_to64_rest(); }
            let s = EXP_UNIT + m;
            let r = round_shift_exec(s, k);
            assert(s as nat / pow2(k as nat) < 0x80_0000) by {
                lemma_pow2_adds(30, (k - 30) as nat);
                lemma_pow2_pos((k - 30) as nat);
                assert(pow2(30) == 0x4000_0000);
                assert(pow2(k as nat) >= 0x4000_0000) by (nonlinear_arith)
                    requires pow2(k as nat) == 0x4000_0000 * pow2((k - 30) as nat), pow2((k - 30) as nat) >= 1;
                vstd::arithmetic::div_mod::lemma_div_is_ordered_by_denominator(s as int, 0x4000_0000, pow2(k as nat) as int);
            }
            r
        };
        assert(r <= 0x80_0000);
        if r == 0 {
            sign
        } else {
            let p = log2_exec(r);
            proof {
                lemma2_to64();
                lemma_log2(r as nat);
                if p > 23 {
                    lemma_pow2_strictly_increases(23, p as nat);
                }
            }
            assert(p <= 23);
            let pp = pow2_exec(p);
            let q = pow2_exec(52 - p);
            proof {
                lemma_pow2_adds(p as nat, (52 - p) as nat);
                lemma_pow2_unfold((p + 1) as nat);
                assert(((p as nat) + ((52 - p) as nat)) == 52);
                vstd::arithmetic::power2::lemma2_to64_rest();
                assert((r - pp) * q < 0x10_0000_0000_0000) by (nonlinear_arith)
                    requires r - pp < pp, pp * q == 0x10_0000_0000_0000, q >= 1, r >= pp;
            }
            sign + (p + 874) * EXP_UNIT + (r - pp) * q
        }
    }
}

} // verus!

verus! {

proof fn lemma_multiple_of_2_29(a: int)
    ensures
        (a * 0x2000_0000) % 0x2000_0000 == 0,
{
    vstd::arithmetic::div_mod::lemma_mod_multiples_basic(a, 0x2000_0000);
}

proof fn lemma_round_shift_bounds(s: nat, k: nat)
    requires
        k >= 1,
    ensures
        s / pow2(k) <= round_shift(s, k) <= s / pow2(k) + 1,
{
}

/// A double rounded to single precision has its 29 lowest fraction bits
/// clear: only the 23 fraction bits of a single remain.
pub proof fn lemma_f32_rounded_low_bits(b: u64)
    ensures
        f32_rounded(b) % 0x2000_0000 == 0,
{
    let s1: int = (b / SIGN_BIT) as int;
    let sign: nat = ((b / SIGN_BIT) * SIGN_BIT) as nat;
    let e: nat = ((b / EXP_UNIT) % 2048) as nat;
    let m: nat = (b % EXP_UNIT) as nat;
    assert(b / SIGN_BIT <= 1);
    assert(sign == s1 * 0x8000_0000_0000_0000);
    lemma2_to64();
    vstd::arithmetic::power2::lemma2_to64_rest();
    let x = f32_rounded(b);
    if e == 2047 {
        if m == 0 {
            assert(b % 0x10_0000_0000_0000 == 0 ==> b % 0x2000_0000 == 0) by (bit_vector);
        } else {
            let y: int = (m % 0x8_0000_0000_0000) as int;
            let q: int = y / 0x2000_0000;
            assert(0 <= q * 0x2000_0000 <= y < 0x8_0000_0000_0000);
            let v: int = sign + 0x7FF8_0000_0000_0000 + q * 0x2000_0000;
            assert(0 <= v <= u64::MAX);
            assert(x == v);
            let a = s1 * 0x4_0000_0000 + 0x3_FFC0_0000 + q;
            assert(v == a * 0x2000_0000);
            lemma_multiple_of_2_29(a);
        }
    } else if e == 0 {
        lemma_multiple_of_2_29(s1 * 0x4_0000_0000);
    } else if e > 1150 {
        lemma_multiple_of_2_29(s1 * 0x4_0000_0000 + 0x3_FF80_0000);
    } else if e >= 897 {
        let s = (EXP_UNIT + m) as nat;
        let r = round_shift(s, 29);
        lemma_round_shift_bounds(s, 29);
        assert(s / 0x2000_0000 >= 0x80_0000);
        assert(s / 0x2000_0000 < 0x100_0000);
        if r == 0x100_0000 {
            if e + 1 > 1150 {
                lemma_multiple_of_2_29(s1 * 0x4_0000_0000 + 0x3_FF80_0000);
            } else {
                lemma_multiple_of_2_29(s1 * 0x4_0000_0000 + (e + 1) * 0x80_0000);
            }
        } else {
            let a = s1 * 0x4_0000_0000 + e * 0x80_0000 + (r - 0x80_0000);
            assert(x == a * 0x2000_0000);
            lemma_multiple_of_2_29(a);
        }
    } else {
        let k: nat = (29 + (897 - e)) as nat;
        let s = (EXP_UNIT + m) as nat;
        let r = if k > 54 { 0 } else { round_shift(s, k) };
        if k <= 54 {
            lemma_round_shift_bounds(s, k);
            lemma_pow2_adds(30, (k - 30) as nat);
            lemma_pow2_pos((k - 30) as nat);
            assert(pow2(k) >= 0x4000_0000) by (nonlinear_arith)
                requires
                    pow2(k) == 0x4000_0000 * pow2((k - 30) as nat),
                    pow2((k - 30) as nat) >= 1,
            ;
            vstd::arithmetic::div_mod::lemma_div_is_ordered_by_denominator(s as int, 0x4000_0000, pow2(k) as int);
        }
        assert(r <= 0x80_0000);
        if r == 0 {
            lemma_multiple_of_2_29(s1 * 0x4_0000_0000);
        } else {
            let p = log2(r);
            lemma_log2(r);
            if p > 23 {
                lemma_pow2_strictly_increases(23, p);
            }
            assert(p <= 23);
            let d = pow2((23 - p) as nat);
            lemma_pow2_adds((23 - p) as nat, 29);
            assert(pow2((52 - p) as nat) == d * 0x2000_0000);
            let t = r - pow2(p);
            assert(t * pow2((52 - p) as nat) == (t * d) * 0x2000_0000) by (nonlinear_arith)
                requires
                    pow2((52 - p) as nat) == d * 0x2000_0000,
            ;
            assert(0 <= t < pow2(p));
            lemma_pow2_adds(p, (52 - p) as nat);
            assert(t * pow2((52 - p) as nat) < 0x10_0000_0000_0000) by (nonlinear_arith)
                requires
                    0 <= t < pow2(p),
                    pow2(p) * pow2((52 - p) as nat) == 0x10_0000_0000_0000,
                    pow2((52 - p) as nat) >= 1,
            ;
            let v: int = sign + (p + 874) * 0x10_0000_0000_0000 + t * pow2((52 - p) as nat);
            assert(0 <= v <= u64::MAX);
            assert(x == v);
            let a = s1 * 0x4_0000_0000 + (p + 874) * 0x80_0000 + t * d;
            assert(v == a * 0x2000_0000);
            lemma_multiple_of_2_29(a);
        }
    }
}

} // verus!
