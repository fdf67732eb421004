//! Exact integer model of the single-precision addition that sums the rates
//! of the two halves of a connection.

use vstd::prelude::*;
use vstd::arithmetic::power2::{pow2, lemma_pow2_unfold, lemma_pow2_pos, lemma_pow2_adds,
    lemma_pow2_strictly_increases, lemma2_to64};
use vstd::arithmetic::div_mod::lemma_fundamental_div_mod_converse;
use crate::flow::Rate;
use crate::rounding::{round_half_even, bit_len, bit_length, pow2_u128, div_round_half_even,
    lemma_bit_len_bound, lemma_bit_len_shift, lemma_bit_len_range, lemma_rhe_scaled, lemma_rhe_exact,
    lemma_bit_len_below};

verus! {

/// The bits of a rate without its sign bit.
pub open spec fn mag_of(r: Rate) -> nat {
    (r.bits as nat) % 0x8000_0000
}

pub open spec fn sign_set(r: Rate) -> bool {
    r.bits >= 0x8000_0000
}

/// A rate that is a number: not a NaN.
pub open spec fn rate_ok(r: Rate) -> bool {
    mag_of(r) <= 0x7f80_0000
}

/// Whether two numbers have a sum that is a number: they are not infinities
/// of opposite signs.
pub open spec fn sum_defined(a: Rate, b: Rate) -> bool {
    !(is_infinite(a) && is_infinite(b) && sign_set(a) != sign_set(b))
}

pub open spec fn is_infinite(r: Rate) -> bool {
    mag_of(r) == 0x7f80_0000
}

pub open spec fn biased_exp(r: Rate) -> nat {
    mag_of(r) / 0x80_0000
}

/// The integer significand (with the implicit leading bit for normal values).
pub open spec fn significand(r: Rate) -> nat {
    let f = mag_of(r) % 0x80_0000;
    if biased_exp(r) == 0 { f } else { f + 0x80_0000 }
}

/// The power of two the significand is scaled by, counted from the smallest
/// subnormal step `2^-149`.
pub open spec fn scale(r: Rate) -> nat {
    if biased_exp(r) == 0 { 0 } else { (biased_exp(r) - 1) as nat }
}

/// The value of a finite rate in units of `2^-149`.
pub open spec fn units(r: Rate) -> nat {
    significand(r) * pow2(scale(r))
}

pub open spec fn inf_bits() -> u32 {
    0x7f80_0000
}

/// The rate nearest to `t` units of `2^-149` (ties to even), or infinity
/// past the largest finite value.
pub open spec fn rate_of_units(t: nat) -> Rate {
    let l = bit_len(t);
    let k0: nat = if l > 24 { (l - 24) as nat } else { 0 };
    let q0 = round_half_even(t, pow2(k0));
    let q: nat = if q0 == 0x100_0000 { 0x80_0000 } else { q0 };
    let k: nat = if q0 == 0x100_0000 { k0 + 1 } else { k0 };
    if q < 0x80_0000 {
        Rate { bits: q as u32 }
    } else if k + 1 > 254 {
        Rate { bits: inf_bits() }
    } else {
        Rate { bits: ((k + 1) * 0x80_0000 + (q - 0x80_0000)) as u32 }
    }
}

/// The value of a finite rate in units of `2^-149`, with its sign.
pub open spec fn signed_units(r: Rate) -> int {
    if sign_set(r) {
        -(units(r) as int)
    } else {
        units(r) as int
    }
}

/// A positive rate with its sign bit set.
pub open spec fn negated(r: Rate) -> Rate {
    Rate { bits: (r.bits + 0x8000_0000) as u32 }
}

/// The quiet NaN a sum gives when it is not a number (the sign and payload
/// of such a NaN are left open by the language; this one is the canonical
/// positive quiet NaN).
pub open spec fn nan_rate() -> Rate {
    Rate { bits: 0x7fc0_0000 }
}

/// The single-precision sum of two rates, rounded to nearest-even: a NaN
/// when either is a NaN or they are infinities of opposite signs; an
/// infinity when either is one; when the exact sum is zero, a zero that is
/// negative only when both operands are negative; else the rate nearest to
/// the exact sum, with its sign.
pub open spec fn rate_sum(a: Rate, b: Rate) -> Rate {
    if !rate_ok(a) || !rate_ok(b) || !sum_defined(a, b) {
        nan_rate()
    } else if is_infinite(a) {
        a
    } else if is_infinite(b) {
        b
    } else {
        let v = signed_units(a) + signed_units(b);
        if v == 0 {
            Rate { bits: if sign_set(a) && sign_set(b) { 0x8000_0000u32 } else { 0u32 } }
        } else if v > 0 {
            rate_of_units(v as nat)
        } else {
            negated(rate_of_units((-v) as nat))
        }
    }
}

/// Facts about the decoding of a finite rate.
proof fn lemma_decode(r: Rate)
    requires
        rate_ok(r),
        !is_infinite(r),
    ensures
        mag_of(r) == biased_exp(r) * 0x80_0000 + mag_of(r) % 0x80_0000,
        biased_exp(r) <= 254,
        significand(r) < 0x100_0000,
        biased_exp(r) > 0 ==> significand(r) >= 0x80_0000,
        scale(r) <= 253,
        r.bits == mag_of(r) + if sign_set(r) { 0x8000_0000nat } else { 0nat },
        significand(r) == 0 <==> mag_of(r) == 0,
{
}

proof fn lemma_big_gap(hs: nat, hu: nat, ls: nat, lu: nat, e: nat, f: nat)
    requires
        0x80_0000 <= hs < 0x100_0000,
        ls < 0x100_0000,
        hu >= lu + 26,
        hu + 1 == e,
        e <= 254,
        hs == f + 0x80_0000,
    ensures
        rate_of_units(hs * pow2(hu) + ls * pow2(lu)) == (Rate { bits: (e * 0x80_0000 + f) as u32 }),
{
    let d = (hu - lu) as nat;
    lemma_pow2_adds(lu, d);
    lemma_pow2_adds(23, d);
    lemma_pow2_adds(24, d);
    lemma_pow2_adds(26, (d - 26) as nat);
    lemma_pow2_pos(lu);
    lemma_pow2_pos((d - 26) as nat);
    lemma2_to64();
    let pd = pow2(d);
    let s = hs * pd + ls;
    assert(pd >= 0x400_0000) by (nonlinear_arith)
        requires pd == pow2(26) * pow2((d - 26) as nat), pow2(26) == 0x400_0000, pow2((d - 26) as nat) >= 1;
    assert(hs * pow2(hu) + ls * pow2(lu) == s * pow2(lu)) by (nonlinear_arith)
        requires pow2(hu) == pow2(lu) * pd, s == hs * pd + ls;
    assert(pow2(23 + d) <= s < pow2(24 + d)) by (nonlinear_arith)
        requires pow2(23 + d) == 0x80_0000 * pd, pow2(24 + d) == 0x100_0000 * pd,
            0x80_0000 <= hs < 0x100_0000, ls < pd, s == hs * pd + ls;
    lemma_bit_len_range(s, 23 + d);
    assert(s > 0);
    lemma_bit_len_shift(s, lu);
    let t = s * pow2(lu);
    assert(bit_len(t) == 24 + hu);
    lemma_rhe_scaled(s, lu, d);
    lemma_fundamental_div_mod_converse(s as int, pd as int, hs as int, ls as int);
    assert(round_half_even(s, pd) == hs);
    assert(round_half_even(t, pow2(hu)) == hs);
}

/// The significand and scale of a finite rate.
pub(crate) fn decode(r: Rate) -> (out: (u64, u64))
    requires
        rate_ok(r),
        !is_infinite(r),
    ensures
        out.0 == significand(r),
        out.1 == scale(r),
        out.0 < 0x100_0000,
        out.1 <= 253,
        scale(r) > 0 ==> out.0 >= 0x80_0000,
        units(r) == out.0 * pow2(out.1 as nat),
        units(r) == 0 <==> out.0 == 0,
{
    proof {
        lemma_decode(r);
    }
    let m: u64 = (r.bits % 0x8000_0000) as u64;
    let e = m / 0x80_0000;
    let sig: u64 = if e == 0 { m % 0x80_0000 } else { m % 0x80_0000 + 0x80_0000 };
    let sc: u64 = if e == 0 { 0 } else { e - 1 };
    proof {
        lemma_pow2_pos(sc as nat);
        assert(units(r) == 0 <==> sig == 0) by (nonlinear_arith)
            requires units(r) == sig * pow2(sc as nat), pow2(sc as nat) > 0;
    }
    (sig, sc)
}

/// The rate nearest to `s * 2^lu` units, for a sum `s` of two significands
/// that lie at most 25 binary places apart.
fn round_units(s: u64, lu: u64) -> (r: Rate)
    requires
        0 < s < 0x8_0000_0000_0000,
        lu <= 253,
    ensures
        r == rate_of_units((s as nat) * pow2(lu as nat)),
        r.bits < 0x8000_0000,
        rate_ok(r),
{
    let ghost total: nat = (s as nat) * pow2(lu as nat);
    proof {
        lemma_bit_len_shift(s as nat, lu as nat);
        lemma_bit_len_below(s as nat, bit_len(s as nat));
        assert(pow2(51) == 0x8_0000_0000_0000) by {
            lemma2_to64();
            lemma_pow2_adds(32, 19);
        }
        lemma_bit_len_bound(s as nat, 51);
    }
    let ls_bits = bit_length(s as u128);
    let l: u64 = ls_bits as u64 + lu;
    let k0: u64 = if l > 24 { l - 24 } else { 0 };
    let q0: u64 = if k0 <= lu {
        let sh = lu - k0;
        proof {
            lemma_rhe_exact(s as nat, lu as nat, k0 as nat);
            lemma_bit_len_shift(s as nat, sh as nat);
            lemma_bit_len_below((s * pow2(sh as nat)) as nat, 24);
            lemma2_to64();
            if sh >= 64 {
                lemma_pow2_strictly_increases(24, sh as nat);
                assert(s * pow2(sh as nat) >= pow2(sh as nat)) by (nonlinear_arith)
                    requires s >= 1;
            }
        }
        let p = pow2_u128(sh as u32) as u64;
        s * p
    } else {
        let j = k0 - lu;
        proof {
            lemma_rhe_scaled(s as nat, lu as nat, j as nat);
            assert(j <= 27);
            lemma_pow2_strictly_increases(j as nat, 28);
            lemma2_to64();
            lemma_pow2_adds(j as nat, 24);
            lemma_pow2_pos(j as nat);
        }
        let p = pow2_u128(j as u32) as u64;
        let q = div_round_half_even(s as u128, p as u128);
        proof {
            assert(s as int / p as int <= 0x100_0000 - 1) by (nonlinear_arith)
                requires s < pow2(j as nat + 24), pow2(j as nat + 24) == p * 0x100_0000, p > 0;
        }
        q as u64
    };
    proof {
        assert(q0 == round_half_even(total, pow2(k0 as nat)));
        assert(q0 <= 0x100_0000);
    }
    let q: u64 = if q0 == 0x100_0000 { 0x80_0000 } else { q0 };
    let k: u64 = if q0 == 0x100_0000 { k0 + 1 } else { k0 };
    if q < 0x80_0000 {
        Rate { bits: q as u32 }
    } else if k + 1 > 254 {
        Rate { bits: 0x7f80_0000 }
    } else {
        Rate { bits: ((k + 1) * 0x80_0000 + (q - 0x80_0000)) as u32 }
    }
}

/// When the larger of two magnitudes lies more than 25 binary places above
/// the smaller, taking the smaller away rounds back to the larger.
proof fn lemma_big_gap_sub(hs: nat, hu: nat, ls: nat, lu: nat, e: nat, f: nat)
    requires
        0x80_0000 <= hs < 0x100_0000,
        ls < 0x100_0000,
        hu >= lu + 26,
        hu + 1 == e,
        e <= 254,
        hs == f + 0x80_0000,
    ensures
        hs * pow2(hu) >= ls * pow2(lu),
        rate_of_units((hs * pow2(hu) - ls * pow2(lu)) as nat) == (Rate { bits: (e * 0x80_0000 + f) as u32 }),
{
    let d = (hu - lu) as nat;
    lemma_pow2_adds(lu, d);
    lemma_pow2_adds(23, d);
    lemma_pow2_adds(24, d);
    lemma_pow2_adds(22, d);
    lemma_pow2_adds(26, (d - 26) as nat);
    lemma_pow2_pos(lu);
    lemma_pow2_pos((d - 26) as nat);
    lemma2_to64();
    let pd = pow2(d);
    assert(pd >= 0x400_0000) by (nonlinear_arith)
        requires pd == pow2(26) * pow2((d - 26) as nat), pow2(26) == 0x400_0000, pow2((d - 26) as nat) >= 1;
    let s = (hs * pd - ls) as nat;
    assert(hs * pd >= 0x80_0000 * pd) by (nonlinear_arith)
        requires hs >= 0x80_0000, pd > 0;
    assert(hs * pow2(hu) - ls * pow2(lu) == s * pow2(lu)) by (nonlinear_arith)
        requires pow2(hu) == pow2(lu) * pd, s == hs * pd - ls, hs * pd >= ls;
    assert(hs * pow2(hu) >= ls * pow2(lu)) by (nonlinear_arith)
        requires pow2(hu) == pow2(lu) * pd, hs * pd >= ls, pow2(lu) > 0;
    let t = s * pow2(lu);
    if hs > 0x80_0000 || ls == 0 {
        // The difference stays in the binade of the larger magnitude.
        assert(pow2(23 + d) <= s < pow2(24 + d)) by (nonlinear_arith)
            requires pow2(23 + d) == 0x80_0000 * pd, pow2(24 + d) == 0x100_0000 * pd,
                0x80_0000 <= hs < 0x100_0000, ls < 0x100_0000, pd >= 0x400_0000, s == hs * pd - ls,
                hs > 0x80_0000 || ls == 0;
        lemma_bit_len_range(s, 23 + d);
        lemma_bit_len_shift(s, lu);
        assert(bit_len(t) == 24 + hu);
        lemma_rhe_scaled(s, lu, d);
        if ls == 0 {
            lemma_fundamental_div_mod_converse(s as int, pd as int, hs as int, 0);
        } else {
            assert(s == (hs - 1) * pd + (pd - ls)) by (nonlinear_arith)
                requires s == hs * pd - ls, hs >= 1;
            lemma_fundamental_div_mod_converse(s as int, pd as int, (hs - 1) as int, (pd - ls) as int);
        }
        assert(round_half_even(s, pd) == hs);
        assert(round_half_even(t, pow2(hu)) == hs);
    } else {
        // The larger magnitude is a power of two: the difference falls just
        // below it, where the next rate up is the larger magnitude itself.
        let h = pow2((d - 1) as nat);
        lemma_pow2_unfold(d);
        lemma_pow2_adds(23, (d - 1) as nat);
        lemma_pow2_adds(24, (d - 1) as nat);
        assert(pow2(22 + d) <= s < pow2(23 + d)) by (nonlinear_arith)
            requires pow2(23 + d) == 0x80_0000 * pd, pow2(22 + d) == 0x40_0000 * pd,
                hs == 0x80_0000, 0 < ls < 0x100_0000, pd >= 0x400_0000, s == hs * pd - ls;
        lemma_bit_len_range(s, (22 + d) as nat);
        lemma_bit_len_shift(s, lu);
        assert(bit_len(t) == 23 + hu);
        assert(hu - 1 == lu + (d - 1));
        lemma_rhe_scaled(s, lu, (d - 1) as nat);
        assert(s == 0xff_ffff * h + (h - ls)) by (nonlinear_arith)
            requires pd == 2 * h, s == 0x80_0000 * pd - ls;
        assert(h >= 0x200_0000) by (nonlinear_arith)
            requires pd == 2 * h, pd >= 0x400_0000;
        lemma_fundamental_div_mod_converse(s as int, h as int, 0xff_ffff, (h - ls) as int);
        assert(round_half_even(s, h) == 0x100_0000);
        assert(round_half_even(t, pow2((hu - 1) as nat)) == 0x100_0000);
    }
}

/// The rate nearest to the sum of two magnitudes `hs * 2^hu` and
/// `ls * 2^lu` (in units of `2^-149`), decoded from finite rates.
fn magnitude_sum(hs: u64, hu: u64, ls: u64, lu: u64) -> (r: Rate)
    requires
        hs < 0x100_0000,
        ls < 0x100_0000,
        lu <= hu <= 253,
        hu > 0 ==> hs >= 0x80_0000,
        hs > 0 || ls > 0,
    ensures
        r == rate_of_units((hs * pow2(hu as nat) + ls * pow2(lu as nat)) as nat),
        r.bits < 0x8000_0000,
        rate_ok(r),
{
    let ghost total: nat = (hs * pow2(hu as nat) + ls * pow2(lu as nat)) as nat;
    let d = hu - lu;
    if d > 25 {
        proof {
            lemma_big_gap(hs as nat, hu as nat, ls as nat, lu as nat, (hu + 1) as nat, (hs - 0x80_0000) as nat);
        }
        return Rate { bits: ((hu + 1) * 0x80_0000 + (hs - 0x80_0000)) as u32 };
    }
    let pd = pow2_u128(d as u32) as u64;
    proof {
        lemma_pow2_strictly_increases(d as nat, 26);
        lemma2_to64();
        assert(hs * pd + ls < 0x8_0000_0000_0000) by (nonlinear_arith)
            requires hs < 0x100_0000, pd < 0x400_0000, ls < 0x100_0000;
    }
    let s: u64 = hs * pd + ls;
    proof {
        lemma_pow2_adds(lu as nat, d as nat);
        assert(total == s * pow2(lu as nat)) by (nonlinear_arith)
            requires pow2(hu as nat) == pow2(lu as nat) * pd, s == hs * pd + ls,
                total == hs * pow2(hu as nat) + ls * pow2(lu as nat);
        assert(s > 0) by (nonlinear_arith)
            requires hs > 0 || ls > 0, pd > 0, s == hs * pd + ls;
    }
    round_units(s, lu)
}

/// The rate nearest to the difference of two magnitudes `hs * 2^hu` and
/// `ls * 2^lu` (in units of `2^-149`), the first the larger.
fn magnitude_diff(hs: u64, hu: u64, ls: u64, lu: u64) -> (r: Rate)
    requires
        hs < 0x100_0000,
        ls < 0x100_0000,
        lu <= hu <= 253,
        hu > 0 ==> hs >= 0x80_0000,
        hs * pow2(hu as nat) > ls * pow2(lu as nat),
    ensures
        r == rate_of_units((hs * pow2(hu as nat) - ls * pow2(lu as nat)) as nat),
        r.bits < 0x8000_0000,
        rate_ok(r),
{
    let ghost total = (hs * pow2(hu as nat) - ls * pow2(lu as nat)) as nat;
    let d = hu - lu;
    if d > 25 {
        proof {
            lemma_big_gap_sub(hs as nat, hu as nat, ls as nat, lu as nat, (hu + 1) as nat, (hs - 0x80_0000) as nat);
        }
        return Rate { bits: ((hu + 1) * 0x80_0000 + (hs - 0x80_0000)) as u32 };
    }
    let pd = pow2_u128(d as u32) as u64;
    proof {
        lemma_pow2_strictly_increases(d as nat, 26);
        lemma2_to64();
        lemma_pow2_adds(lu as nat, d as nat);
        lemma_pow2_pos(lu as nat);
        assert(hs * pd < 0x8_0000_0000_0000) by (nonlinear_arith)
            requires hs < 0x100_0000, pd < 0x400_0000;
        assert(hs * pd > ls) by (nonlinear_arith)
            requires pow2(hu as nat) == pow2(lu as nat) * pd, hs * pow2(hu as nat) > ls * pow2(lu as nat),
                pow2(lu as nat) > 0;
    }
    let s: u64 = hs * pd - ls;
    proof {
        assert(total == s * pow2(lu as nat)) by (nonlinear_arith)
            requires pow2(hu as nat) == pow2(lu as nat) * pd, s == hs * pd - ls,
                total == hs * pow2(hu as nat) - ls * pow2(lu as nat);
    }
    round_units(s, lu)
}

/// `r` with its sign bit set when `neg` holds.
fn with_sign(r: Rate, neg: bool) -> (s: Rate)
    requires
        r.bits < 0x8000_0000,
    ensures
        s == if neg { negated(r) } else { r },
{
    if neg {
        Rate { bits: r.bits + 0x8000_0000 }
    } else {
        r
    }
}

/// The single-precision sum of two rates.
pub fn rate_add(a: Rate, b: Rate) -> (r: Rate)
    ensures
        r == rate_sum(a, b),
        rate_ok(a) && rate_ok(b) && sum_defined(a, b) ==> rate_ok(r),
{
    let am: u32 = a.bits % 0x8000_0000;
    let bm: u32 = b.bits % 0x8000_0000;
    if am > 0x7f80_0000 || bm > 0x7f80_0000 || !sum_is_defined(a, b) {
        return Rate { bits: 0x7fc0_0000 };
    }
    if am == 0x7f80_0000 {
        return a;
    }
    if bm == 0x7f80_0000 {
        return b;
    }
    let (asig, asc) = decode(a);
    let (bsig, bsc) = decode(b);
    let aneg = a.bits >= 0x8000_0000;
    let bneg = b.bits >= 0x8000_0000;
    proof {
        lemma_decode(a);
        lemma_decode(b);
    }
    if asig == 0 && bsig == 0 {
        return Rate { bits: if aneg && bneg { 0x8000_0000 } else { 0 } };
    }
    let (hs, hu, hneg, ls, lu, lneg) = if asc >= bsc {
        (asig, asc, aneg, bsig, bsc, bneg)
    } else {
        (bsig, bsc, bneg, asig, asc, aneg)
    };
    let ghost hv: int = hs * pow2(hu as nat);
    let ghost lv: int = ls * pow2(lu as nat);
    proof {
        assert(signed_units(a) + signed_units(b) == (if hneg { -hv } else { hv }) + (if lneg { -lv } else { lv }));
        lemma_pow2_pos(hu as nat);
        lemma_pow2_pos(lu as nat);
        assert(hv >= 0 && lv >= 0) by (nonlinear_arith)
            requires hv == hs * pow2(hu as nat), lv == ls * pow2(lu as nat);
    }
    if hneg == lneg {
        let m = magnitude_sum(hs, hu, ls, lu);
        proof {
            assert(hv + lv > 0) by (nonlinear_arith)
                requires hv == hs * pow2(hu as nat), lv == ls * pow2(lu as nat), hs > 0 || ls > 0,
                    pow2(hu as nat) > 0, pow2(lu as nat) > 0;
        }
        return with_sign(m, hneg);
    }
    if hu == lu && hs == ls {
        return Rate { bits: 0 };
    }
    if hu > lu || hs > ls {
        proof {
            if hu > lu {
                lemma_pow2_adds(lu as nat, (hu - lu) as nat);
                lemma_pow2_strictly_increases(0, (hu - lu) as nat);
                lemma2_to64();
                assert(hv > lv) by (nonlinear_arith)
                    requires hv == hs * pow2(hu as nat), lv == ls * pow2(lu as nat),
                        pow2(hu as nat) == pow2(lu as nat) * pow2((hu - lu) as nat), pow2((hu - lu) as nat) >= 2,
                        hs >= 0x80_0000, ls < 0x100_0000, pow2(lu as nat) > 0;
            } else {
                assert(hv > lv) by (nonlinear_arith)
                    requires hv == hs * pow2(hu as nat), lv == ls * pow2(lu as nat), hu == lu, hs > ls,
                        pow2(lu as nat) > 0;
            }
        }
        let m = magnitude_diff(hs, hu, ls, lu);
        return with_sign(m, hneg);
    }
    proof {
        assert(lv > hv) by (nonlinear_arith)
            requires hv == hs * pow2(hu as nat), lv == ls * pow2(lu as nat), hu == lu, ls > hs,
                pow2(lu as nat) > 0;
    }
    let m = magnitude_diff(ls, lu, hs, hu);
    with_sign(m, lneg)
}

/// Whether two rates are not infinities of opposite signs (see
/// `sum_defined`).
fn sum_is_defined(a: Rate, b: Rate) -> (r: bool)
    ensures
        r == sum_defined(a, b),
{
    !(a.bits % 0x8000_0000 == 0x7f80_0000 && b.bits % 0x8000_0000 == 0x7f80_0000
        && (a.bits >= 0x8000_0000) != (b.bits >= 0x8000_0000))
}

/// Single-precision addition does not depend on the order of its operands.
pub proof fn lemma_rate_sum_commutes(a: Rate, b: Rate)
    ensures
        rate_sum(a, b) == rate_sum(b, a),
{
}

/// Every finite, non-zero rate is, up to its sign, the rate nearest to its
/// own magnitude.
proof fn lemma_units_round_trip(b: Rate)
    requires
        rate_ok(b),
        !is_infinite(b),
        mag_of(b) > 0,
    ensures
        rate_of_units(units(b)) == (Rate { bits: mag_of(b) as u32 }),
{
    lemma_decode(b);
    lemma2_to64();
    let sig = significand(b);
    let sc = scale(b);
    assert(sig * pow2(0) == sig) by (nonlinear_arith)
        requires pow2(0) == 1;
    if biased_exp(b) == 0 {
        assert(sc == 0);
        assert(units(b) == sig);
        assert(sig < 0x80_0000);
        lemma_pow2_strictly_increases(23, 24);
        lemma_bit_len_bound(sig, 23);
        lemma_rhe_exact(sig, 0, 0);
        assert(round_half_even(sig, 1) == sig);
    } else {
        assert(pow2(23) <= sig < pow2(24));
        lemma_bit_len_range(sig, 23);
        lemma_bit_len_shift(sig, sc);
        lemma_rhe_exact(sig, sc, sc);
        assert(round_half_even(units(b), pow2(sc)) == sig);
    }
}

/// Adding a positive zero to a rate that is a number, other than a negative
/// zero, leaves it unchanged: a connection seen in one direction only
/// carries exactly that direction's rate.
pub proof fn lemma_rate_sum_zero_left(b: Rate)
    requires
        rate_ok(b),
        !(sign_set(b) && mag_of(b) == 0),
    ensures
        rate_sum(Rate { bits: 0 }, b) == b,
{
    let z = Rate { bits: 0 };
    assert(mag_of(z) == 0);
    assert(significand(z) == 0);
    assert(units(z) == 0) by {
        assert(0 * pow2(0) == 0) by (nonlinear_arith);
    }
    if !is_infinite(b) {
        lemma_decode(b);
    }
    if !is_infinite(b) && mag_of(b) > 0 {
        lemma_units_round_trip(b);
        lemma_pow2_pos(scale(b));
        assert(units(b) > 0) by (nonlinear_arith)
            requires units(b) == significand(b) * pow2(scale(b)), significand(b) > 0, pow2(scale(b)) > 0;
    } else if !is_infinite(b) {
        assert(units(b) == 0);
        assert(b.bits == 0);
    }
}

} // verus!
