//! Exact integer models of the binary64 arithmetic behind the compact count
//! and byte renderings: conversion of an integer to binary64, division of two
//! such values, and round-half-to-even decimal rounding of the result.

use vstd::prelude::*;
use vstd::arithmetic::power2::{pow2, lemma_pow2_unfold, lemma_pow2_pos, lemma_pow2_adds,
    lemma_pow2_strictly_increases, lemma2_to64};
use vstd::arithmetic::div_mod::{lemma_fundamental_div_mod, lemma_fundamental_div_mod_converse};


verus! {

/// `num / den` rounded to the nearest integer, ties to the even neighbour.
pub open spec fn round_half_even(num: nat, den: nat) -> nat {
    if den == 0 {
        0
    } else {
        let q = num / den;
        let r = num % den;
        if 2 * r > den || (2 * r == den && q % 2 == 1) {
            q + 1
        } else {
            q
        }
    }
}

/// Number of binary digits of `n` (0 for 0).
pub open spec fn bit_len(n: nat) -> nat
    decreases n,
{
    if n == 0 {
        0
    } else {
        1 + bit_len(n / 2)
    }
}

/// The value the integer `n` takes once converted to binary64: rounded to 53
/// significant bits, ties to even.
pub open spec fn f64_of_int(n: nat) -> nat {
    if bit_len(n) <= 53 {
        n
    } else {
        let k = (bit_len(n) - 53) as nat;
        round_half_even(n, pow2(k)) * pow2(k)
    }
}

/// The least `s >= from` with `num * 2^s >= 2^52 * den`: the binary64
/// quotient `num / den` has significand `round(num * 2^s / den)` and
/// exponent `-s`.
pub open spec fn quotient_shift(num: nat, den: nat, from: nat) -> nat
    decreases 128 - from,
{
    if from >= 128 || num * pow2(from) >= pow2(52) * den {
        from
    } else {
        quotient_shift(num, den, from + 1)
    }
}

/// The binary64 quotient `num / den` (both exact binary64 integers, the
/// quotient at least 1) rendered to one decimal, as a count of tenths:
/// binary64 division rounds to nearest-even, and the decimal rendering
/// rounds the exact binary value half to even.
pub open spec fn quotient_tenths(num: nat, den: nat) -> nat {
    let s = quotient_shift(num, den, 0);
    let m = round_half_even(num * pow2(s), den);
    round_half_even(10 * m, pow2(s))
}

proof fn lemma_round_half_even_bound(num: nat, den: nat)
    requires
        den > 0,
    ensures
        round_half_even(num, den) <= num / den + 1,
        round_half_even(num, den) * den <= num + den,
{
    lemma_fundamental_div_mod(num as int, den as int);
    let q = num / den;
    assert(q * den <= num) by (nonlinear_arith)
        requires num == den * q + num % den, num % den >= 0;
    assert((q + 1) * den == q * den + den) by (nonlinear_arith);
}

/// Round `num / den` to the nearest integer, ties to even.
pub fn div_round_half_even(num: u128, den: u128) -> (r: u128)
    requires
        den > 0,
        num < u128::MAX,
    ensures
        r == round_half_even(num as nat, den as nat),
        r <= num / den + 1,
{
    let q = num / den;
    let rem = num % den;
    proof {
        lemma_round_half_even_bound(num as nat, den as nat);
    }
    if rem > den - rem || (rem == den - rem && q % 2 == 1) {
        q + 1
    } else {
        q
    }
}

proof fn lemma_pow2_128()
    ensures
        pow2(64) == 0x1_0000_0000_0000_0000,
        pow2(128) == 0x1_0000_0000_0000_0000 * 0x1_0000_0000_0000_0000nat,
{
    lemma2_to64();
    lemma_pow2_adds(64, 64);
}

/// `2^e` as an integer.
pub fn pow2_u128(e: u32) -> (p: u128)
    requires
        e < 128,
    ensures
        p == pow2(e as nat),
{
    let mut p: u128 = 1;
    let mut i: u32 = 0;
    proof {
        lemma2_to64();
        lemma_pow2_128();
    }
    while i < e
        invariant
            i <= e < 128,
            p == pow2(i as nat),
            pow2(128) == 0x1_0000_0000_0000_0000 * 0x1_0000_0000_0000_0000nat,
        decreases e - i,
    {
        proof {
            lemma_pow2_unfold((i + 1) as nat);
            lemma_pow2_strictly_increases((i + 1) as nat, 128);
        }
        p = p * 2;
        i = i + 1;
    }
    p
}

pub(crate) proof fn lemma_bit_len_bound(n: nat, k: nat)
    requires
        n < pow2(k),
    ensures
        bit_len(n) <= k,
    decreases n,
{
    if n > 0 {
        if k == 0 {
            lemma2_to64();
        } else {
            lemma_pow2_unfold(k);
            lemma_bit_len_bound(n / 2, (k - 1) as nat);
        }
    }
}

/// Number of binary digits of `n`.
pub fn bit_length(n: u128) -> (r: u32)
    ensures
        r == bit_len(n as nat),
        r <= 128,
{
    let mut m: u128 = n;
    let mut c: u32 = 0;
    proof {
        lemma_pow2_128();
        lemma_bit_len_bound(n as nat, 128);
    }
    while m > 0
        invariant
            bit_len(n as nat) == c + bit_len(m as nat),
            bit_len(n as nat) <= 128,
        decreases m,
    {
        m = m / 2;
        c = c + 1;
    }
    c
}

/// The binary64 value of `b` (rounded to 53 significant bits, ties to even),
/// as an integer.
pub fn f64_of_u64(b: u64) -> (m: u128)
    ensures
        m == f64_of_int(b as nat),
        m <= b + 2048,
        m + 2048 >= b,
        b < 0x20_0000_0000_0000 ==> m == b,
{
    let bl = bit_length(b as u128);
    proof {
        lemma2_to64();
        lemma_bit_len_bound(b as nat, 64);
        if b < 0x20_0000_0000_0000 {
            lemma_pow2_adds(32, 21);
            lemma_bit_len_bound(b as nat, 53);
        }
    }
    if bl <= 53 {
        b as u128
    } else {
        let k = bl - 53;
        let p = pow2_u128(k);
        proof {
            lemma_pow2_strictly_increases(k as nat, 12);
            lemma_round_half_even_bound(b as nat, p as nat);
            assert(pow2(12) == 4096) by { lemma2_to64(); }
        }
        let q = div_round_half_even(b as u128, p);
        proof {
            assert(q * p <= b + p);
            let bi = b as int;
            let pi = p as int;
            lemma_fundamental_div_mod(bi, pi);
            assert(q >= bi / pi);
            assert(q * pi >= (bi / pi) * pi) by (nonlinear_arith)
                requires q >= bi / pi, pi >= 0;
            assert((bi / pi) * pi + 2048 >= bi) by (nonlinear_arith)
                requires bi == pi * (bi / pi) + bi % pi, bi % pi < pi, pi <= 2048;
        }
        q * p
    }
}

/// The tenths of the binary64 quotient `num / den` (see `quotient_tenths`).
pub fn div_tenths(num: u128, den: u128) -> (t: u128)
    requires
        1 <= den <= 0x10_0000,
        den <= num,
        num < pow2(52) * den,
    ensures
        t == quotient_tenths(num as nat, den as nat),
        t <= 5 * pow2(53) + 1,
{
    proof {
        lemma2_to64();
    }
    let bound: u128 = 0x10_0000_0000_0000u128 * den;
    proof {
        assert(pow2(52) == 0x10_0000_0000_0000) by { lemma2_to64(); lemma_pow2_adds(32, 20); }
        assert(bound <= 0x10_0000_0000_0000u128 * 0x10_0000) by (nonlinear_arith)
            requires bound == 0x10_0000_0000_0000u128 * den, den <= 0x10_0000;
    }
    let mut t: u128 = num;
    let mut p: u128 = 1;
    let mut s: u32 = 0;
    while t < bound
        invariant
            1 <= den <= 0x10_0000,
            den <= num,
            bound == pow2(52) * den,
            bound <= 0x10_0000_0000_0000u128 * 0x10_0000,
            pow2(52) == 0x10_0000_0000_0000,
            s <= 52,
            p == pow2(s as nat),
            t == num * p,
            (s > 0 ==> t < 2 * bound),
            quotient_shift(num as nat, den as nat, 0) == quotient_shift(num as nat, den as nat, s as nat),
        decreases 52 - s,
    {
        proof {
            lemma_pow2_unfold((s + 1) as nat);
            if s >= 52 {
                assert(num * p >= den * pow2(52)) by (nonlinear_arith)
                    requires num >= den, p == pow2(52), den >= 1;
                assert(false);
            }
            assert(p <= t) by (nonlinear_arith)
                requires t == num * p, num >= 1, p >= 0;
        }
        t = t * 2;
        p = p * 2;
        s = s + 1;
        proof {
            assert(t == num * p) by (nonlinear_arith)
                requires t == 2 * (num * (p / 2)), p % 2 == 0;
        }
    }
    proof {
        assert(quotient_shift(num as nat, den as nat, s as nat) == s);
        assert(s > 0) by {
            if s == 0 { assert(num < bound); }
        }
    }
    let m = div_round_half_even(t, den);
    proof {
        lemma_round_half_even_bound(t as nat, den as nat);
        assert(t / den < 2 * pow2(52)) by (nonlinear_arith)
            requires t < 2 * bound, bound == pow2(52) * den, den >= 1;
        lemma_pow2_unfold(53);
        lemma_pow2_unfold(s as nat);
    }
    let tenths = div_round_half_even(10 * m, p);
    proof {
        lemma_pow2_pos(s as nat);
        assert((10 * m) as int / p as int <= 5 * m) by (nonlinear_arith)
            requires p >= 2;
    }
    tenths
}

/// Shifting a positive number left by `m` places adds `m` binary digits.
pub(crate) proof fn lemma_bit_len_shift(s: nat, m: nat)
    requires
        s > 0,
    ensures
        bit_len(s * pow2(m)) == bit_len(s) + m,
    decreases m,
{
    if m > 0 {
        lemma_bit_len_shift(s, (m - 1) as nat);
        lemma_pow2_unfold(m);
        let x = s * pow2((m - 1) as nat);
        assert(s * pow2(m) == 2 * x) by (nonlinear_arith)
            requires pow2(m) == 2 * pow2((m - 1) as nat), x == s * pow2((m - 1) as nat);
        lemma_pow2_pos((m - 1) as nat);
        assert(x > 0) by (nonlinear_arith)
            requires s > 0, pow2((m - 1) as nat) > 0, x == s * pow2((m - 1) as nat);
        assert((2 * x) / 2 == x);
    } else {
        assert(pow2(0) == 1) by { lemma2_to64(); }
    }
}

/// A number between `2^l` and `2^(l+1)` has `l + 1` binary digits.
pub(crate) proof fn lemma_bit_len_range(s: nat, l: nat)
    requires
        pow2(l) <= s < pow2(l + 1),
    ensures
        bit_len(s) == l + 1,
    decreases l,
{
    if l == 0 {
        lemma2_to64();
        assert(s == 1);
        assert(bit_len(0) == 0);
        assert(bit_len(1) == 1 + bit_len(0));
    } else {
        lemma_pow2_unfold(l);
        lemma_pow2_unfold(l + 1);
        lemma_bit_len_range(s / 2, (l - 1) as nat);
    }
}

/// Rounding `s * 2^m` to a multiple of `2^(m+j)` rounds `s` to a multiple
/// of `2^j`.
pub(crate) proof fn lemma_rhe_scaled(s: nat, m: nat, j: nat)
    ensures
        round_half_even(s * pow2(m), pow2(m + j)) == round_half_even(s, pow2(j)),
{
    lemma_pow2_pos(m);
    lemma_pow2_pos(j);
    lemma_pow2_adds(m, j);
    let p = pow2(m);
    let d = pow2(j);
    let q = s / d;
    let r = s % d;
    lemma_fundamental_div_mod(s as int, d as int);
    assert(s * p == (p * d) * q + r * p) by (nonlinear_arith)
        requires s == d * q + r;
    assert(r * p < p * d) by (nonlinear_arith)
        requires r < d, p > 0;
    lemma_fundamental_div_mod_converse((s * p) as int, (p * d) as int, q as int, (r * p) as int);
    assert(2 * (r * p) > p * d <==> 2 * r > d) by (nonlinear_arith)
        requires p > 0;
    assert(2 * (r * p) == p * d <==> 2 * r == d) by (nonlinear_arith)
        requires p > 0;
}

/// Dividing `s * 2^m` by `2^k`, `k <= m`, is exact.
pub(crate) proof fn lemma_rhe_exact(s: nat, m: nat, k: nat)
    requires
        k <= m,
    ensures
        round_half_even(s * pow2(m), pow2(k)) == s * pow2((m - k) as nat),
{
    lemma_pow2_pos(k);
    lemma_pow2_adds((m - k) as nat, k);
    let x = s * pow2((m - k) as nat);
    assert(s * pow2(m) == x * pow2(k)) by (nonlinear_arith)
        requires pow2(m) == pow2((m - k) as nat) * pow2(k), x == s * pow2((m - k) as nat);
    lemma_fundamental_div_mod_converse((x * pow2(k)) as int, pow2(k) as int, x as int, 0);
}
/// A number of at most `n` binary digits lies below `2^n`.
pub(crate) proof fn lemma_bit_len_below(x: nat, n: nat)
    requires
        bit_len(x) <= n,
    ensures
        x < pow2(n),
    decreases x,
{
    lemma_pow2_pos(n);
    if x > 0 {
        lemma_pow2_unfold(n);
        lemma_bit_len_below(x / 2, (n - 1) as nat);
    }
}

/// Scaling a fraction's numerator and denominator alike leaves its rounding
/// unchanged.
pub(crate) proof fn lemma_rhe_common_factor(x: nat, d: nat, p: nat)
    requires
        d > 0,
        p > 0,
    ensures
        round_half_even(x * p, d * p) == round_half_even(x, d),
{
    let q = x / d;
    let r = x % d;
    lemma_fundamental_div_mod(x as int, d as int);
    assert(x * p == q * (d * p) + r * p) by (nonlinear_arith)
        requires x == d * q + r;
    assert(r * p < d * p) by (nonlinear_arith)
        requires r < d, p > 0;
    lemma_fundamental_div_mod_converse((x * p) as int, (d * p) as int, q as int, (r * p) as int);
    assert(2 * (r * p) > d * p <==> 2 * r > d) by (nonlinear_arith)
        requires p > 0;
    assert(2 * (r * p) == d * p <==> 2 * r == d) by (nonlinear_arith)
        requires p > 0;
}

/// A fraction below one half rounds to zero.
pub(crate) proof fn lemma_rhe_small(x: nat, d: nat)
    requires
        2 * x < d,
    ensures
        round_half_even(x, d) == 0,
{
    lemma_fundamental_div_mod_converse(x as int, d as int, 0, x as int);
}

/// A positive number of `l` binary digits is at least `2^(l-1)`.
pub(crate) proof fn lemma_bit_len_lower(f: nat)
    requires
        f >= 1,
    ensures
        bit_len(f) >= 1,
        pow2((bit_len(f) - 1) as nat) <= f,
    decreases f,
{
    if f == 1 {
        assert(bit_len(0) == 0);
        lemma2_to64();
    } else {
        lemma_bit_len_lower(f / 2);
        lemma_pow2_unfold((bit_len(f) - 1) as nat);
    }
}

/// Scaling the numerator of a quotient of at least one by `2^m` adds `m`
/// binary digits to the quotient's whole part.
pub(crate) proof fn lemma_bit_len_quotient_shift(a: nat, d: nat, m: nat)
    requires
        d > 0,
        a / d >= 1,
    ensures
        bit_len((a * pow2(m)) / d) == bit_len(a / d) + m,
{
    let f = a / d;
    let b = bit_len(f);
    lemma_bit_len_lower(f);
    lemma_bit_len_below(f, b);
    lemma_pow2_pos(m);
    lemma_pow2_adds((b - 1) as nat, m);
    lemma_pow2_adds(b, m);
    lemma_fundamental_div_mod(a as int, d as int);
    let g = (a * pow2(m)) / d;
    lemma_fundamental_div_mod((a * pow2(m)) as int, d as int);
    // f * 2^m <= g: d * (f * 2^m) <= a * 2^m.
    assert(d * (f * pow2(m)) <= a * pow2(m)) by (nonlinear_arith)
        requires a == d * f + a % d, a % d >= 0, pow2(m) > 0;
    assert(f * pow2(m) <= g) by (nonlinear_arith)
        requires d * (f * pow2(m)) <= a * pow2(m), g == (a * pow2(m)) / d, d > 0,
            a * pow2(m) == d * g + (a * pow2(m)) % d, (a * pow2(m)) % d < d, (a * pow2(m)) % d >= 0;
    // g < (f + 1) * 2^m: a * 2^m < d * (f + 1) * 2^m.
    let r = a % d;
    assert(a * pow2(m) < d * ((f + 1) * pow2(m))) by (nonlinear_arith)
        requires a == d * f + r, 0 <= r < d, pow2(m) > 0, d > 0;
    assert(g < (f + 1) * pow2(m)) by (nonlinear_arith)
        requires a * pow2(m) < d * ((f + 1) * pow2(m)), g == (a * pow2(m)) / d, d > 0,
            a * pow2(m) == d * g + (a * pow2(m)) % d, (a * pow2(m)) % d >= 0;
    assert(pow2((b - 1) as nat) * pow2(m) <= f * pow2(m)) by (nonlinear_arith)
        requires pow2((b - 1) as nat) <= f, pow2(m) > 0;
    assert((f + 1) * pow2(m) <= pow2(b) * pow2(m)) by (nonlinear_arith)
        requires f < pow2(b), pow2(m) > 0;
    lemma_bit_len_range(g, (b - 1 + m) as nat);
}

/// Scaling a fraction's numerator and denominator alike leaves its whole
/// part unchanged.
pub(crate) proof fn lemma_div_common_factor(x: nat, d: nat, p: nat)
    requires
        d > 0,
        p > 0,
    ensures
        (x * p) / (d * p) == x / d,
{
    let q = x / d;
    let r = x % d;
    lemma_fundamental_div_mod(x as int, d as int);
    assert(x * p == q * (d * p) + r * p) by (nonlinear_arith)
        requires x == d * q + r;
    assert(r * p < d * p) by (nonlinear_arith)
        requires r < d, p > 0;
    lemma_fundamental_div_mod_converse((x * p) as int, (d * p) as int, q as int, (r * p) as int);
}

} // verus!
