//! The text of a throughput in the tables and overlays: bytes, kilobytes or
//! megabytes per second, from the single-precision value, divided and
//! rounded exactly as the float division and the fixed-point formatting do.

use vstd::prelude::*;
use vstd::arithmetic::power2::{pow2, lemma2_to64, lemma2_to64_rest, lemma_pow2_adds, lemma_pow2_pos,
    lemma_pow2_strictly_increases};
use crate::flow::Rate;
use crate::ratesum::{decode, is_infinite, mag_of, sign_set, units};
use crate::rounding::{bit_len, bit_length, div_round_half_even, lemma_bit_len_below, lemma_bit_len_lower,
    lemma_bit_len_quotient_shift, lemma_rhe_common_factor, lemma_rhe_exact, lemma_rhe_scaled, lemma_rhe_small,
    pow2_u128, round_half_even};
use crate::text::{dec, digit, digit_char, push_decimal_wide, push_str_text};

verus! {

/// The multiple of `2^k` units nearest to `n / d` units (ties to even), `k`
/// leaving 24 significant binary digits: the single-precision quotient of
/// two values whose quotient is at least one unit.
pub open spec fn quotient_units(n: nat, d: nat) -> nat {
    let l = bit_len(n / d);
    let k: nat = if l > 24 { (l - 24) as nat } else { 0 };
    round_half_even(n, d * pow2(k)) * pow2(k)
}

/// The whole number that `v` units of `2^-149`, times `scale10`, round to
/// (half to even): what a fixed-point rendering with that many tenths or
/// hundredths shows.
pub open spec fn shown(v: nat, scale10: nat) -> nat {
    round_half_even(v * scale10, pow2(149))
}

/// `t` tenths with one decimal.
pub open spec fn fixed1(t: nat) -> Seq<char> {
    dec(t / 10) + seq!['.', digit_char(t % 10)]
}

/// `t` hundredths with two decimals.
pub open spec fn fixed2(t: nat) -> Seq<char> {
    dec(t / 100) + seq!['.', digit_char((t / 10) % 10), digit_char(t % 10)]
}

/// One million bytes per second, in units of `2^-149`.
pub open spec fn mega_units() -> nat {
    1_000_000 * pow2(149)
}

/// One thousand bytes per second, in units of `2^-149`.
pub open spec fn kilo_units() -> nat {
    1000 * pow2(149)
}

/// The text of a rate: from one million up, megabytes per second with two
/// decimals of the single-precision quotient by one million; from one
/// thousand up, kilobytes per second with one decimal of the quotient by
/// one thousand; below, whole bytes per second, a negative value (a
/// negative zero too) with its sign; a NaN and the infinities by name.
pub open spec fn bps_text(r: Rate) -> Seq<char> {
    if mag_of(r) > 0x7f80_0000 {
        "NaN B/s"@
    } else if is_infinite(r) {
        if sign_set(r) {
            "-inf B/s"@
        } else {
            "inf MB/s"@
        }
    } else if sign_set(r) {
        seq!['-'] + dec(shown(units(r), 1)) + " B/s"@
    } else if units(r) >= mega_units() {
        fixed2(shown(quotient_units(units(r), 1_000_000), 100)) + " MB/s"@
    } else if units(r) >= kilo_units() {
        fixed1(shown(quotient_units(units(r), 1000), 10)) + " KB/s"@
    } else {
        dec(shown(units(r), 1)) + " B/s"@
    }
}

/// `sig * 2^sc` units rounded to a whole number.
fn whole(sig: u64, sc: u64) -> (n: u128)
    requires
        sig < 0x100_0000,
        sc <= 253,
    ensures
        n == shown((sig as nat) * pow2(sc as nat), 1),
{
    let ghost v: nat = (sig as nat) * pow2(sc as nat);
    assert(v * 1 == v);
    if sc >= 149 {
        let e = sc - 149;
        proof {
            lemma2_to64();
            lemma_rhe_exact(sig as nat, sc as nat, 149);
            if e < 104 {
                lemma_pow2_strictly_increases(e as nat, 104);
            }
            lemma_pow2_adds(24, 104);
            lemma_pow2_pos(e as nat);
            assert((sig as nat) * pow2(e as nat) < pow2(128)) by (nonlinear_arith)
                requires sig < 0x100_0000, pow2(e as nat) <= pow2(104), pow2(128) == pow2(24) * pow2(104),
                    pow2(24) == 0x100_0000, pow2(e as nat) > 0;
        }
        let p = pow2_u128(e as u32);
        proof {
            assert(pow2(128) == 0x1_0000_0000_0000_0000_0000_0000_0000_0000) by {
                lemma2_to64();
                lemma_pow2_adds(64, 64);
            }
        }
        (sig as u128) * p
    } else {
        let j = 149 - sc;
        proof {
            lemma_rhe_scaled(sig as nat, sc as nat, j as nat);
        }
        if j >= 26 {
            proof {
                lemma_pow2_strictly_increases(25, j as nat);
                lemma2_to64();
                lemma_pow2_adds(1, 24);
                lemma_rhe_small(sig as nat, pow2(j as nat));
            }
            0
        } else {
            proof {
                lemma_pow2_pos(j as nat);
            }
            let p = pow2_u128(j as u32);
            div_round_half_even(sig as u128, p)
        }
    }
}

/// Whether `sig * 2^sc` units (a finite rate's decoding) reach `c` whole
/// units of one.
fn at_least(sig: u64, sc: u64, c: u64) -> (b: bool)
    requires
        sig < 0x100_0000,
        sc <= 253,
        sc > 0 ==> sig >= 0x80_0000,
        0 < c <= 1_000_000,
    ensures
        b == ((sig as nat) * pow2(sc as nat) >= c * pow2(149)),
{
    proof {
        lemma2_to64();
        lemma2_to64_rest();
    }
    if sc >= 149 {
        proof {
            lemma_pow2_adds(149, (sc - 149) as nat);
            lemma_pow2_pos((sc - 149) as nat);
            lemma_pow2_pos(149);
            assert((sig as nat) * pow2(sc as nat) >= c * pow2(149)) by (nonlinear_arith)
                requires sig >= 0x80_0000, c <= 1_000_000, pow2(sc as nat) == pow2(149) * pow2((sc - 149) as nat),
                    pow2((sc - 149) as nat) >= 1, pow2(149) > 0;
        }
        true
    } else {
        let j = 149 - sc;
        proof {
            lemma_pow2_adds(sc as nat, j as nat);
            lemma_pow2_pos(sc as nat);
            assert((sig as nat) * pow2(sc as nat) >= c * pow2(149) <==> sig >= c * pow2(j as nat)) by (nonlinear_arith)
                requires pow2(149) == pow2(sc as nat) * pow2(j as nat), pow2(sc as nat) > 0;
        }
        if j >= 45 {
            proof {
                lemma_pow2_strictly_increases(24, j as nat);
                assert(c * pow2(j as nat) >= pow2(j as nat)) by (nonlinear_arith)
                    requires c >= 1;
            }
            false
        } else {
            proof {
                if j < 44 {
                    lemma_pow2_strictly_increases(j as nat, 44);
                }
                assert(c * pow2(j as nat) < 0x1_0000_0000_0000_0000) by (nonlinear_arith)
                    requires c <= 1_000_000, pow2(j as nat) <= pow2(44), pow2(44) == 0x1000_0000_0000;
            }
            let p = pow2_u128(j as u32) as u64;
            sig >= c * p
        }
    }
}

/// The single-precision quotient of `sig * 2^sc` units by `d`, as
/// `q * 2^k` units, for a quotient of at least one.
fn quotient(sig: u64, sc: u64, d: u64) -> (r: (u64, u64))
    requires
        sig < 0x100_0000,
        sc <= 253,
        sc > 0 ==> sig >= 0x80_0000,
        1000 <= d <= 1_000_000,
        (sig as nat) * pow2(sc as nat) >= d * pow2(149),
    ensures
        r.0 * pow2(r.1 as nat) == quotient_units((sig as nat) * pow2(sc as nat), d as nat),
        r.0 <= 0x100_0000,
        r.1 + 20 >= sc,
        r.1 + 9 <= sc,
{
    let ghost n: nat = (sig as nat) * pow2(sc as nat);
    proof {
        lemma2_to64();
        lemma2_to64_rest();
        // The quotient is at least one, so the scale is at least 126 and the
        // significand normal.
        if sc < 126 {
            if sc < 125 {
                lemma_pow2_strictly_increases(sc as nat, 125);
            }
            lemma_pow2_adds(125, 24);
            lemma_pow2_pos(125);
            assert((sig as nat) * pow2(sc as nat) <= (sig as nat) * pow2(125)) by (nonlinear_arith)
                requires pow2(sc as nat) <= pow2(125);
            assert((sig as nat) * pow2(125) < 0x100_0000 * pow2(125)) by (nonlinear_arith)
                requires sig < 0x100_0000, pow2(125) > 0;
            assert(pow2(149) <= d * pow2(149)) by (nonlinear_arith)
                requires d >= 1000, pow2(149) >= 0;
        }
    }
    let wide: u128 = (sig as u128) * 0x100_0000_0000;
    let a: u128 = wide / (d as u128);
    let ghost a40: nat = (sig as nat) * pow2(40);
    proof {
        lemma_pow2_adds(40, (sc - 40) as nat);
        assert(n == a40 * pow2((sc - 40) as nat)) by (nonlinear_arith)
            requires n == (sig as nat) * pow2(sc as nat), a40 == (sig as nat) * pow2(40),
                pow2(sc as nat) == pow2(40) * pow2((sc - 40) as nat);
        assert(wide == a40);
        // 2^43 <= a < 2^55.
        assert(a40 >= 0x8000_0000_0000_0000) by (nonlinear_arith)
            requires a40 == sig * 0x100_0000_0000, sig >= 0x80_0000;
        assert(a40 < 0x1_0000_0000_0000_0000) by (nonlinear_arith)
            requires a40 == sig * 0x100_0000_0000, sig < 0x100_0000;
        assert(a >= 0x800_0000_0000) by (nonlinear_arith)
            requires a == a40 / (d as nat), a40 >= 0x8000_0000_0000_0000, d <= 1_000_000, d > 0;
        assert(a < 0x80_0000_0000_0000) by (nonlinear_arith)
            requires a == a40 / (d as nat), a40 < 0x1_0000_0000_0000_0000, d >= 1000;
    }
    let b = bit_length(a);
    proof {
        lemma_bit_len_lower(a as nat);
        lemma_bit_len_below(a as nat, b as nat);
        if b < 43 {
            lemma_pow2_strictly_increases(b as nat, 43);
        }
        if b > 56 {
            lemma_pow2_strictly_increases(55, (b - 1) as nat);
        }
        assert(44 <= b <= 55);
        lemma_bit_len_quotient_shift(a40, d as nat, (sc - 40) as nat);
    }
    let k: u64 = b as u64 + sc - 64;
    let sh: u64 = 64 - b as u64;
    let ghost kk: nat = k as nat;
    proof {
        // The whole part of the quotient has b + sc - 40 > 24 digits.
        assert(bit_len(n / (d as nat)) == b + sc - 40);
        lemma_pow2_adds(sh as nat, kk);
        lemma_pow2_pos(kk);
        lemma_pow2_pos(sh as nat);
        assert(n == ((sig as nat) * pow2(sh as nat)) * pow2(kk)) by (nonlinear_arith)
            requires n == (sig as nat) * pow2(sc as nat), pow2(sc as nat) == pow2(sh as nat) * pow2(kk);
        lemma_rhe_common_factor((sig as nat) * pow2(sh as nat), d as nat, pow2(kk));
        assert(round_half_even(n, (d as nat) * pow2(kk)) == round_half_even((sig as nat) * pow2(sh as nat), d as nat));
        lemma_pow2_strictly_increases(sh as nat, 21);
    }
    let p = pow2_u128(sh as u32);
    proof {
        assert((sig as nat) * pow2(sh as nat) < 0x1_0000_0000_0000_0000) by (nonlinear_arith)
            requires sig < 0x100_0000, pow2(sh as nat) < pow2(21), pow2(21) == 0x20_0000;
    }
    let num: u128 = (sig as u128) * p;
    proof {
        // num < d * 2^24, so the rounded quotient is at most 2^24.
        lemma_pow2_adds(sh as nat, (b - 24) as nat);
        lemma_pow2_adds(24, (b - 24) as nat);
        lemma_pow2_pos((b - 24) as nat);
        assert(a40 < (d as nat) * pow2(b as nat)) by (nonlinear_arith)
            requires a == a40 / (d as nat), a < pow2(b as nat), d > 0;
        assert(a40 == num * pow2((b - 24) as nat)) by (nonlinear_arith)
            requires a40 == (sig as nat) * pow2(40), num == (sig as nat) * pow2(sh as nat),
                pow2(40) == pow2(sh as nat) * pow2((b - 24) as nat);
        assert(num < (d as nat) * 0x100_0000) by (nonlinear_arith)
            requires a40 < (d as nat) * pow2(b as nat), a40 == num * pow2((b - 24) as nat),
                pow2(b as nat) == pow2(24) * pow2((b - 24) as nat), pow2(24) == 0x100_0000,
                pow2((b - 24) as nat) > 0;
        assert((num as nat) / (d as nat) < 0x100_0000) by (nonlinear_arith)
            requires num < (d as nat) * 0x100_0000, d > 0;
    }
    let q = div_round_half_even(num, d as u128);
    (q as u64, k)
}

/// `q * 2^k` units times `c`, rounded to a whole number.
fn scaled(q: u64, k: u64, c: u64) -> (t: u128)
    requires
        q <= 0x100_0000,
        k <= 244,
        1 <= c <= 100,
    ensures
        t == shown((q as nat) * pow2(k as nat), c as nat),
{
    proof {
        assert(q * c <= 0x100_0000 * 100) by (nonlinear_arith)
            requires q <= 0x100_0000, c <= 100;
    }
    let qc: u64 = q * c;
    proof {
        lemma2_to64();
        assert(q * pow2(k as nat) * c == qc * pow2(k as nat)) by (nonlinear_arith)
            requires qc == q * c;
    }
    if k >= 149 {
        let e = k - 149;
        proof {
            lemma_rhe_exact(qc as nat, k as nat, 149);
            lemma_pow2_strictly_increases(e as nat, 96);
            lemma_pow2_adds(32, 96);
            lemma_pow2_adds(64, 64);
            lemma_pow2_pos(e as nat);
            assert(qc * pow2(e as nat) < pow2(128)) by (nonlinear_arith)
                requires qc <= 0x100_0000 * 100, pow2(e as nat) < pow2(96), pow2(128) == pow2(32) * pow2(96),
                    pow2(32) == 0x1_0000_0000;
            assert(pow2(128) == 0x1_0000_0000_0000_0000_0000_0000_0000_0000);
        }
        let p = pow2_u128(e as u32);
        (qc as u128) * p
    } else {
        let j = 149 - k;
        proof {
            lemma_rhe_scaled(qc as nat, k as nat, j as nat);
        }
        if j >= 33 {
            proof {
                lemma_pow2_strictly_increases(32, j as nat);
                lemma_rhe_small(qc as nat, pow2(j as nat));
            }
            0
        } else {
            let p = pow2_u128(j as u32);
            proof {
                lemma_pow2_pos(j as nat);
            }
            div_round_half_even(qc as u128, p)
        }
    }
}

/// Append `t` tenths with one decimal.
fn push_fixed1(out: &mut String, t: u128)
    ensures
        final(out)@ == old(out)@ + fixed1(t as nat),
{
    push_decimal_wide(out, t / 10);
    out.push('.');
    out.push(digit((t % 10) as u64));
}

/// Append `t` hundredths with two decimals.
fn push_fixed2(out: &mut String, t: u128)
    ensures
        final(out)@ == old(out)@ + fixed2(t as nat),
{
    push_decimal_wide(out, t / 100);
    out.push('.');
    out.push(digit(((t / 10) % 10) as u64));
    out.push(digit((t % 10) as u64));
}

/// Human-readable bytes per second in a compact column: megabytes with two
/// decimals from one million up, kilobytes with one decimal from one
/// thousand up, else whole bytes (see `bps_text`).
pub fn format_bps(bps: Rate) -> (r: String)
    ensures
        r@ == bps_text(bps),
{
    let m: u32 = bps.bits % 0x8000_0000;
    let neg = bps.bits >= 0x8000_0000;
    if m > 0x7f80_0000 {
        return "NaN B/s".to_string();
    }
    if m == 0x7f80_0000 {
        return if neg { "-inf B/s".to_string() } else { "inf MB/s".to_string() };
    }
    let (sig, sc) = decode(bps);
    let mut out = String::new();
    if neg {
        out.push('-');
        push_decimal_wide(&mut out, whole(sig, sc));
        push_str_text(&mut out, " B/s");
    } else if at_least(sig, sc, 1_000_000) {
        let (q, k) = quotient(sig, sc, 1_000_000);
        push_fixed2(&mut out, scaled(q, k, 100));
        push_str_text(&mut out, " MB/s");
    } else if at_least(sig, sc, 1000) {
        let (q, k) = quotient(sig, sc, 1000);
        push_fixed1(&mut out, scaled(q, k, 10));
        push_str_text(&mut out, " KB/s");
    } else {
        push_decimal_wide(&mut out, whole(sig, sc));
        push_str_text(&mut out, " B/s");
    }
    out
}

/// The traffic text of a probed interface: its packet rate in whole
/// packets per second from one up, else idle.
pub open spec fn probe_rate_text(pps: Rate) -> Seq<char> {
    if mag_of(pps) > 0x7f80_0000 || sign_set(pps) {
        "\u{b7} idle"@
    } else if is_infinite(pps) {
        "\u{25b6} inf pkt/s"@
    } else if units(pps) < pow2(149) {
        "\u{b7} idle"@
    } else {
        seq!['\u{25b6}', ' '] + dec(shown(units(pps), 1)) + " pkt/s"@
    }
}

/// The traffic text of a probed interface (see `probe_rate_text`).
pub fn probe_rate_label(pps: Rate) -> (r: String)
    ensures
        r@ == probe_rate_text(pps),
{
    let m: u32 = pps.bits % 0x8000_0000;
    if m > 0x7f80_0000 || pps.bits >= 0x8000_0000 {
        return "\u{b7} idle".to_string();
    }
    if m == 0x7f80_0000 {
        return "\u{25b6} inf pkt/s".to_string();
    }
    let (sig, sc) = decode(pps);
    if !at_least(sig, sc, 1) {
        return "\u{b7} idle".to_string();
    }
    let mut out = String::new();
    out.push('\u{25b6}');
    out.push(' ');
    push_decimal_wide(&mut out, whole(sig, sc));
    push_str_text(&mut out, " pkt/s");
    out
}

} // verus!
