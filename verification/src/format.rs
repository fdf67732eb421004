//! Compact text renderings of counts, byte totals, durations and clock
//! times, and the service annotation of port numbers.

use vstd::prelude::*;
use vstd::string::*;
use vstd::arithmetic::power2::{pow2, lemma2_to64, lemma_pow2_adds, lemma_pow2_unfold, lemma_pow2_pos,
    lemma_pow2_strictly_increases};
use crate::rounding::{round_half_even, f64_of_int, quotient_tenths, f64_of_u64, div_tenths,
    div_round_half_even, pow2_u128};
use crate::text::{dec, digit, digit_char, is_digit_char, lemma_dec_digits, push_decimal, chars_of, two_digits};

verus! {

/// `s` with a comma before every group of three digits counted from the
/// right (`"1234567"` becomes `"1,234,567"`).
pub open spec fn group_thousands(s: Seq<char>) -> Seq<char>
    decreases s.len(),
{
    if s.len() <= 3 {
        s
    } else {
        group_thousands(s.take(s.len() - 3)) + seq![','] + s.skip(s.len() - 3)
    }
}

/// Decimal rendering of `n` with thousands separators: `1234567` → `"1,234,567"`.
pub fn with_thousands(n: u64) -> (r: String)
    ensures
        r@ == group_thousands(dec(n as nat)),
{
    let mut digits = String::new();
    push_decimal(&mut digits, n);
    let d = chars_of(digits.as_str());
    proof {
        lemma_dec_digits(n as nat);
    }
    let len = d.len();
    let first: usize = if len % 3 == 0 { 3 } else { len % 3 };
    let mut out = String::new();
    let mut i: usize = 0;
    while i < first
        invariant
            d@ == dec(n as nat),
            len == d.len(),
            1 <= first <= 3,
            first <= len,
            i <= first,
            out@ == d@.take(i as int),
        decreases first - i,
    {
        proof {
            assert(d@.take(i + 1) =~= d@.take(i as int).push(d@[i as int]));
        }
        out.push(d[i]);
        i = i + 1;
    }
    let mut k: usize = first;
    while k < len
        invariant
            d@ == dec(n as nat),
            len == d.len(),
            first <= k <= len,
            1 <= first <= 3,
            (len - k) % 3 == 0,
            out@ == group_thousands(d@.take(k as int)),
        decreases len - k,
    {
        let ghost before = d@.take(k as int);
        proof {
            let t = d@.take(k + 3);
            assert(t.take(t.len() - 3) =~= before);
            assert(t.skip(t.len() - 3) =~= seq![d@[k as int], d@[k + 1], d@[k + 2]]);
        }
        out.push(',');
        out.push(d[k]);
        out.push(d[k + 1]);
        out.push(d[k + 2]);
        k = k + 3;
    }
    proof {
        assert(d@.take(first as int) =~= group_thousands(d@.take(first as int)));
        assert(d@.take(len as int) =~= d@);
    }
    out
}

/// The text of a span of `secs` seconds plus `millis` milliseconds, at most
/// two units: `"2d 1h"`, `"2h 1m"`, `"1m 30s"`, or `"59.000s"` under a minute.
pub open spec fn humanize_text(secs: nat, millis: nat) -> Seq<char> {
    if secs >= 86_400 {
        dec(secs / 86_400) + seq!['d', ' '] + dec((secs % 86_400) / 3600) + seq!['h']
    } else if secs >= 3600 {
        dec(secs / 3600) + seq!['h', ' '] + dec((secs % 3600) / 60) + seq!['m']
    } else if secs >= 60 {
        dec(secs / 60) + seq!['m', ' '] + dec(secs % 60) + seq!['s']
    } else {
        dec(secs) + seq!['.', digit_char(millis / 100), digit_char((millis / 10) % 10),
            digit_char(millis % 10), 's']
    }
}

/// Render a span given as whole seconds and the millisecond remainder.
pub fn humanize_secs_millis(secs: u64, millis: u32) -> (r: String)
    requires
        millis < 1000,
    ensures
        r@ == humanize_text(secs as nat, millis as nat),
{
    let mut out = String::new();
    if secs >= 86_400 {
        push_decimal(&mut out, secs / 86_400);
        out.push('d');
        out.push(' ');
        push_decimal(&mut out, (secs % 86_400) / 3600);
        out.push('h');
    } else if secs >= 3600 {
        push_decimal(&mut out, secs / 3600);
        out.push('h');
        out.push(' ');
        push_decimal(&mut out, (secs % 3600) / 60);
        out.push('m');
    } else if secs >= 60 {
        push_decimal(&mut out, secs / 60);
        out.push('m');
        out.push(' ');
        push_decimal(&mut out, secs % 60);
        out.push('s');
    } else {
        let ms = millis as u64;
        push_decimal(&mut out, secs);
        out.push('.');
        out.push(digit(ms / 100));
        out.push(digit((ms / 10) % 10));
        out.push(digit(ms % 10));
        out.push('s');
    }
    proof {
        assert(out@ =~= humanize_text(secs as nat, millis as nat));
    }
    out
}

/// The whole seconds of a span.
pub uninterp spec fn span_secs(d: core::time::Duration) -> u64;

/// The milliseconds of a span beyond its whole seconds.
pub uninterp spec fn span_millis(d: core::time::Duration) -> u32;

/// `Duration::subsec_millis`: the fractional part of the span in whole
/// milliseconds, a function of the span alone; std documents that it is
/// always below 1000.
pub assume_specification[ core::time::Duration::subsec_millis ](d: &core::time::Duration) -> (r: u32)
    ensures
        r == span_millis(*d),
        r < 1000,
;

/// `Duration::as_secs`: the whole seconds of the span, a function of the
/// span alone.
pub assume_specification[ core::time::Duration::as_secs ](d: &core::time::Duration) -> (r: u64)
    ensures
        r == span_secs(*d),
;

/// Human text for a span (`"1m 30s"`), as shown in the details overlay.
pub fn humanize_duration(d: core::time::Duration) -> (r: String)
    ensures
        r@ == humanize_text(span_secs(d) as nat, span_millis(d) as nat),
        span_millis(d) < 1000,
{
    let secs = d.as_secs();
    let millis = d.subsec_millis();
    humanize_secs_millis(secs, millis)
}

/// The "ago" text for `secs` whole seconds and `millis` extra milliseconds
/// elapsed: the largest unit that keeps the leading number small, and one
/// decimal under a second (`"0.4s"`).
pub open spec fn elapsed_text(secs: nat, millis: nat) -> Seq<char> {
    if secs >= 86_400 {
        dec(secs / 86_400) + seq!['d', ' '] + dec((secs % 86_400) / 3600) + seq!['h']
    } else if secs >= 3600 {
        dec(secs / 3600) + seq!['h', ' '] + dec((secs % 3600) / 60) + seq!['m']
    } else if secs >= 60 {
        dec(secs / 60) + seq!['m', ' '] + dec(secs % 60) + seq!['s']
    } else if secs >= 1 {
        dec(secs) + seq!['s']
    } else {
        seq!['0', '.', digit_char(millis / 100), 's']
    }
}

/// Render an elapsed span given as whole seconds and the millisecond remainder.
pub fn format_elapsed(secs: u64, millis: u32) -> (r: String)
    requires
        millis < 1000,
    ensures
        r@ == elapsed_text(secs as nat, millis as nat),
{
    let mut out = String::new();
    if secs >= 86_400 {
        push_decimal(&mut out, secs / 86_400);
        out.push('d');
        out.push(' ');
        push_decimal(&mut out, (secs % 86_400) / 3600);
        out.push('h');
    } else if secs >= 3600 {
        push_decimal(&mut out, secs / 3600);
        out.push('h');
        out.push(' ');
        push_decimal(&mut out, (secs % 3600) / 60);
        out.push('m');
    } else if secs >= 60 {
        push_decimal(&mut out, secs / 60);
        out.push('m');
        out.push(' ');
        push_decimal(&mut out, secs % 60);
        out.push('s');
    } else if secs >= 1 {
        push_decimal(&mut out, secs);
        out.push('s');
    } else {
        out.push('0');
        out.push('.');
        out.push(digit((millis / 100) as u64));
        out.push('s');
    }
    proof {
        assert(out@ =~= elapsed_text(secs as nat, millis as nat));
    }
    out
}

/// `HH:MM:SS` (UTC) of a moment given as whole seconds since the Unix epoch.
pub open spec fn clock_text(unix_secs: nat) -> Seq<char> {
    two_digits((unix_secs / 3600) % 24) + seq![':'] + two_digits((unix_secs / 60) % 60)
        + seq![':'] + two_digits(unix_secs % 60)
}

/// A clock text is always eight characters: two digits, a colon, two digits,
/// a colon, two digits.
pub proof fn lemma_clock_text_shape(unix_secs: nat)
    ensures
        clock_text(unix_secs).len() == 8,
        clock_text(unix_secs)[2] == ':',
        clock_text(unix_secs)[5] == ':',
        forall|i: int|
            0 <= i < 8 && i != 2 && i != 5 ==> is_digit_char(#[trigger] clock_text(unix_secs)[i]),
{
    let t = clock_text(unix_secs);
    assert forall|i: int| 0 <= i < 8 && i != 2 && i != 5 implies is_digit_char(#[trigger] t[i]) by {
        let h = (unix_secs / 3600) % 24;
        let m = (unix_secs / 60) % 60;
        let s = unix_secs % 60;
        assert(h / 10 < 10 && m / 10 < 10 && s / 10 < 10);
    }
}

/// Render `HH:MM:SS` (UTC) for whole seconds since the Unix epoch.
pub fn clock_from_unix_secs(unix_secs: u64) -> (r: String)
    ensures
        r@ == clock_text(unix_secs as nat),
{
    let h = (unix_secs / 3600) % 24;
    let m = (unix_secs / 60) % 60;
    let s = unix_secs % 60;
    let mut out = String::new();
    out.push(digit(h / 10));
    out.push(digit(h % 10));
    out.push(':');
    out.push(digit(m / 10));
    out.push(digit(m % 10));
    out.push(':');
    out.push(digit(s / 10));
    out.push(digit(s % 10));
    proof {
        assert(out@ =~= clock_text(unix_secs as nat));
    }
    out
}

} // verus!

verus! {

/// `std::time::Instant`, a moment on the process's monotonic clock.
#[verifier::external_type_specification]
#[verifier::external_body]
pub struct ExInstant(std::time::Instant);

/// `std::time::SystemTime`, a moment on the wall clock.
#[verifier::external_type_specification]
#[verifier::external_body]
pub struct ExSystemTime(std::time::SystemTime);

/// `std::time::SystemTimeError`, returned when a wall-clock moment lies
/// before the one it is measured from.
#[verifier::external_type_specification]
#[verifier::external_body]
pub struct ExSystemTimeError(std::time::SystemTimeError);

/// `Instant::elapsed`: std documents it as the current moment minus `t`
/// (zero when `t` is later), so the result is the span from some current
/// moment to `t`; which moment is read from the clock.
pub assume_specification[ std::time::Instant::elapsed ](t: &std::time::Instant) -> (r: core::time::Duration)
    ensures
        exists|now: std::time::Instant| r == span_from(now, *t),
;

/// `Instant::now`: the current moment; nothing is stated of it.
pub assume_specification[ std::time::Instant::now ]() -> std::time::Instant;

/// `SystemTime::now`: the current wall-clock moment; nothing is stated of it.
pub assume_specification[ std::time::SystemTime::now ]() -> std::time::SystemTime;

/// The span from `earlier` to `later`, or zero when `earlier` is later.
pub uninterp spec fn span_from(later: std::time::Instant, earlier: std::time::Instant) -> core::time::Duration;

/// `Instant::saturating_duration_since`: the span from `earlier` to `t`, or
/// zero, a function of the two moments alone.
pub assume_specification[ std::time::Instant::saturating_duration_since ](
    t: &std::time::Instant,
    earlier: std::time::Instant,
) -> (r: core::time::Duration)
    ensures
        r == span_from(*t, earlier),
;

/// Whether the moment `a` is not later than `b` on the monotonic clock.
pub uninterp spec fn instant_not_after(a: std::time::Instant, b: std::time::Instant) -> bool;

/// `Instant`'s `<=`: whether `a` is not later than `b`, a function of the two
/// moments alone.
#[verifier::external_body]
pub fn instant_le(a: &std::time::Instant, b: &std::time::Instant) -> (r: bool)
    ensures
        r == instant_not_after(*a, *b),
{
    *a <= *b
}

/// The wall-clock moment `d` before `t`, or `None` when it cannot be
/// represented.
pub uninterp spec fn wall_back(t: std::time::SystemTime, d: core::time::Duration) -> Option<std::time::SystemTime>;

/// `SystemTime::checked_sub`: the moment `d` before `t`, or `None`, a
/// function of its two arguments alone.
pub assume_specification[ std::time::SystemTime::checked_sub ](
    t: &std::time::SystemTime,
    d: core::time::Duration,
) -> (r: Option<std::time::SystemTime>)
    ensures
        r == wall_back(*t, d),
;

/// The span from the Unix epoch to the wall-clock moment `t`, or the error
/// std reports when `t` lies before the epoch.
pub uninterp spec fn wall_since_epoch(t: std::time::SystemTime) -> Result<core::time::Duration, std::time::SystemTimeError>;

/// `SystemTime::duration_since(UNIX_EPOCH)`: the span from 1970-01-01
/// 00:00:00 UTC to `t`, or an error when `t` is earlier; a function of `t`
/// alone.
#[verifier::external_body]
fn since_unix_epoch(t: &std::time::SystemTime) -> (r: Result<core::time::Duration, std::time::SystemTimeError>)
    ensures
        r == wall_since_epoch(*t),
{
    t.duration_since(std::time::SystemTime::UNIX_EPOCH)
}

/// The text of `format_duration_since(t)` when the clock reads `now`.
pub open spec fn ago_text(now: std::time::Instant, t: std::time::Instant) -> Seq<char> {
    elapsed_text(span_secs(span_from(now, t)) as nat, span_millis(span_from(now, t)) as nat)
}

/// Compact "X ago" for the time elapsed since `t` (`"1m 30s"`, `"0.4s"`):
/// the elapsed text of the span from the current moment to `t`.
pub fn format_duration_since(t: std::time::Instant) -> (r: String)
    ensures
        exists|now: std::time::Instant| r@ == ago_text(now, t),
{
    let elapsed = t.elapsed();
    let secs = elapsed.as_secs();
    let millis = elapsed.subsec_millis();
    let r = format_elapsed(secs, millis);
    proof {
        let now = choose|now: std::time::Instant| elapsed == span_from(now, t);
        assert(r@ == ago_text(now, t));
    }
    r
}

/// Whole seconds since the Unix epoch of a wall-clock moment: none (the
/// epoch itself) when there is no moment, and 0 for a moment before the
/// epoch.
pub open spec fn unix_secs_of(absolute: Option<std::time::SystemTime>) -> nat {
    match absolute {
        Some(a) => match wall_since_epoch(a) {
            Ok(d) => span_secs(d) as nat,
            Err(_) => 0,
        },
        None => 0,
    }
}

/// Whole seconds since the Unix epoch of `absolute`, the epoch standing in
/// when it is `None` (see `unix_secs_of`).
pub fn unix_secs(absolute: Option<std::time::SystemTime>) -> (r: u64)
    ensures
        r == unix_secs_of(absolute),
{
    match absolute {
        Some(a) => match since_unix_epoch(&a) {
            Ok(d) => d.as_secs(),
            Err(_) => 0,
        },
        None => 0,
    }
}

/// The seconds since the epoch that `format_clock(t)` shows when the
/// monotonic clock reads `now_inst` and the wall clock `now_sys`: the wall
/// time shifted back by how long ago `t` was.
pub open spec fn clock_secs(now_inst: std::time::Instant, now_sys: std::time::SystemTime, t: std::time::Instant) -> nat {
    unix_secs_of(wall_back(now_sys, span_from(now_inst, t)))
}

/// Wall-clock `HH:MM:SS` (UTC) of `t`, found by shifting the current wall
/// time back by how long ago `t` was.
pub fn format_clock(t: std::time::Instant) -> (r: String)
    ensures
        exists|now_inst: std::time::Instant, now_sys: std::time::SystemTime|
            r@ == clock_text(clock_secs(now_inst, now_sys, t)),
{
    let now_inst = std::time::Instant::now();
    let now_sys = std::time::SystemTime::now();
    let back = now_inst.saturating_duration_since(t);
    let absolute = now_sys.checked_sub(back);
    let secs = unix_secs(absolute);
    let r = clock_from_unix_secs(secs);
    assert(r@ == clock_text(clock_secs(now_inst, now_sys, t)));
    r
}

} // verus!

verus! {

/// Compact decimal count: the number itself under 1000, else thousands or
/// millions with one decimal (`"1.2k"`, `"3.4M"`), the decimal being the
/// binary64 quotient rounded half to even.
pub open spec fn count_text(n: nat) -> Seq<char> {
    if n >= 1_000_000 {
        let t = quotient_tenths(f64_of_int(n), 1_000_000);
        dec(t / 10) + seq!['.', digit_char(t % 10), 'M']
    } else if n >= 1000 {
        let t = quotient_tenths(n, 1000);
        dec(t / 10) + seq!['.', digit_char(t % 10), 'k']
    } else {
        dec(n)
    }
}

/// Compact decimal count for header tallies (`1.2k`, `3.4M`); values under
/// 1000 render as they are.
pub fn format_count(n: u64) -> (r: String)
    ensures
        r@ == count_text(n as nat),
{
    let mut out = String::new();
    proof {
        lemma2_to64();
        lemma_pow2_adds(32, 20);
    }
    if n >= 1_000_000 {
        let m = f64_of_u64(n);
        let t = div_tenths(m, 1_000_000);
        proof {
            assert(pow2(53) == 2 * pow2(52)) by { lemma_pow2_unfold(53); }
        }
        push_decimal(&mut out, (t / 10) as u64);
        out.push('.');
        out.push(digit((t % 10) as u64));
        out.push('M');
    } else if n >= 1000 {
        let t = div_tenths(n as u128, 1000);
        proof {
            assert(pow2(53) == 2 * pow2(52)) by { lemma_pow2_unfold(53); }
        }
        push_decimal(&mut out, (t / 10) as u64);
        out.push('.');
        out.push(digit((t % 10) as u64));
        out.push('k');
    } else {
        push_decimal(&mut out, n);
    }
    proof {
        assert(out@ =~= count_text(n as nat));
    }
    out
}

/// A byte total `b` (at least one unit) in the binary unit `2^k`: the
/// binary64 value of `b` over `2^k`, rendered with two decimals rounded
/// half to even, then the unit name.
pub open spec fn bytes_in_unit(b: nat, k: nat, unit: Seq<char>) -> Seq<char> {
    let h = round_half_even(100 * f64_of_int(b), pow2(k));
    dec(h / 100) + seq!['.'] + two_digits(h % 100) + seq![' '] + unit
}

/// Human-readable byte total using binary (1024) units: `"1023 B"`,
/// `"1.00 KB"`, `"1.50 MB"`, `"2.00 GB"`.
pub open spec fn bytes_text(b: nat) -> Seq<char> {
    if b >= 0x4000_0000 {
        bytes_in_unit(b, 30, seq!['G', 'B'])
    } else if b >= 0x10_0000 {
        bytes_in_unit(b, 20, seq!['M', 'B'])
    } else if b >= 0x400 {
        bytes_in_unit(b, 10, seq!['K', 'B'])
    } else {
        dec(b) + seq![' ', 'B']
    }
}

fn push_in_unit(out: &mut String, b: u64, k: u32, u0: char, u1: char)
    requires
        k == 10 || k == 20 || k == 30,
    ensures
        final(out)@ == old(out)@ + bytes_in_unit(b as nat, k as nat, seq![u0, u1]),
{
    let m = f64_of_u64(b);
    let p = pow2_u128(k);
    proof {
        lemma2_to64();
        lemma_pow2_pos(k as nat);
        assert(p >= 1024) by {
            if k > 10 { lemma_pow2_strictly_increases(10, k as nat); }
        }
    }
    let h = div_round_half_even(100 * m, p);
    proof {
        assert((100 * m) as int / p as int <= 100 * m / 1024) by (nonlinear_arith)
            requires p >= 1024, m >= 0;
    }
    push_decimal(out, (h / 100) as u64);
    out.push('.');
    out.push(digit(((h % 100) / 10) as u64));
    out.push(digit((h % 10) as u64));
    out.push(' ');
    out.push(u0);
    out.push(u1);
    proof {
        assert((h % 100) % 10 == h % 10) by (nonlinear_arith);
    }
}

/// Human-readable byte total using binary (1024) units.
pub fn format_bytes(b: u64) -> (r: String)
    ensures
        r@ == bytes_text(b as nat),
{
    let mut out = String::new();
    if b >= 0x4000_0000 {
        push_in_unit(&mut out, b, 30, 'G', 'B');
    } else if b >= 0x10_0000 {
        push_in_unit(&mut out, b, 20, 'M', 'B');
    } else if b >= 0x400 {
        push_in_unit(&mut out, b, 10, 'K', 'B');
    } else {
        push_decimal(&mut out, b);
        out.push(' ');
        out.push('B');
    }
    proof {
        assert(out@ =~= bytes_text(b as nat));
    }
    out
}

} // verus!

verus! {

/// IP protocol number of TCP.
pub const IPPROTO_TCP: u8 = 6;
/// IP protocol number of UDP.
pub const IPPROTO_UDP: u8 = 17;
/// IP protocol number of ICMP.
pub const IPPROTO_ICMP: u8 = 1;

/// The conventional service name of a port for a transport protocol, where
/// the screens annotate one.
pub open spec fn service_name(port: u16, proto: u8) -> Option<Seq<char>> {
    if proto == IPPROTO_TCP {
        if port == 20 { Some("ftp-data"@) }
        else if port == 21 { Some("ftp"@) }
        else if port == 22 { Some("ssh"@) }
        else if port == 23 { Some("telnet"@) }
        else if port == 25 { Some("smtp"@) }
        else if port == 53 { Some("dns"@) }
        else if port == 80 { Some("http"@) }
        else if port == 110 { Some("pop3"@) }
        else if port == 143 { Some("imap"@) }
        else if port == 179 { Some("bgp"@) }
        else if port == 389 { Some("ldap"@) }
        else if port == 443 { Some("https"@) }
        else if port == 445 { Some("smb"@) }
        else if port == 465 { Some("smtps"@) }
        else if port == 514 { Some("shell"@) }
        else if port == 587 { Some("submission"@) }
        else if port == 636 { Some("ldaps"@) }
        else if port == 853 { Some("dns-over-tls"@) }
        else if port == 993 { Some("imaps"@) }
        else if port == 995 { Some("pop3s"@) }
        else if port == 1433 { Some("mssql"@) }
        else if port == 3306 { Some("mysql"@) }
        else if port == 3389 { Some("rdp"@) }
        else if port == 5432 { Some("postgres"@) }
        else if port == 5900 { Some("vnc"@) }
        else if port == 6379 { Some("redis"@) }
        else if port == 8080 { Some("http-alt"@) }
        else if port == 8443 { Some("https-alt"@) }
        else { None }
    } else if proto == IPPROTO_UDP {
        if port == 53 { Some("dns"@) }
        else if port == 67 { Some("dhcp"@) }
        else if port == 68 { Some("dhcp"@) }
        else if port == 69 { Some("tftp"@) }
        else if port == 123 { Some("ntp"@) }
        else if port == 137 { Some("netbios-ns"@) }
        else if port == 138 { Some("netbios-dgm"@) }
        else if port == 161 { Some("snmp"@) }
        else if port == 162 { Some("snmp-trap"@) }
        else if port == 443 { Some("quic"@) }
        else if port == 500 { Some("isakmp"@) }
        else if port == 514 { Some("syslog"@) }
        else if port == 1900 { Some("ssdp"@) }
        else if port == 4500 { Some("ipsec-nat-t"@) }
        else if port == 5353 { Some("mdns"@) }
        else if port == 51820 { Some("wireguard"@) }
        else { None }
    } else {
        None
    }
}

/// Look up the conventional service name of a port.
pub fn well_known(port: u16, proto: u8) -> (r: Option<&'static str>)
    ensures
        match r {
            Some(name) => service_name(port, proto) == Some(name@),
            None => service_name(port, proto).is_none(),
        },
{
    if proto == IPPROTO_TCP {
        if port == 20 { Some("ftp-data") }
        else if port == 21 { Some("ftp") }
        else if port == 22 { Some("ssh") }
        else if port == 23 { Some("telnet") }
        else if port == 25 { Some("smtp") }
        else if port == 53 { Some("dns") }
        else if port == 80 { Some("http") }
        else if port == 110 { Some("pop3") }
        else if port == 143 { Some("imap") }
        else if port == 179 { Some("bgp") }
        else if port == 389 { Some("ldap") }
        else if port == 443 { Some("https") }
        else if port == 445 { Some("smb") }
        else if port == 465 { Some("smtps") }
        else if port == 514 { Some("shell") }
        else if port == 587 { Some("submission") }
        else if port == 636 { Some("ldaps") }
        else if port == 853 { Some("dns-over-tls") }
        else if port == 993 { Some("imaps") }
        else if port == 995 { Some("pop3s") }
        else if port == 1433 { Some("mssql") }
        else if port == 3306 { Some("mysql") }
        else if port == 3389 { Some("rdp") }
        else if port == 5432 { Some("postgres") }
        else if port == 5900 { Some("vnc") }
        else if port == 6379 { Some("redis") }
        else if port == 8080 { Some("http-alt") }
        else if port == 8443 { Some("https-alt") }
        else { None }
    } else if proto == IPPROTO_UDP {
        if port == 53 { Some("dns") }
        else if port == 67 { Some("dhcp") }
        else if port == 68 { Some("dhcp") }
        else if port == 69 { Some("tftp") }
        else if port == 123 { Some("ntp") }
        else if port == 137 { Some("netbios-ns") }
        else if port == 138 { Some("netbios-dgm") }
        else if port == 161 { Some("snmp") }
        else if port == 162 { Some("snmp-trap") }
        else if port == 443 { Some("quic") }
        else if port == 500 { Some("isakmp") }
        else if port == 514 { Some("syslog") }
        else if port == 1900 { Some("ssdp") }
        else if port == 4500 { Some("ipsec-nat-t") }
        else if port == 5353 { Some("mdns") }
        else if port == 51820 { Some("wireguard") }
        else { None }
    } else {
        None
    }
}

/// A port number, annotated with its service name when it has one:
/// `"443 (https)"`, `"54321"`.
pub open spec fn port_text(port: u16, proto: u8) -> Seq<char> {
    match service_name(port, proto) {
        Some(name) => dec(port as nat) + seq![' ', '('] + name + seq![')'],
        None => dec(port as nat),
    }
}

/// Render a port, annotated with its well-known service name.
pub fn port_label(port: u16, proto: u8) -> (r: String)
    ensures
        r@ == port_text(port, proto),
{
    let mut out = String::new();
    push_decimal(&mut out, port as u64);
    match well_known(port, proto) {
        Some(name) => {
            out.push(' ');
            out.push('(');
            out.append(name);
            out.push(')');
        },
        None => {},
    }
    proof {
        assert(out@ =~= port_text(port, proto));
    }
    out
}

} // verus!
