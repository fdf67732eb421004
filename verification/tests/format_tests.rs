use std::time::{Duration, Instant, SystemTime};

use vortex::bps::{format_bps, probe_rate_label};
use vortex::flow::Rate;

use vortex::format::{
    clock_from_unix_secs, format_bytes, format_clock, format_count, format_duration_since,
    format_elapsed, humanize_duration, port_label, unix_secs, well_known, with_thousands, IPPROTO_TCP,
    IPPROTO_UDP,
};

#[test]
fn with_thousands_small_no_separator() {
    assert_eq!(with_thousands(0), "0");
    assert_eq!(with_thousands(999), "999");
}

#[test]
fn with_thousands_exactly_one_comma() {
    assert_eq!(with_thousands(1_000), "1,000");
    assert_eq!(with_thousands(1_234_567), "1,234,567");
}

#[test]
fn with_thousands_boundaries() {
    assert_eq!(with_thousands(999_999), "999,999");
    assert_eq!(with_thousands(1_000_000), "1,000,000");
}

#[test]
fn with_thousands_largest_value() {
    assert_eq!(with_thousands(u64::MAX), "18,446,744,073,709,551,615");
}

#[test]
fn humanize_duration_sub_minute() {
    assert_eq!(humanize_duration(Duration::from_millis(500)), "0.500s");
    assert_eq!(humanize_duration(Duration::from_secs(1)), "1.000s");
    assert_eq!(humanize_duration(Duration::from_secs(59)), "59.000s");
}

#[test]
fn humanize_duration_minutes_and_seconds() {
    assert_eq!(humanize_duration(Duration::from_secs(90)), "1m 30s");
    assert_eq!(humanize_duration(Duration::from_secs(3599)), "59m 59s");
}

#[test]
fn humanize_duration_hours_and_minutes() {
    assert_eq!(humanize_duration(Duration::from_secs(3600)), "1h 0m");
    assert_eq!(humanize_duration(Duration::from_secs(7261)), "2h 1m");
}

#[test]
fn humanize_duration_days_and_hours() {
    assert_eq!(humanize_duration(Duration::from_secs(86_400)), "1d 0h");
    assert_eq!(humanize_duration(Duration::from_secs(90_061)), "1d 1h");
}

#[test]
fn humanize_duration_keeps_millisecond_digits() {
    assert_eq!(humanize_duration(Duration::from_millis(7)), "0.007s");
    assert_eq!(humanize_duration(Duration::from_millis(12_340)), "12.340s");
}

#[test]
fn port_label_known_port_annotated() {
    assert_eq!(port_label(443, IPPROTO_TCP), "443 (https)");
    assert_eq!(port_label(53, IPPROTO_UDP), "53 (dns)");
}

#[test]
fn port_label_unknown_port_bare_number() {
    assert_eq!(port_label(54321, IPPROTO_TCP), "54321");
}

#[test]
fn port_label_proto_specific_service() {
    assert_eq!(port_label(514, IPPROTO_UDP), "514 (syslog)");
    assert_eq!(port_label(514, IPPROTO_TCP), "514 (shell)");
}

#[test]
fn well_known_needs_a_transport_protocol() {
    assert_eq!(well_known(443, 1), None);
    assert_eq!(well_known(443, IPPROTO_UDP), Some("quic"));
}

#[test]
fn format_count_small_values_exact() {
    assert_eq!(format_count(0), "0");
    assert_eq!(format_count(999), "999");
}

#[test]
fn format_count_rolls_over_to_k_at_1000() {
    assert_eq!(format_count(1_000), "1.0k");
}

#[test]
fn format_count_rolls_over_to_m_at_1000000() {
    assert_eq!(format_count(1_000_000), "1.0M");
}

#[test]
fn format_count_matches_float_rendering() {
    // The library renders the decimal as `{:.1}` of the f64 quotient does.
    let samples: [u64; 12] = [
        1_049, 1_050, 1_051, 1_150, 1_250, 999_949, 999_950, 1_049_999, 1_050_000, 1_250_000,
        123_456_789, u64::MAX,
    ];
    for n in samples {
        let expected = if n >= 1_000_000 {
            format!("{:.1}M", n as f64 / 1_000_000.0)
        } else if n >= 1_000 {
            format!("{:.1}k", n as f64 / 1_000.0)
        } else {
            n.to_string()
        };
        assert_eq!(format_count(n), expected, "n = {n}");
    }
}

#[test]
fn format_bytes_raw_bytes_range() {
    assert_eq!(format_bytes(0), "0 B");
    assert_eq!(format_bytes(1023), "1023 B");
}

#[test]
fn format_bytes_rolls_over_to_kb_at_1kib() {
    assert_eq!(format_bytes(1 << 10), "1.00 KB");
}

#[test]
fn format_bytes_just_under_mib_stays_in_kb() {
    let s = format_bytes((1 << 20) - 1);
    assert!(s.ends_with("KB"), "expected KB for {}, got {s}", (1u64 << 20) - 1);
}

#[test]
fn format_bytes_rolls_over_to_mb_at_1mib() {
    assert_eq!(format_bytes(1 << 20), "1.00 MB");
}

#[test]
fn format_bytes_rolls_over_to_gb_at_1gib() {
    assert_eq!(format_bytes(1 << 30), "1.00 GB");
}

#[test]
fn format_bytes_matches_float_rendering() {
    let samples: [u64; 10] = [1_024, 1_536, 1_029, 1_030, 10_000, 1_048_575, 5_000_000, 1 << 40, 3_333_333_333, u64::MAX];
    for b in samples {
        let expected = if b >= 1 << 30 {
            format!("{:.2} GB", b as f64 / (1u64 << 30) as f64)
        } else if b >= 1 << 20 {
            format!("{:.2} MB", b as f64 / (1u64 << 20) as f64)
        } else if b >= 1 << 10 {
            format!("{:.2} KB", b as f64 / (1u64 << 10) as f64)
        } else {
            format!("{b} B")
        };
        assert_eq!(format_bytes(b), expected, "b = {b}");
    }
}

#[test]
fn format_duration_sub_second() {
    let t = Instant::now();
    let s = format_duration_since(t);
    assert!(s.starts_with("0.") && s.ends_with('s'), "expected 0.Xs, got {s:?}");
}

#[test]
fn format_duration_whole_seconds() {
    let t = Instant::now() - Duration::from_secs(2);
    assert_eq!(format_duration_since(t), "2s");
}

#[test]
fn format_duration_minutes_and_seconds() {
    let t = Instant::now() - Duration::from_secs(90);
    assert_eq!(format_duration_since(t), "1m 30s");
}

#[test]
fn format_duration_hours_and_minutes() {
    let t = Instant::now() - Duration::from_secs(3661);
    assert_eq!(format_duration_since(t), "1h 1m");
}

#[test]
fn format_duration_days_and_hours() {
    let t = Instant::now() - Duration::from_secs(86_400 + 3_600);
    assert_eq!(format_duration_since(t), "1d 1h");
}

#[test]
fn format_elapsed_every_unit() {
    assert_eq!(format_elapsed(0, 999), "0.9s");
    assert_eq!(format_elapsed(0, 50), "0.0s");
    assert_eq!(format_elapsed(59, 0), "59s");
    assert_eq!(format_elapsed(3_600 * 25, 0), "1d 1h");
}

#[test]
fn format_clock_hh_mm_ss_structure() {
    let s = format_clock(Instant::now());
    assert_eq!(s.len(), 8, "expected 8-char HH:MM:SS, got {s:?}");
    assert_eq!(s.as_bytes()[2], b':', "colon expected at position 2");
    assert_eq!(s.as_bytes()[5], b':', "colon expected at position 5");
    for (i, b) in s.bytes().enumerate() {
        if i != 2 && i != 5 {
            assert!(b.is_ascii_digit(), "expected digit at pos {i} in {s:?}");
        }
    }
}

#[test]
fn clock_from_unix_secs_is_utc() {
    assert_eq!(clock_from_unix_secs(0), "00:00:00");
    assert_eq!(clock_from_unix_secs(86_399), "23:59:59");
    assert_eq!(clock_from_unix_secs(1_700_000_000), "22:13:20");
}

// --- format_bps ---

fn bps(v: f32) -> String {
    format_bps(Rate { bits: v.to_bits() })
}

#[test]
fn format_bps_bytes_range() {
    assert_eq!(bps(0.0), "0 B/s");
    assert_eq!(bps(999.0), "999 B/s");
}

#[test]
fn format_bps_rolls_over_to_kb_at_1000() {
    assert_eq!(bps(1_000.0), "1.0 KB/s");
}

#[test]
fn format_bps_sub_mb_stays_in_kb() {
    assert!(bps(999_999.0).ends_with("KB/s"), "expected KB/s below 1 MB/s");
}

#[test]
fn format_bps_rolls_over_to_mb_at_1000000() {
    assert_eq!(bps(1_000_000.0), "1.00 MB/s");
}

/// The rendering the float arithmetic gives.
fn float_rendering(v: f32) -> String {
    if v >= 1_000_000.0 {
        format!("{:.2} MB/s", v / 1_000_000.0)
    } else if v >= 1_000.0 {
        format!("{:.1} KB/s", v / 1_000.0)
    } else {
        format!("{:.0} B/s", v)
    }
}

#[test]
fn format_bps_matches_float_rendering() {
    let specials: [f32; 22] = [
        0.0, -0.0, 0.4, 0.5, 1.5, 2.5, -0.5, -2.5, 999.4, 999.5, 999.9, 1_049.95, 1_050.0, 999_949.9, 999_999.9,
        1_005_000.0, 3.4e38, -3.4e38, 1e-45, f32::INFINITY, f32::NEG_INFINITY, f32::NAN,
    ];
    let mut values: Vec<f32> = specials.to_vec();
    let mut x: u32 = 0x2545_f491;
    for _ in 0..20_000 {
        x ^= x << 13;
        x ^= x >> 17;
        x ^= x << 5;
        values.push(f32::from_bits(x));
        // Rates of everyday sizes, with ties in the last shown decimal.
        values.push((x % 50_000_000) as f32 / 4.0);
        values.push((x % 2_000_000) as f32 / 8.0);
    }
    for v in values {
        assert_eq!(bps(v), float_rendering(v), "{v:e} ({:#x})", v.to_bits());
    }
}

#[test]
fn format_bps_whole_bytes_keep_the_sign_of_negatives() {
    assert_eq!(bps(-0.0), float_rendering(-0.0));
    assert_eq!(bps(-3.7), "-4 B/s");
    assert_eq!(bps(-1_500.0), "-1500 B/s");
    assert_eq!(bps(12.5), "12 B/s");
    assert_eq!(bps(1_234_567.0), "1.23 MB/s");
    assert_eq!(bps(f32::NAN), "NaN B/s");
    assert_eq!(bps(f32::INFINITY), "inf MB/s");
}

#[test]
fn probe_rate_label_matches_float_rendering() {
    let mut values: Vec<f32> = vec![0.0, -0.0, 0.99, 1.0, 1.5, 2.5, -7.0, 3.4e38, f32::INFINITY, f32::NAN];
    let mut x: u32 = 0x0bad_cafe;
    for _ in 0..20_000 {
        x ^= x << 13;
        x ^= x >> 17;
        x ^= x << 5;
        values.push(f32::from_bits(x));
        values.push((x % 400_000) as f32 / 8.0);
    }
    for v in values {
        let expected = if v >= 1.0 { format!("\u{25b6} {v:.0} pkt/s") } else { "\u{b7} idle".to_string() };
        assert_eq!(probe_rate_label(Rate { bits: v.to_bits() }), expected, "{v:e}");
    }
}

#[test]
fn unix_secs_of_wall_moments() {
    assert_eq!(unix_secs(None), 0);
    assert_eq!(unix_secs(Some(SystemTime::UNIX_EPOCH)), 0);
    assert_eq!(unix_secs(Some(SystemTime::UNIX_EPOCH + Duration::from_millis(90_500))), 90);
    assert_eq!(unix_secs(Some(SystemTime::UNIX_EPOCH - Duration::from_secs(5))), 0);
}

#[test]
fn format_clock_of_a_past_moment_matches_wall_clock() {
    let secs_ago = 3_600 + 61;
    let t = Instant::now() - Duration::from_secs(secs_ago);
    let expected_secs = unix_secs(SystemTime::now().checked_sub(Duration::from_secs(secs_ago)));
    let got = format_clock(t);
    let plus_one = clock_from_unix_secs(expected_secs + 1);
    let exact = clock_from_unix_secs(expected_secs);
    let minus_one = clock_from_unix_secs(expected_secs.saturating_sub(1));
    assert!(got == exact || got == plus_one || got == minus_one, "got {got:?}, expected about {exact:?}");
}
