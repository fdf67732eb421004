use std::collections::VecDeque;
use std::time::{Duration, Instant};

use vortex::common::SortDirection;
use vortex::conn::ConnRow;
use vortex::dashboard::{FlowRow, SortColumn};
use vortex::dashboard_keys::DashboardState;
use vortex::details::{
    conn_details_input, conn_details_rows, conn_fold_is_ready, fill_timeline_buf, find_flow, flow_details_rows, fold_conn_flows,
    hostname_label, overlay_title, push_process_section, EndpointInfo, FlowDetailsInput, OverlayFlow,
    OverlayKind, ProcessInfo, ProcessTotals, RdnsStatus, Timeline,
};
use vortex::flow::{AppKind, Direction, FlowKey, IpAddress, Rate, TrafficStats};
use vortex::picker::{
    capture_failed, capture_started, picker_key, probe_plan, probe_sample, record_sample, trim_text, InterfaceInfo,
    PickerAction, PickerState, IDLE_DRAIN_ZEROS, TRAFFIC_HISTORY_LEN,
};
use vortex::prefs::{Key, KeyPress, Screen, UiPrefs};
use vortex::processes::{ChildRow, FrozenProcessRow, ProcSortColumn, ProcessAggregate};
use vortex::ratesum::rate_add;
use vortex::tables::{
    child_endpoint_text, clamp_selected, conn_header_titles, conn_row_cells, dashboard_context, error_line,
    child_traffic_cells, filter_panel, flow_header_titles, flow_row_cells, format_ago, header_title, help_gap, help_key_column,
    ip_label, picker_context, proc_header_titles, process_cells, processes_context, tree_cmd_width,
    dashboard_help_entries, picker_help_entries, processes_help_entries,
};
use vortex::widgets::{DetailRow, HelpEntry};

const SEC: u64 = 1_000_000_000;
const NOW: u64 = 1_000_000 * SEC;

fn addr(s: &str) -> IpAddress {
    let octets: Vec<u8> = s.split('.').map(|p| p.parse().unwrap()).collect();
    IpAddress::v4(u32::from_be_bytes([octets[0], octets[1], octets[2], octets[3]]))
}

fn flow_key(src: &str, sport: u16, dst: &str, dport: u16, proto: u8) -> FlowKey {
    FlowKey { src_ip: addr(src), dst_ip: addr(dst), src_port: sport, dst_port: dport, proto }
}

fn stats(bytes: u64, bps: f32, packets: u64) -> TrafficStats {
    TrafficStats { bytes, bps: Rate { bits: bps.to_bits() }, packets }
}

// --- single-precision sums of rates ---

#[test]
fn rate_add_matches_hardware_addition() {
    let mut x: u32 = 0x1234_5678;
    let mut next = || {
        x ^= x << 13;
        x ^= x >> 17;
        x ^= x << 5;
        x
    };
    let specials: [f32; 10] = [0.0, -0.0, 1.0, 0.1, 16_777_216.0, 3.4e38, f32::MAX, f32::INFINITY, 1e-45, 1.17e-38];
    let mut values: Vec<f32> = specials.to_vec();
    for _ in 0..2_000 {
        let v = f32::from_bits(next() & 0x7fff_ffff);
        if !v.is_nan() {
            values.push(v);
        }
        // Nearby magnitudes exercise carries and roundings.
        let small = (next() % 100_000) as f32 / 7.0;
        values.push(small);
    }
    for w in values.windows(2) {
        let (a, b) = (w[0], w[1]);
        let got = rate_add(Rate { bits: a.to_bits() }, Rate { bits: b.to_bits() });
        assert_eq!(got.bits, (a + b).to_bits(), "{a:e} + {b:e}");
    }
}

#[test]
fn rate_add_matches_hardware_addition_with_signs() {
    let mut x: u32 = 0x9e37_79b9;
    let mut next = || {
        x ^= x << 13;
        x ^= x >> 17;
        x ^= x << 5;
        x
    };
    let specials: [f32; 14] = [
        0.0, -0.0, 1.0, -1.0, 0.1, -0.1, 16_777_216.0, -16_777_215.0, 3.4e38, -f32::MAX, f32::INFINITY,
        -1e-45, 1.17e-38, -1.1754942e-38,
    ];
    let mut values: Vec<f32> = specials.to_vec();
    for _ in 0..3_000 {
        let v = f32::from_bits(next());
        if !v.is_nan() {
            values.push(v);
        }
        // Close magnitudes of opposite signs exercise cancellation.
        let m = (next() % 1_000_000) as f32 / 3.0;
        values.push(m);
        values.push(-(m + (next() % 3) as f32));
    }
    values.push(f32::NAN);
    values.push(f32::NEG_INFINITY);
    values.push(f32::INFINITY);
    values.push(f32::from_bits(0xffc0_0001));
    values.push(2.0);
    for w in values.windows(2) {
        let (a, b) = (w[0], w[1]);
        let got = rate_add(Rate { bits: a.to_bits() }, Rate { bits: b.to_bits() });
        if (a + b).is_nan() {
            // The sign and payload of a NaN result are left open; the sum is the quiet NaN.
            assert_eq!(got.bits, 0x7fc0_0000, "{a:e} + {b:e}");
        } else {
            assert_eq!(got.bits, (a + b).to_bits(), "{a:e} + {b:e}");
        }
    }
}

#[test]
fn rate_add_cancellation_and_binade_edges() {
    let pairs: [(f32, f32); 8] = [
        (1.0, -1.0),
        (-2.5, 2.5),
        (1.0, -5.960_464_5e-8),
        (1.0, -2.980_232_2e-8),
        (16_777_216.0, -1.0),
        (-f32::MAX, -f32::MAX),
        (f32::MIN_POSITIVE, -1e-45),
        (f32::NEG_INFINITY, 1.0),
    ];
    for (a, b) in pairs {
        let got = rate_add(Rate { bits: a.to_bits() }, Rate { bits: b.to_bits() });
        assert_eq!(got.bits, (a + b).to_bits(), "{a:e} + {b:e}");
    }
}

#[test]
fn rate_add_of_zeros_keeps_sign_rule() {
    let neg = Rate { bits: (-0.0f32).to_bits() };
    let pos = Rate { bits: 0 };
    assert_eq!(rate_add(neg, neg).bits, (-0.0f32 + -0.0f32).to_bits());
    assert_eq!(rate_add(neg, pos).bits, (-0.0f32 + 0.0f32).to_bits());
}

// --- preferences ---

#[test]
fn prefs_and_screen_defaults() {
    let p = UiPrefs::default();
    assert!(p.names_mode && !p.show_help && !p.show_expired && !p.aggregate);
    assert_eq!(Screen::default(), Screen::Picker);
}

// --- picker ---

fn iface(name: &str, active: bool) -> InterfaceInfo {
    InterfaceInfo {
        name: name.to_string(),
        ipv4: None,
        ipv6: None,
        active,
        link_status: String::new(),
        connection_status: String::new(),
    }
}

fn press(c: char) -> KeyPress {
    KeyPress { key: Key::Char(c), ctrl: false, alt: false }
}

fn key(k: Key) -> KeyPress {
    KeyPress { key: k, ctrl: false, alt: false }
}

#[test]
fn trim_text_strips_unicode_whitespace() {
    assert_eq!(trim_text("  tcp port 443 \t"), "tcp port 443");
    assert_eq!(trim_text("\u{3000}x\u{2029}"), "x");
    assert_eq!(trim_text("   "), "");
    assert_eq!(trim_text(""), "");
}

#[test]
fn picker_navigation_stays_in_the_list() {
    let mut p = PickerState::default();
    p.interfaces = vec![iface("eth0", true), iface("lo", true)];
    picker_key(&mut p, key(Key::Down));
    picker_key(&mut p, press('j'));
    assert_eq!(p.selected, 1);
    picker_key(&mut p, press('k'));
    picker_key(&mut p, key(Key::Up));
    assert_eq!(p.selected, 0);
    assert_eq!(p.selected_iface().map(|i| i.name.as_str()), Some("eth0"));
}

#[test]
fn picker_filter_editing_types_deletes_and_opens() {
    let mut p = PickerState::default();
    p.interfaces = vec![iface("eth0", true)];
    p.last_error = Some("stale".to_string());
    picker_key(&mut p, press('/'));
    assert!(p.editing_filter && p.last_error.is_none());
    for c in " tcp q".chars() {
        picker_key(&mut p, press(c));
    }
    let ctrl_l = KeyPress { key: Key::Char('l'), ctrl: true, alt: false };
    picker_key(&mut p, ctrl_l);
    assert_eq!(p.filter, " tcp q");
    picker_key(&mut p, key(Key::Backspace));
    picker_key(&mut p, key(Key::Backspace));
    assert_eq!(p.filter, " tcp");
    match picker_key(&mut p, key(Key::Enter)) {
        PickerAction::StartCapture { iface, filter } => {
            assert_eq!(iface, "eth0");
            assert_eq!(filter.as_deref(), Some("tcp"));
        }
        other => panic!("expected StartCapture, got {other:?}"),
    }
    assert!(!p.editing_filter);
}

#[test]
fn picker_quits_help_rescans_and_opens_without_filter() {
    let mut p = PickerState::default();
    assert!(matches!(picker_key(&mut p, key(Key::Enter)), PickerAction::Stay));
    p.interfaces = vec![iface("eth0", true)];
    match picker_key(&mut p, key(Key::Enter)) {
        PickerAction::StartCapture { filter, .. } => assert_eq!(filter, None),
        other => panic!("expected StartCapture, got {other:?}"),
    }
    picker_key(&mut p, press('?'));
    assert!(p.show_help);
    picker_key(&mut p, key(Key::Esc));
    assert!(!p.show_help);
    assert!(matches!(picker_key(&mut p, press('r')), PickerAction::Rescan));
    assert!(p.interfaces.is_empty());
    assert!(matches!(picker_key(&mut p, press('q')), PickerAction::Quit));
}

#[test]
fn capture_outcomes_update_the_screens() {
    let mut d = DashboardState::default();
    d.paused = true;
    d.selected = 5;
    let mut prefs = UiPrefs::default();
    prefs.show_help = true;
    let mut p = PickerState::default();
    p.last_error = Some("old".to_string());
    capture_started(&mut d, &mut prefs, &mut p, "eth0".to_string(), "tcp".to_string());
    assert_eq!(d.selected_interface.as_deref(), Some("eth0"));
    assert_eq!(d.selected, 0);
    assert!(!d.paused && !prefs.show_help && p.last_error.is_none());
    assert_eq!(d.filter, "tcp");
    capture_failed(&mut p, "no such device".to_string());
    assert_eq!(p.last_error.as_deref(), Some("no such device"));
}

#[test]
fn probe_sample_matches_float_rounding() {
    let specials: [f32; 14] = [
        0.0, -0.0, 0.49, 0.5, 1.5, 2.5, -3.0, 1e-45, 1.8e19, 1.9e19, 3.4e38, f32::INFINITY, f32::NEG_INFINITY, f32::NAN,
    ];
    let mut values: Vec<f32> = specials.to_vec();
    let mut x: u32 = 0x1357_9bdf;
    for _ in 0..20_000 {
        x ^= x << 13;
        x ^= x >> 17;
        x ^= x << 5;
        values.push(f32::from_bits(x));
        values.push((x % 100_000) as f32 / 4.0);
    }
    for v in values {
        let expected = v.max(0.0).round() as u64;
        assert_eq!(probe_sample(Rate { bits: v.to_bits() }), expected, "{v:e}");
    }
    assert_eq!(probe_sample(Rate { bits: 2.5f32.to_bits() }), 3);
}

#[test]
fn record_sample_drains_idle_faster_and_keeps_capacity() {
    let mut buf: VecDeque<u64> = VecDeque::new();
    record_sample(&mut buf, 7);
    assert_eq!(buf, VecDeque::from(vec![7]));
    record_sample(&mut buf, 0);
    assert_eq!(buf.len(), 1 + IDLE_DRAIN_ZEROS);
    for i in 0..100 {
        record_sample(&mut buf, i + 1);
    }
    assert_eq!(buf.len(), TRAFFIC_HISTORY_LEN);
    assert_eq!(buf.back(), Some(&100));
    assert_eq!(buf.front(), Some(&69));
}

#[test]
fn probe_plan_stops_inactive_and_starts_missing() {
    let mut p = PickerState::default();
    p.interfaces = vec![iface("eth0", true), iface("wlan0", false), iface("eth1", true), iface("eth0", true)];
    let running = vec!["wlan0".to_string(), "eth1".to_string(), "gone".to_string()];
    let (stop, start) = probe_plan(&p, &running);
    assert_eq!(stop, vec!["wlan0", "gone"]);
    assert_eq!(start, vec!["eth0"]);
    p.last_error = Some("x".to_string());
    let (stop, start) = probe_plan(&p, &running);
    assert!(stop.is_empty() && start.is_empty());
}

// --- details overlay ---

#[test]
fn hostname_label_every_state() {
    assert_eq!(hostname_label(false, None), "(disabled)");
    assert_eq!(hostname_label(true, None), "(pending)");
    let r = RdnsStatus::Resolved("dns.google".to_string());
    assert_eq!(hostname_label(true, Some(&r)), "dns.google");
    assert_eq!(hostname_label(true, Some(&RdnsStatus::Pending)), "(resolving…)");
    assert_eq!(hostname_label(true, Some(&RdnsStatus::NxDomain)), "(no PTR)");
    assert_eq!(hostname_label(true, Some(&RdnsStatus::Failed)), "(lookup failed)");
    assert_eq!(hostname_label(true, Some(&RdnsStatus::Private)), "(private network)");
}

fn timeline() -> Timeline {
    let mut buckets = [0u64; 60];
    for (i, b) in buckets.iter_mut().enumerate() {
        *b = i as u64;
    }
    Timeline { buckets, head: 10, current_bucket_bytes: 999 }
}

#[test]
fn fill_timeline_buf_rotates_oldest_out() {
    let mut buf = vec![1, 2, 3];
    fill_timeline_buf(&mut buf, &timeline());
    assert_eq!(buf.len(), 60);
    assert_eq!(buf[0], 11);
    assert_eq!(buf[48], 59);
    assert_eq!(buf[49], 0);
    assert_eq!(buf[58], 9);
    assert_eq!(buf[59], 999);
}

fn side(a: &str) -> EndpointInfo {
    EndpointInfo { addr: a.to_string(), dns_enabled: true, rdns: None, kind: "private".to_string() }
}

fn texts(rows: &[DetailRow<'_>]) -> Vec<String> {
    rows.iter()
        .map(|r| match r {
            DetailRow::Single { label, value } => format!("{label}={value}"),
            DetailRow::Pair { label_a, value_a, label_b, value_b } => format!("{label_a}={value_a}|{label_b}={value_b}"),
            DetailRow::Wrapped { label, value } => format!("{label}~{value}"),
            DetailRow::Sparkline { label, data } => format!("{label}#{}", data.len()),
            DetailRow::SectionHeader { title } => format!("[{title}]"),
            DetailRow::Blank => String::new(),
        })
        .collect()
}

#[test]
fn flow_details_rows_lists_every_section() {
    let s = stats(1536, 2.0, 1234);
    let tl = timeline();
    let info = ProcessInfo {
        name: "curl".to_string(),
        ppid: None,
        user: Some("me".to_string()),
        alive: true,
        exe: None,
        cmdline: vec!["curl".to_string(), "-s".to_string()],
    };
    let totals = ProcessTotals { bps: Rate { bits: 2.0f32.to_bits() }, conn_count: 3 };
    let input = FlowDetailsInput {
        key: flow_key("10.0.0.1", 5000, "10.0.0.2", 443, 6),
        direction: Direction::Outbound,
        stats: &s,
        first_seen: Instant::now(),
        last_seen: None,
        last_summary: Some("ACK"),
        app_host: Some((AppKind::Sni, "example.com")),
        timeline: Some(&tl),
        pid: Some(42),
        src: side("10.0.0.1"),
        dst: side("10.0.0.2"),
        process: Some(&info),
        process_totals: Some(&totals),
    };
    let mut buf = Vec::new();
    let rows = flow_details_rows(&input, &mut buf);
    let t = texts(&rows);
    assert_eq!(t[0], "[Endpoints]");
    assert_eq!(t[1], "src=10.0.0.1|dst=10.0.0.2");
    assert_eq!(t[3], "port=5000|port=443 (https)");
    assert_eq!(t[7], "protocol=TCP (6)");
    assert_eq!(t[8], "direction=outbound");
    assert!(t[9].starts_with("first seen=") && t[9].ends_with(" ago)"));
    assert_eq!(t[10], "total=1.50 KB · 1,234 packets");
    assert_eq!(t[11], "rate=2 B/s");
    assert_eq!(t[12], "history#60");
    assert_eq!(t[13], "sni=example.com");
    assert_eq!(t[14], "last=ACK");
    assert_eq!(t[16], "[Process]");
    assert_eq!(t[17], "name=curl|parent=—");
    assert_eq!(t[18], "pid=42|user=me");
    assert_eq!(t[19], "status=alive|proc bps=2 B/s");
    assert_eq!(t[20], "total conns=3");
    assert_eq!(t[21], "exe~—");
    assert_eq!(t[22], "cmd~curl -s");
    assert_eq!(t.len(), 23);
}

#[test]
fn process_section_without_attribution() {
    let mut rows: Vec<DetailRow<'_>> = Vec::new();
    push_process_section(&mut rows, None, None, None);
    assert_eq!(texts(&rows), vec!["status=Not attributed (process exited before snapshot, or socket missed)"]);
}

fn overlay_flow(k: FlowKey, dir: Direction, bytes: u64, first_tick: u64, last_tick: u64) -> OverlayFlow {
    let origin = Instant::now() - Duration::from_secs(100);
    OverlayFlow {
        key: k,
        stats: stats(bytes, bytes as f32, 1),
        last_summary: None,
        app_host: None,
        first_seen: origin + Duration::from_secs(first_tick),
        last_seen: origin + Duration::from_secs(last_tick),
        timeline: timeline(),
        direction: dir,
        pid: None,
    }
}

#[test]
fn connection_overlay_folds_both_directions() {
    let out_key = flow_key("10.0.0.1", 52000, "10.0.0.2", 443, 6);
    let inn_key = flow_key("10.0.0.2", 443, "10.0.0.1", 52000, 6);
    let other = flow_key("10.0.0.1", 1, "10.0.0.3", 2, 6);
    let mut flows = vec![
        overlay_flow(inn_key, Direction::Inbound, 500, 5, 9),
        overlay_flow(other, Direction::Outbound, 7, 1, 1),
        overlay_flow(out_key, Direction::Outbound, 1000, 3, 8),
    ];
    flows[2].pid = Some(9);
    flows[0].last_summary = Some("FIN".to_string());
    assert_eq!(find_flow(&out_key, &flows), Some(2));
    assert!(conn_fold_is_ready(&out_key, &flows));
    let fold = fold_conn_flows(&out_key, &flows);
    assert_eq!((fold.tx_bytes, fold.rx_bytes, fold.packets), (1000, 500, 2));
    assert_eq!(fold.first, Some(2));
    assert_eq!(fold.last, Some(0));
    assert_eq!(fold.pid, Some(9));
    assert_eq!(fold.last_summary, Some(0));
    let input = conn_details_input(
        &fold,
        &flows,
        6,
        side("10.0.0.1"),
        side("10.0.0.2"),
        None,
        None,
    )
    .unwrap();
    assert_eq!(input.local.1, 52000);
    let mut tx = Vec::new();
    let mut rx = Vec::new();
    let rows = conn_details_rows(&input, &mut tx, &mut rx);
    let t = texts(&rows);
    assert_eq!(t[1], "local=10.0.0.1|remote=10.0.0.2");
    assert_eq!(t[2], "host=(pending)|host=(pending)");
    assert!(t.contains(&"↑ tx=1000 B · 1.0 KB/s".to_string()));
    assert!(t.contains(&"↓ rx=500 B · 500 B/s".to_string()));
    assert!(t.contains(&"total=1.46 KB · 2 packets".to_string()));
    assert!(t.contains(&"last=FIN".to_string()));
    assert_eq!(overlay_title(OverlayKind::Connection, true), "Connection details (paused)");
    assert_eq!(overlay_title(OverlayKind::Flow, false), "Flow details (live)");
    let gone = fold_conn_flows(&flow_key("1.1.1.1", 1, "2.2.2.2", 2, 6), &flows);
    assert!(conn_details_input(&gone, &flows, 6, side("a"), side("b"), None, None).is_none());
}

// --- table texts ---

#[test]
fn header_titles_mark_the_sorted_column() {
    assert_eq!(header_title("bps", true, SortDirection::Desc), "bps ▼");
    let f = flow_header_titles(SortColumn::Bytes, SortDirection::Asc);
    assert_eq!(f[7], "bytes ▲");
    assert_eq!(f[0], "src ip");
    assert_eq!(f[11], "info");
    let c = conn_header_titles(SortColumn::Bps, SortDirection::Asc);
    assert_eq!(c[8], "total ▲");
    assert_eq!(c[6], "↑ tx");
    let p = proc_header_titles(ProcSortColumn::Fixed, SortDirection::Asc);
    assert!(p.iter().all(|t| !t.contains('▲')));
    let p = proc_header_titles(ProcSortColumn::User, SortDirection::Desc);
    assert_eq!(p[6], "user ▼");
}

#[test]
fn table_cells_of_flow_and_connection_rows() {
    let row = FlowRow {
        key: flow_key("10.0.0.1", 5000, "10.0.0.2", 53, 17),
        stats: stats(2048, 1.0, 3),
        direction: Direction::Outbound,
        last_summary: Some("query A".to_string()),
        app_host: None,
        first_seen: NOW - 90 * SEC,
        last_seen: NOW - SEC / 2,
        expired: false,
        pid: Some(7),
        process_name: Some("dig".to_string()),
    };
    let cells = flow_row_cells(&row, NOW, "a".to_string(), "b".to_string());
    assert_eq!(cells, vec!["a", "5000", "b", "53", "UDP", "dig(7)", "1 B/s", "2.00 KB", "3", "1m 30s", "0.5s", "query A"]);
    let conn = ConnRow {
        proto: 6,
        local: (addr("10.0.0.1"), 1),
        remote: (addr("10.0.0.2"), 2),
        tx_bytes: 10,
        tx_bps: Rate { bits: 0 },
        rx_bytes: 20,
        rx_bps: Rate { bits: 0 },
        packets: 4,
        first_seen: NOW,
        last_seen: NOW + SEC,
        expired: false,
        pid: None,
        process_name: None,
        app_host: None,
        last_summary: None,
        tx_key: None,
        rx_key: None,
    };
    let cells = conn_row_cells(&conn, NOW, "l".to_string(), "r".to_string());
    assert_eq!(cells, vec!["l", "1", "r", "2", "TCP", "-", "10 B", "20 B", "30 B", "4", "0.0s", "0.0s"]);
    assert_eq!(format_ago(NOW, NOW - 3_600 * SEC), "1h 0m");
}

#[test]
fn process_and_child_cells() {
    let parent = FrozenProcessRow {
        pid: 12,
        name: "python3".to_string(),
        user: None,
        cmd: "python3 -m http.server".to_string(),
        alive: false,
        agg: ProcessAggregate { bps: Rate { bits: 0 }, bytes: 5, packets: 1, conn_count: 2 },
        children: vec![],
    };
    let cells = process_cells(&parent, true, true, 10);
    assert_eq!(cells.marker, "▾");
    assert_eq!(cells.status, "✗ dead");
    assert_eq!(cells.cmd, vec!["python3 -m", "http.serve", "r"]);
    assert_eq!(cells.height, 3);
    assert_eq!(cells.bps, "0 B/s");
    assert_eq!(cells.bytes, "5 B");
    let flat = process_cells(&parent, false, false, 10);
    assert_eq!(flat.marker, "▸");
    assert_eq!(flat.cmd, vec!["python3 -m http.server"]);
    assert_eq!(flat.height, 1);
    assert_eq!(tree_cmd_width(100), 20);
    assert_eq!(tree_cmd_width(200), 65);
    let k = flow_key("10.0.0.1", 1, "10.0.0.2", 443, 6);
    let f = ChildRow::Flow { key: k, stats: stats(0, 0.0, 0), expired: false };
    assert_eq!(child_endpoint_text(&f, "a", "b"), "  └ TCP a → b:443");
    let c = ChildRow::Conn {
        proto: 17,
        local: (addr("10.0.0.1"), 1),
        remote: (addr("10.0.0.2"), 53),
        bytes: 0,
        bps: Rate { bits: 0 },
        expired: false,
        first_seen: 0,
        detail_key: k,
    };
    assert_eq!(child_endpoint_text(&c, "x", "y"), "  └ UDP x ⇄ y:53");
    let f2 = ChildRow::Flow { key: k, stats: stats(2_048, 1_500.0, 2), expired: false };
    assert_eq!(child_traffic_cells(&f2), ("1.5 KB/s".to_string(), "2.00 KB".to_string()));
    let c2 = ChildRow::Conn {
        proto: 6,
        local: (addr("10.0.0.1"), 1),
        remote: (addr("10.0.0.2"), 80),
        bytes: 3,
        bps: Rate { bits: 2_500_000.0f32.to_bits() },
        expired: false,
        first_seen: 0,
        detail_key: k,
    };
    assert_eq!(child_traffic_cells(&c2), ("2.50 MB/s".to_string(), "3 B".to_string()));
}

#[test]
fn header_contexts_and_small_texts() {
    assert_eq!(
        dashboard_context(Rate { bits: 1.0f32.to_bits() }, Rate { bits: 2.0f32.to_bits() }, 1_500, 500, 0, Some("eth0"), false),
        "↑ 1 B/s  ↓ 2 B/s  ·  1.5k active · 2.0k total  ·  eth0"
    );
    assert_eq!(
        dashboard_context(Rate { bits: 1_234.0f32.to_bits() }, Rate { bits: 5e6f32.to_bits() }, 1, 0, 3, None, true),
        "↑ 1.2 KB/s  ↓ 5.00 MB/s  ·  1 active · 1 total  ·  ?  ·  drops 3  ·  PAUSED"
    );
    assert_eq!(processes_context(Some("eth0"), 4, true), "iface: eth0 · procs: 4 · PAUSED");
    assert_eq!(picker_context(3), "3 interfaces");
    assert_eq!(clamp_selected(9, 3), 2);
    assert_eq!(clamp_selected(1, 3), 1);
    assert_eq!(clamp_selected(4, 0), 0);
    assert_eq!(ip_label(false, "10.0.0.1".to_string(), Some("host")), "10.0.0.1");
    assert_eq!(ip_label(true, "10.0.0.1".to_string(), None), "10.0.0.1");
    assert_eq!(ip_label(true, "10.0.0.1".to_string(), Some("host")), "host");
    assert_eq!(error_line(&None), "");
    assert_eq!(error_line(&Some("boom".to_string())), " error: boom");
    let panel = filter_panel(false, "");
    assert!(panel.placeholder && !panel.cursor);
    assert_eq!(panel.body, "(none — capturing all traffic)");
    let editing = filter_panel(true, "");
    assert_eq!(editing.title, "BPF filter (editing)");
    assert_eq!(editing.body, "");
    let entries = [HelpEntry::new("?", "help"), HelpEntry::new("q / Ctrl-C", "quit"), HelpEntry::new("j / ↓", "next")];
    let col = help_key_column(&entries);
    assert_eq!(col, 10);
    assert_eq!(help_gap(col, "j / ↓"), 8);
}

#[test]
fn help_overlays_list_every_key() {
    let texts = |v: Vec<HelpEntry<'static>>| v.iter().map(|e| (e.key, e.description)).collect::<Vec<_>>();
    let d = texts(dashboard_help_entries());
    assert_eq!(d.len(), 13);
    assert_eq!(d[0], ("?", "toggle this help"));
    assert_eq!(d[2], ("esc / b", "back to interface picker"));
    assert_eq!(d[10], ("s", "cycle sort column (fixed → src ip → … → last pkt)"));
    assert_eq!(d[12], ("p", "open processes view"));
    let p = texts(picker_help_entries());
    assert_eq!(p.len(), 7);
    assert_eq!(p[5], ("f / /", "edit BPF filter"));
    let r = texts(processes_help_entries());
    assert_eq!(r.len(), 13);
    assert_eq!(r[6], ("enter", "parent: expand/collapse · child: show details"));
    assert_eq!(r[12], ("w", "wrap long cmdline strings"));
}

#[test]
fn flow_details_duration_row_spans_first_to_last() {
    let s = stats(10, 1.0, 1);
    let first = Instant::now();
    let input = FlowDetailsInput {
        key: flow_key("10.0.0.1", 5000, "10.0.0.2", 443, 6),
        direction: Direction::Outbound,
        stats: &s,
        first_seen: first,
        last_seen: Some(first + std::time::Duration::from_millis(90_250)),
        last_summary: None,
        app_host: None,
        timeline: None,
        pid: None,
        src: side("10.0.0.1"),
        dst: side("10.0.0.2"),
        process: None,
        process_totals: None,
    };
    let mut buf = Vec::new();
    let rows = flow_details_rows(&input, &mut buf);
    let t = texts(&rows);
    assert!(t[10].starts_with("last packet="));
    assert_eq!(t[11], "duration=1m 30s");
    let short = FlowDetailsInput { last_seen: Some(first + std::time::Duration::from_millis(2_345)), ..input };
    let mut buf2 = Vec::new();
    let t2 = texts(&flow_details_rows(&short, &mut buf2));
    assert_eq!(t2[11], "duration=2.345s");
}

#[test]
fn connection_fold_readiness_catches_overflow() {
    let out_key = flow_key("10.0.0.1", 52000, "10.0.0.2", 443, 6);
    let other = flow_key("10.0.0.1", 1, "10.0.0.3", 2, 6);
    let flows = vec![
        overlay_flow(out_key, Direction::Outbound, u64::MAX, 1, 2),
        overlay_flow(other, Direction::Outbound, u64::MAX, 1, 2),
    ];
    assert!(conn_fold_is_ready(&out_key, &flows));
    let flows = vec![
        overlay_flow(out_key, Direction::Outbound, u64::MAX, 1, 2),
        overlay_flow(out_key, Direction::Outbound, 1, 1, 2),
    ];
    assert!(!conn_fold_is_ready(&out_key, &flows));
}

#[test]
fn overlay_host_row_follows_reverse_lookup() {
    let a = EndpointInfo {
        addr: "10.0.0.1".to_string(),
        dns_enabled: true,
        rdns: Some(RdnsStatus::Resolved("box.lan".to_string())),
        kind: "private".to_string(),
    };
    let b = EndpointInfo { addr: "10.0.0.2".to_string(), dns_enabled: false, rdns: None, kind: "private".to_string() };
    let flows = vec![overlay_flow(flow_key("10.0.0.1", 5, "10.0.0.2", 6, 17), Direction::Outbound, 10, 1, 2)];
    let fold = fold_conn_flows(&flows[0].key, &flows);
    let input = conn_details_input(&fold, &flows, 17, a, b, None, None).unwrap();
    let mut tx = Vec::new();
    let mut rx = Vec::new();
    let rows = conn_details_rows(&input, &mut tx, &mut rx);
    assert_eq!(texts(&rows)[2], "host=box.lan|host=(disabled)");
}

#[test]
fn picker_moving_keeps_error_and_rescan_keeps_help() {
    let mut p = PickerState::default();
    p.interfaces = vec![iface("eth0", true), iface("lo", true)];
    p.last_error = Some("no permission".to_string());
    p.show_help = true;
    picker_key(&mut p, key(Key::Down));
    assert_eq!(p.last_error.as_deref(), Some("no permission"));
    picker_key(&mut p, press('k'));
    assert_eq!(p.last_error.as_deref(), Some("no permission"));
    assert!(p.show_help);
    assert!(matches!(picker_key(&mut p, press('r')), PickerAction::Rescan));
    assert!(p.show_help && !p.editing_filter && p.interfaces.is_empty() && p.last_error.is_none());
}
