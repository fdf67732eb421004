
use rustc_hash::FxHashMap;

use vortex::common::SortDirection;
use vortex::details::ProcessInfo;
use vortex::live::{build_live_rows, current_rows, LiveFlow, ProcessTable};
use vortex::conn::{merge_flow_rows, sort_conns, try_merge_flow_rows, ConnRow};
use vortex::dashboard::{format_process, process_label, process_sort_key, sort_entries, FlowRow, SortColumn};
use vortex::dashboard_keys::{
    conn_view_is_ready, dashboard_key, selected_flow_key, DashboardAction, DashboardState,
};
use vortex::flow::{AppKind, Direction, FlowKey, IpAddress, Rate, TrafficStats};
use vortex::format::IPPROTO_TCP;
use vortex::prefs::{Key, KeyPress, UiPrefs};

const SEC: u64 = 1_000_000_000;
const NOW: u64 = 1_000_000 * SEC;

fn addr(s: &str) -> IpAddress {
    let octets: Vec<u8> = s.split('.').map(|p| p.parse().unwrap()).collect();
    IpAddress::v4(u32::from_be_bytes([octets[0], octets[1], octets[2], octets[3]]))
}

fn flow_key(src: &str, sport: u16, dst: &str, dport: u16, proto: u8) -> FlowKey {
    FlowKey { src_ip: addr(src), dst_ip: addr(dst), src_port: sport, dst_port: dport, proto }
}

fn traffic_stats(bytes: u64, bps: f32, packets: u64) -> TrafficStats {
    TrafficStats { bytes, bps: Rate { bits: bps.to_bits() }, packets }
}

fn t(secs_ago: u64) -> u64 {
    NOW - secs_ago * SEC
}

fn rate(r: Rate) -> f32 {
    f32::from_bits(r.bits)
}

#[allow(clippy::too_many_arguments)]
fn make_row(
    key: FlowKey,
    direction: Direction,
    bytes: u64,
    bps: f32,
    packets: u64,
    first_seen: u64,
    last_seen: u64,
    expired: bool,
) -> FlowRow {
    FlowRow {
        key,
        stats: traffic_stats(bytes, bps, packets),
        direction,
        last_summary: None,
        app_host: None,
        first_seen,
        last_seen,
        expired,
        pid: None,
        process_name: None,
    }
}

fn make_conn(local_port: u16, remote_port: u16, tx_bytes: u64, rx_bytes: u64, first_seen: u64) -> ConnRow {
    ConnRow {
        proto: IPPROTO_TCP,
        local: (addr("10.0.0.1"), local_port),
        remote: (addr("10.0.0.2"), remote_port),
        tx_bytes,
        tx_bps: Rate { bits: (tx_bytes as f32).to_bits() },
        rx_bytes,
        rx_bps: Rate { bits: (rx_bytes as f32).to_bits() },
        packets: 0,
        first_seen,
        last_seen: first_seen,
        expired: false,
        pid: None,
        process_name: None,
        app_host: None,
        last_summary: None,
        tx_key: None,
        rx_key: None,
    }
}

fn row_with_process(pid: Option<u32>, name: Option<&str>) -> FlowRow {
    FlowRow {
        key: flow_key("1.2.3.4", 1234, "5.6.7.8", 443, 6),
        stats: traffic_stats(0, 0.0, 0),
        direction: Direction::Unknown,
        last_summary: None,
        app_host: None,
        first_seen: NOW,
        last_seen: NOW,
        expired: false,
        pid,
        process_name: name.map(String::from),
    }
}

// --- format_process / process_sort_key ---

#[test]
fn format_process_short_name_with_pid() {
    assert_eq!(format_process(Some(42), Some("firefox")), "firefox(42)");
}

#[test]
fn format_process_long_name_truncated_at_14_chars() {
    let long = "verylongprocess";
    let result = format_process(Some(7), Some(long));
    assert!(result.starts_with("verylongproce…"), "got: {result:?}");
    assert!(result.ends_with("(7)"), "got: {result:?}");
}

#[test]
fn format_process_pid_fallback_when_no_name() {
    assert_eq!(format_process(Some(99), None), "pid:99");
}

#[test]
fn format_process_dash_when_no_pid() {
    assert_eq!(format_process(None, None), "-");
    assert_eq!(format_process(None, Some("ignored")), "-");
}

#[test]
fn format_process_fourteen_chars_kept_whole() {
    assert_eq!(format_process(Some(1), Some("exactly14chars")), "exactly14chars(1)");
    assert_eq!(format_process(Some(7), Some("verylongprocess")), "verylongproce…(7)");
}

#[test]
fn process_label_reads_the_row() {
    assert_eq!(process_label(&row_with_process(Some(5), Some("sshd"))), "sshd(5)");
    assert_eq!(process_label(&row_with_process(None, Some("sshd"))), "-");
}

#[test]
fn process_sort_key_attributed_before_unattributed() {
    let attributed = row_with_process(Some(1), Some("curl"));
    let unattributed = row_with_process(None, None);
    assert!(process_sort_key(&attributed) < process_sort_key(&unattributed));
}

#[test]
fn process_sort_key_orders_by_name_then_pid() {
    let a = row_with_process(Some(10), Some("alpha"));
    let b = row_with_process(Some(20), Some("beta"));
    let a2 = row_with_process(Some(20), Some("alpha"));
    assert!(process_sort_key(&a) < process_sort_key(&b));
    assert!(process_sort_key(&a) < process_sort_key(&a2));
}

// --- merge_flow_rows ---

#[test]
fn merge_opposing_flows_correct_tx_rx_split() {
    let out_key = flow_key("10.0.0.1", 52000, "10.0.0.2", 443, IPPROTO_TCP);
    let inn_key = flow_key("10.0.0.2", 443, "10.0.0.1", 52000, IPPROTO_TCP);
    let now = NOW;
    let conns = merge_flow_rows(vec![
        make_row(out_key, Direction::Outbound, 1000, 100.0, 10, now, now, false),
        make_row(inn_key, Direction::Inbound, 500, 50.0, 5, now, now, false),
    ]);
    assert_eq!(conns.len(), 1);
    let c = &conns[0];
    assert_eq!(c.tx_bytes, 1000);
    assert_eq!(c.rx_bytes, 500);
    assert!((rate(c.tx_bps) - 100.0).abs() < 0.001);
    assert!((rate(c.rx_bps) - 50.0).abs() < 0.001);
    assert_eq!(c.packets, 15);
    assert!(!c.expired);
    assert_eq!(c.tx_key, Some(out_key));
    assert_eq!(c.rx_key, Some(inn_key));
}

#[test]
fn merge_half_open_leaves_rx_key_none() {
    let out_key = flow_key("10.0.0.1", 52001, "10.0.0.2", 80, IPPROTO_TCP);
    let now = NOW;
    let conns = merge_flow_rows(vec![make_row(out_key, Direction::Outbound, 200, 20.0, 2, now, now, false)]);
    assert_eq!(conns.len(), 1);
    let c = &conns[0];
    assert_eq!(c.tx_bytes, 200);
    assert_eq!(c.rx_bytes, 0);
    assert_eq!(c.tx_key, Some(out_key));
    assert_eq!(c.rx_key, None);
}

#[test]
fn merge_expired_is_and_of_halves() {
    let now = NOW;
    let ka = flow_key("10.0.0.1", 52002, "10.0.0.2", 443, IPPROTO_TCP);
    let kb = flow_key("10.0.0.2", 443, "10.0.0.1", 52002, IPPROTO_TCP);
    let both_exp = merge_flow_rows(vec![
        make_row(ka, Direction::Outbound, 0, 0.0, 0, now, now, true),
        make_row(kb, Direction::Inbound, 0, 0.0, 0, now, now, true),
    ]);
    assert!(both_exp[0].expired, "both halves expired → conn expired");

    let kc = flow_key("10.0.0.1", 52003, "10.0.0.2", 443, IPPROTO_TCP);
    let kd = flow_key("10.0.0.2", 443, "10.0.0.1", 52003, IPPROTO_TCP);
    let one_alive = merge_flow_rows(vec![
        make_row(kc, Direction::Outbound, 0, 0.0, 0, now, now, true),
        make_row(kd, Direction::Inbound, 0, 0.0, 0, now, now, false),
    ]);
    assert!(!one_alive[0].expired, "one active half → conn not expired");
}

#[test]
fn merge_first_and_last_seen_are_min_max() {
    let out_key = flow_key("10.0.0.1", 52004, "10.0.0.2", 443, IPPROTO_TCP);
    let inn_key = flow_key("10.0.0.2", 443, "10.0.0.1", 52004, IPPROTO_TCP);
    let out_first = t(10);
    let out_last = t(2);
    let inn_first = t(8);
    let inn_last = t(5);
    let conns = merge_flow_rows(vec![
        make_row(out_key, Direction::Outbound, 0, 0.0, 0, out_first, out_last, false),
        make_row(inn_key, Direction::Inbound, 0, 0.0, 0, inn_first, inn_last, false),
    ]);
    assert_eq!(conns[0].first_seen, out_first, "first_seen should be the earliest");
    assert_eq!(conns[0].last_seen, out_last, "last_seen should be the most recent");
}

#[test]
fn merge_preserves_insertion_order() {
    let now = NOW;
    let ka = flow_key("10.0.0.1", 60001, "10.0.0.2", 443, IPPROTO_TCP);
    let kb = flow_key("10.0.0.1", 60002, "10.0.0.2", 80, IPPROTO_TCP);
    let kc = flow_key("10.0.0.1", 60003, "10.0.0.2", 8080, IPPROTO_TCP);
    let conns = merge_flow_rows(vec![
        make_row(ka, Direction::Outbound, 0, 0.0, 0, now, now, false),
        make_row(kb, Direction::Outbound, 0, 0.0, 0, now, now, false),
        make_row(kc, Direction::Outbound, 0, 0.0, 0, now, now, false),
    ]);
    assert_eq!(conns.len(), 3);
    assert_eq!(conns[0].tx_key, Some(ka));
    assert_eq!(conns[1].tx_key, Some(kb));
    assert_eq!(conns[2].tx_key, Some(kc));
}

#[test]
fn merge_conserves_bytes_and_packets() {
    let k1 = flow_key("10.0.0.1", 1000, "10.0.0.9", 53, IPPROTO_TCP);
    let k2 = flow_key("10.0.0.9", 53, "10.0.0.1", 1000, IPPROTO_TCP);
    let k3 = flow_key("10.0.0.1", 1001, "10.0.0.9", 443, IPPROTO_TCP);
    let rows = vec![
        make_row(k1, Direction::Outbound, 10, 1.0, 1, NOW, NOW, false),
        make_row(k3, Direction::Outbound, 300, 3.0, 3, NOW, NOW, false),
        make_row(k2, Direction::Inbound, 20, 2.0, 2, NOW, NOW, false),
    ];
    let conns = merge_flow_rows(rows);
    let bytes: u64 = conns.iter().map(|c| c.tx_bytes + c.rx_bytes).sum();
    let packets: u64 = conns.iter().map(|c| c.packets).sum();
    assert_eq!(bytes, 330);
    assert_eq!(packets, 6);
    assert_eq!(conns.len(), 2);
}

#[test]
fn merge_keeps_first_process_and_newest_summary() {
    let out_key = flow_key("10.0.0.1", 52010, "10.0.0.2", 443, IPPROTO_TCP);
    let inn_key = flow_key("10.0.0.2", 443, "10.0.0.1", 52010, IPPROTO_TCP);
    let mut a = make_row(out_key, Direction::Outbound, 1, 0.0, 1, t(9), t(6), false);
    a.pid = Some(7);
    a.process_name = Some("curl".to_string());
    a.last_summary = Some("old".to_string());
    let mut b = make_row(inn_key, Direction::Inbound, 1, 0.0, 1, t(8), t(3), false);
    b.pid = Some(8);
    b.last_summary = Some("new".to_string());
    let conns = merge_flow_rows(vec![a, b]);
    assert_eq!(conns[0].pid, Some(7));
    assert_eq!(conns[0].process_name.as_deref(), Some("curl"));
    assert_eq!(conns[0].last_summary.as_deref(), Some("new"));
}

#[test]
fn merge_sums_rates_in_single_precision() {
    let out_key = flow_key("10.0.0.1", 52020, "10.0.0.2", 443, IPPROTO_TCP);
    let x: f32 = 16_777_216.0;
    let conns = merge_flow_rows(vec![
        make_row(out_key, Direction::Outbound, 0, x, 0, NOW, NOW, false),
        make_row(out_key, Direction::Outbound, 0, 1.0, 0, NOW, NOW, false),
        make_row(out_key, Direction::Outbound, 0, 0.1, 0, NOW, NOW, false),
    ]);
    assert_eq!(rate(conns[0].tx_bps), x + 1.0 + 0.1);
}

#[test]
fn try_merge_refuses_only_counter_overflow() {
    let k = flow_key("10.0.0.1", 1, "10.0.0.2", 2, IPPROTO_TCP);
    let big = vec![
        make_row(k, Direction::Outbound, u64::MAX, 0.0, 0, NOW, NOW, false),
        make_row(k, Direction::Outbound, 1, 0.0, 0, NOW, NOW, false),
    ];
    assert!(try_merge_flow_rows(&big).is_none());
    let nan = vec![make_row(k, Direction::Outbound, 1, f32::NAN, 0, NOW, NOW, false)];
    assert!(rate(try_merge_flow_rows(&nan).unwrap()[0].tx_bps).is_nan());
    let clash = vec![
        make_row(k, Direction::Outbound, 1, f32::INFINITY, 0, NOW, NOW, false),
        make_row(k, Direction::Outbound, 1, f32::NEG_INFINITY, 0, NOW, NOW, false),
    ];
    assert!(rate(try_merge_flow_rows(&clash).unwrap()[0].tx_bps).is_nan());
    let negative = vec![make_row(k, Direction::Outbound, 1, -1.5, 0, NOW, NOW, false)];
    let merged = try_merge_flow_rows(&negative).unwrap();
    assert_eq!(merged.len(), 1);
    assert_eq!(rate(merged[0].tx_bps), -1.5);
    let fine = vec![make_row(k, Direction::Outbound, 1, 1.0, 0, NOW, NOW, false)];
    assert_eq!(try_merge_flow_rows(&fine).unwrap().len(), 1);
}

// --- sort_conns ---

#[test]
fn sort_conns_by_total_bytes_desc() {
    let now = NOW;
    let mut conns = vec![
        make_conn(1, 443, 100, 0, now),
        make_conn(2, 443, 300, 0, now),
        make_conn(3, 443, 200, 0, now),
    ];
    sort_conns(&mut conns, SortColumn::Bytes, SortDirection::Desc);
    let totals: Vec<u64> = conns.iter().map(|c| c.total_bytes()).collect();
    assert_eq!(totals, vec![300, 200, 100]);
}

#[test]
fn sort_conns_by_total_bytes_asc() {
    let now = NOW;
    let mut conns = vec![
        make_conn(1, 443, 300, 0, now),
        make_conn(2, 443, 100, 0, now),
        make_conn(3, 443, 200, 0, now),
    ];
    sort_conns(&mut conns, SortColumn::Bytes, SortDirection::Asc);
    let totals: Vec<u64> = conns.iter().map(|c| c.total_bytes()).collect();
    assert_eq!(totals, vec![100, 200, 300]);
}

#[test]
fn sort_conns_by_dst_port_asc() {
    let now = NOW;
    let mut conns = vec![
        make_conn(1, 8080, 0, 0, now),
        make_conn(2, 443, 0, 0, now),
        make_conn(3, 80, 0, 0, now),
    ];
    sort_conns(&mut conns, SortColumn::DstPort, SortDirection::Asc);
    let ports: Vec<u16> = conns.iter().map(|c| c.remote.1).collect();
    assert_eq!(ports, vec![80, 443, 8080]);
}

#[test]
fn sort_conns_fixed_orders_by_first_seen_ascending() {
    let mut conns = vec![make_conn(1, 443, 0, 0, t(10)), make_conn(2, 443, 0, 0, t(5)), make_conn(3, 443, 0, 0, t(1))];
    conns.reverse();
    sort_conns(&mut conns, SortColumn::Fixed, SortDirection::Asc);
    assert!(conns[0].first_seen < conns[1].first_seen);
    assert!(conns[1].first_seen < conns[2].first_seen);
}

#[test]
fn sort_conns_by_total_rate_desc() {
    let mut conns = vec![make_conn(1, 1, 10, 5, NOW), make_conn(2, 2, 1, 100, NOW), make_conn(3, 3, 40, 0, NOW)];
    sort_conns(&mut conns, SortColumn::Bps, SortDirection::Desc);
    let ports: Vec<u16> = conns.iter().map(|c| c.local.1).collect();
    assert_eq!(ports, vec![2, 3, 1]);
    assert_eq!(f32::from_bits(conns[0].total_bps().bits), 101.0);
}

// --- sort_entries ---

#[test]
fn sort_entries_desc_breaks_ties_by_first_seen() {
    let k = flow_key("10.0.0.1", 1, "10.0.0.2", 2, IPPROTO_TCP);
    let mut rows = vec![
        make_row(k, Direction::Outbound, 5, 0.0, 0, t(1), NOW, false),
        make_row(k, Direction::Outbound, 9, 0.0, 0, t(2), NOW, false),
        make_row(k, Direction::Outbound, 5, 0.0, 0, t(3), NOW, false),
    ];
    sort_entries(&mut rows, SortColumn::Bytes, SortDirection::Desc);
    let seen: Vec<u64> = rows.iter().map(|r| r.first_seen).collect();
    assert_eq!(seen, vec![t(2), t(3), t(1)]);
}

#[test]
fn sort_entries_by_src_ip_puts_v4_before_v6() {
    let mut v6 = make_row(flow_key("10.0.0.1", 1, "10.0.0.2", 2, 6), Direction::Outbound, 0, 0.0, 0, t(1), NOW, false);
    v6.key.src_ip = IpAddress::v6(1);
    let v4 = make_row(flow_key("10.0.0.9", 1, "10.0.0.2", 2, 6), Direction::Outbound, 0, 0.0, 0, t(2), NOW, false);
    let mut rows = vec![v6, v4];
    sort_entries(&mut rows, SortColumn::SrcIp, SortDirection::Asc);
    assert!(!rows[0].key.src_ip.v6);
}

#[test]
fn sort_column_cycles_through_all_twelve() {
    let mut c = SortColumn::default();
    assert_eq!(c, SortColumn::Fixed);
    for _ in 0..12 {
        c = c.next();
    }
    assert_eq!(c, SortColumn::Fixed);
    assert_eq!(SortColumn::LastPacket.next(), SortColumn::Fixed);
    assert_eq!(SortColumn::Process.next(), SortColumn::Bps);
}

// --- key handling ---

fn press(c: char) -> KeyPress {
    KeyPress { key: Key::Char(c), ctrl: false, alt: false }
}

fn key(k: Key) -> KeyPress {
    KeyPress { key: k, ctrl: false, alt: false }
}

#[test]
fn dashboard_quit_and_interrupt() {
    let mut s = DashboardState::default();
    let mut p = UiPrefs::default();
    assert_eq!(dashboard_key(&mut s, &mut p, press('q'), vec![]), DashboardAction::Quit);
    let ctrl_c = KeyPress { key: Key::Char('c'), ctrl: true, alt: false };
    assert_eq!(dashboard_key(&mut s, &mut p, ctrl_c, vec![]), DashboardAction::Stay);
}

#[test]
fn dashboard_toggles_and_navigation() {
    let mut s = DashboardState::default();
    let mut p = UiPrefs::default();
    assert!(p.names_mode && !p.show_help && !p.show_expired && !p.aggregate);
    dashboard_key(&mut s, &mut p, press('n'), vec![]);
    dashboard_key(&mut s, &mut p, press('e'), vec![]);
    dashboard_key(&mut s, &mut p, press('a'), vec![]);
    assert!(!p.names_mode && p.show_expired && p.aggregate);
    dashboard_key(&mut s, &mut p, key(Key::Up), vec![]);
    assert_eq!(s.selected, 0);
    dashboard_key(&mut s, &mut p, press('j'), vec![]);
    dashboard_key(&mut s, &mut p, key(Key::Down), vec![]);
    assert_eq!(s.selected, 2);
    dashboard_key(&mut s, &mut p, press('s'), vec![]);
    assert_eq!(s.sort_column, SortColumn::SrcIp);
    dashboard_key(&mut s, &mut p, press('S'), vec![]);
    assert_eq!(s.sort_direction, SortDirection::Desc);
    assert_eq!(dashboard_key(&mut s, &mut p, press('p'), vec![]), DashboardAction::ShowProcesses);
}

#[test]
fn dashboard_pause_freezes_live_rows_and_unpause_drops_them() {
    let mut s = DashboardState::default();
    let mut p = UiPrefs::default();
    let k = flow_key("10.0.0.1", 1, "10.0.0.2", 2, IPPROTO_TCP);
    dashboard_key(&mut s, &mut p, press(' '), vec![make_row(k, Direction::Outbound, 1, 0.0, 1, NOW, NOW, false)]);
    assert!(s.paused);
    assert_eq!(s.frozen.as_ref().map(|f| f.len()), Some(1));
    dashboard_key(&mut s, &mut p, press(' '), vec![]);
    assert!(!s.paused);
    assert!(s.frozen.is_none());
}

#[test]
fn dashboard_enter_pins_details_until_closed() {
    let mut s = DashboardState::default();
    let mut p = UiPrefs::default();
    let a = flow_key("10.0.0.1", 1, "10.0.0.2", 2, IPPROTO_TCP);
    let b = flow_key("10.0.0.1", 3, "10.0.0.2", 4, IPPROTO_TCP);
    let live = || {
        vec![
            make_row(a, Direction::Outbound, 1, 0.0, 1, t(5), NOW, false),
            make_row(b, Direction::Outbound, 1, 0.0, 1, t(4), NOW, false),
        ]
    };
    s.selected = 7;
    dashboard_key(&mut s, &mut p, key(Key::Enter), live());
    assert!(s.show_details);
    assert_eq!(s.details_flow, Some(b), "cursor past the end selects the last row");
    // While pinned, table keys are inert.
    dashboard_key(&mut s, &mut p, press('s'), live());
    assert_eq!(s.sort_column, SortColumn::Fixed);
    dashboard_key(&mut s, &mut p, press('b'), live());
    assert!(!s.show_details);
    assert_eq!(s.details_flow, None);
}

#[test]
fn dashboard_enter_in_merged_view_pins_sent_half() {
    let mut s = DashboardState::default();
    let mut p = UiPrefs::default();
    p.aggregate = true;
    let out_key = flow_key("10.0.0.1", 52000, "10.0.0.2", 443, IPPROTO_TCP);
    let inn_key = flow_key("10.0.0.2", 443, "10.0.0.1", 52000, IPPROTO_TCP);
    let live = vec![
        make_row(inn_key, Direction::Inbound, 1, 0.0, 1, NOW, NOW, false),
        make_row(out_key, Direction::Outbound, 1, 0.0, 1, NOW, NOW, false),
    ];
    assert!(conn_view_is_ready(&live, p.show_expired, s.sort_column));
    assert_eq!(selected_flow_key(&s, &p, &live), Some(out_key));
    dashboard_key(&mut s, &mut p, key(Key::Enter), live);
    assert_eq!(s.details_flow, Some(out_key));
}

#[test]
fn dashboard_enter_skips_expired_rows_unless_shown() {
    let mut s = DashboardState::default();
    let mut p = UiPrefs::default();
    let a = flow_key("10.0.0.1", 1, "10.0.0.2", 2, IPPROTO_TCP);
    let b = flow_key("10.0.0.1", 3, "10.0.0.2", 4, IPPROTO_TCP);
    let live = vec![
        make_row(a, Direction::Outbound, 1, 0.0, 1, t(5), NOW, true),
        make_row(b, Direction::Outbound, 1, 0.0, 1, t(4), NOW, false),
    ];
    assert_eq!(selected_flow_key(&s, &p, &live), Some(b));
    p.show_expired = true;
    assert_eq!(selected_flow_key(&s, &p, &live), Some(a));
    s.selected = 0;
    assert_eq!(selected_flow_key(&s, &p, &vec![]), None);
}

#[test]
fn dashboard_esc_closes_help_then_goes_back() {
    let mut s = DashboardState::default();
    let mut p = UiPrefs::default();
    s.selected_interface = Some("eth0".to_string());
    s.filter = "tcp".to_string();
    dashboard_key(&mut s, &mut p, press('?'), vec![]);
    assert!(p.show_help);
    assert_eq!(dashboard_key(&mut s, &mut p, key(Key::Esc), vec![]), DashboardAction::Stay);
    assert!(!p.show_help);
    assert_eq!(dashboard_key(&mut s, &mut p, key(Key::Esc), vec![]), DashboardAction::BackToPicker);
    assert_eq!(s.selected_interface, None);
    assert_eq!(s.filter, "");
    assert!(!s.paused && s.frozen.is_none());
}

// --- build_live_rows ---

fn live_flow(key: FlowKey, pid: Option<u32>) -> LiveFlow {
    LiveFlow {
        key,
        stats: traffic_stats(1_500, 12.5, 3),
        direction: Direction::Outbound,
        last_summary: Some("GET /".to_string()),
        app_host: Some((AppKind::Sni, "example.com".to_string())),
        first_seen: t(60),
        last_seen: t(1),
        expired: false,
        pid,
    }
}

fn process(name: &str) -> ProcessInfo {
    ProcessInfo { name: name.to_string(), ppid: None, user: None, alive: true, exe: None, cmdline: vec![] }
}

#[test]
fn build_live_rows_resolves_process_names_in_order() {
    let mut table = FxHashMap::default();
    table.insert(42, process("firefox"));
    let table = ProcessTable(table);
    let k1 = flow_key("10.0.0.1", 5000, "1.1.1.1", 443, IPPROTO_TCP);
    let k2 = flow_key("10.0.0.1", 5001, "1.1.1.1", 443, IPPROTO_TCP);
    let k3 = flow_key("10.0.0.1", 5002, "1.1.1.1", 443, IPPROTO_TCP);
    let flows = vec![live_flow(k1, Some(42)), live_flow(k2, Some(7)), live_flow(k3, None)];
    let rows = build_live_rows(&flows, &table);
    assert_eq!(rows.len(), 3);
    assert_eq!(rows[0].key, k1);
    assert_eq!(rows[0].pid, Some(42));
    assert_eq!(rows[0].process_name.as_deref(), Some("firefox"));
    assert_eq!(rows[0].last_summary.as_deref(), Some("GET /"));
    assert_eq!(rows[0].app_host, Some((AppKind::Sni, "example.com".to_string())));
    assert_eq!(rows[0].stats, traffic_stats(1_500, 12.5, 3));
    assert_eq!((rows[0].first_seen, rows[0].last_seen), (t(60), t(1)));
    // Attributed to a process the table does not know: the PID stays, no name.
    assert_eq!(rows[1].key, k2);
    assert_eq!(rows[1].pid, Some(7));
    assert_eq!(rows[1].process_name, None);
    assert_eq!(process_label(&rows[1]), "pid:7");
    // Not attributed at all.
    assert_eq!(rows[2].pid, None);
    assert_eq!(rows[2].process_name, None);
}

#[test]
fn current_rows_prefers_the_frozen_snapshot() {
    let table = ProcessTable(FxHashMap::default());
    let live_key = flow_key("10.0.0.1", 6000, "1.1.1.1", 443, IPPROTO_TCP);
    let frozen_key = flow_key("10.0.0.1", 6001, "1.1.1.1", 443, IPPROTO_TCP);
    let flows = vec![live_flow(live_key, None)];
    let mut state = DashboardState::default();
    let live = current_rows(&state, &flows, &table);
    assert_eq!(live.len(), 1);
    assert_eq!(live[0].key, live_key);
    state.frozen = Some(vec![make_row(frozen_key, Direction::Inbound, 9, 0.0, 1, t(3), t(2), true)]);
    let shown = current_rows(&state, &flows, &table);
    assert_eq!(shown.len(), 1);
    assert_eq!(shown[0].key, frozen_key);
    assert!(shown[0].expired);
}
