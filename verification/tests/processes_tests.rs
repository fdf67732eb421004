
use rustc_hash::FxHashMap;

use vortex::common::SortDirection;
use vortex::details::ProcessInfo;
use vortex::live::{build_live_parents, current_parents, ProcessTable};
use vortex::flow::{Direction, FlowKey, IpAddress, Rate, TrafficStats};
use vortex::format::IPPROTO_TCP;
use vortex::prefs::{Key, KeyPress, UiPrefs};
use vortex::processes::{
    child_rows, initial_sort_direction, sort_children, sort_parents, ChildFlow, ChildRow, FrozenProcessRow,
    ProcSortColumn, ProcessAggregate,
};
use vortex::processes_keys::{
    child_flow_at, flat_row_count, parent_pid_at, processes_key, processes_key_is_ready, tree_lines, ProcessesAction,
    ProcessesState, TreeLine,
};

const SEC: u64 = 1_000_000_000;
const NOW: u64 = 1_000_000 * SEC;

fn addr(s: &str) -> IpAddress {
    let octets: Vec<u8> = s.split('.').map(|p| p.parse().unwrap()).collect();
    IpAddress::v4(u32::from_be_bytes([octets[0], octets[1], octets[2], octets[3]]))
}

fn flow_key(src: &str, sport: u16, dst: &str, dport: u16, proto: u8) -> FlowKey {
    FlowKey { src_ip: addr(src), dst_ip: addr(dst), src_port: sport, dst_port: dport, proto }
}

fn traffic_stats(bytes: u64, bps: f32, packets: u64) -> TrafficStats {
    TrafficStats { bytes, bps: Rate { bits: bps.to_bits() }, packets }
}

fn make_parent(pid: u32, name: &str, bps: f32, bytes: u64) -> FrozenProcessRow {
    FrozenProcessRow {
        pid,
        name: name.to_string(),
        user: None,
        cmd: String::new(),
        alive: true,
        agg: ProcessAggregate { bps: Rate { bits: bps.to_bits() }, bytes, packets: 0, conn_count: 1 },
        children: vec![],
    }
}

fn child(bytes: u64, bps: f32, expired: bool, ago_secs: u64) -> ChildFlow {
    (
        flow_key("10.0.0.1", 1234, "8.8.8.8", 53, IPPROTO_TCP),
        traffic_stats(bytes, bps, 0),
        NOW - ago_secs * SEC,
        expired,
        Direction::Outbound,
    )
}

fn bps_of(r: Rate) -> f32 {
    f32::from_bits(r.bits)
}

// --- sort_parents ---

#[test]
fn sort_parents_fixed_orders_by_pid_asc() {
    let mut parents = vec![make_parent(30, "c", 0.0, 0), make_parent(10, "a", 0.0, 0), make_parent(20, "b", 0.0, 0)];
    sort_parents(&mut parents, ProcSortColumn::Fixed, SortDirection::Asc);
    let pids: Vec<u32> = parents.iter().map(|p| p.pid).collect();
    assert_eq!(pids, [10, 20, 30]);
}

#[test]
fn sort_parents_by_bps_desc() {
    let mut parents = vec![make_parent(1, "low", 10.0, 0), make_parent(2, "high", 100.0, 0), make_parent(3, "mid", 50.0, 0)];
    sort_parents(&mut parents, ProcSortColumn::Bps, SortDirection::Desc);
    let bps: Vec<u32> = parents.iter().map(|p| bps_of(p.agg.bps) as u32).collect();
    assert_eq!(bps, [100, 50, 10]);
}

#[test]
fn sort_parents_by_name_asc() {
    let mut parents = vec![make_parent(1, "zsh", 0.0, 0), make_parent(2, "curl", 0.0, 0), make_parent(3, "bash", 0.0, 0)];
    sort_parents(&mut parents, ProcSortColumn::Name, SortDirection::Asc);
    let names: Vec<&str> = parents.iter().map(|p| p.name.as_str()).collect();
    assert_eq!(names, ["bash", "curl", "zsh"]);
}

#[test]
fn sort_parents_direction_reversal() {
    let mut asc = vec![make_parent(1, "a", 10.0, 0), make_parent(2, "b", 50.0, 0), make_parent(3, "c", 30.0, 0)];
    let mut desc = asc.clone();
    sort_parents(&mut asc, ProcSortColumn::Bps, SortDirection::Asc);
    sort_parents(&mut desc, ProcSortColumn::Bps, SortDirection::Desc);
    let pids_asc: Vec<u32> = asc.iter().map(|p| p.pid).collect();
    let pids_desc: Vec<u32> = desc.iter().map(|p| p.pid).collect();
    assert_ne!(pids_asc, pids_desc);
    let mut reversed = pids_asc.clone();
    reversed.reverse();
    assert_eq!(pids_desc, reversed);
}

#[test]
fn sort_parents_also_sorts_children_by_bps() {
    let mut parent = make_parent(1, "p", 0.0, 0);
    parent.children = vec![child(100, 10.0, false, 3), child(500, 80.0, false, 1), child(200, 40.0, false, 2)];
    let mut parents = vec![parent];
    sort_parents(&mut parents, ProcSortColumn::Bps, SortDirection::Desc);
    let bps: Vec<u32> = parents[0].children.iter().map(|(_, s, _, _, _)| bps_of(s.bps) as u32).collect();
    assert_eq!(bps, [80, 40, 10]);
}

#[test]
fn sort_parents_user_column_sorts_missing_user_first() {
    let mut a = make_parent(1, "a", 0.0, 0);
    a.user = Some("root".to_string());
    let b = make_parent(2, "b", 0.0, 0);
    let mut parents = vec![a, b];
    sort_parents(&mut parents, ProcSortColumn::User, SortDirection::Asc);
    assert_eq!(parents[0].pid, 2);
}

#[test]
fn sort_children_fixed_is_first_seen_order() {
    let mut cs = vec![child(1, 1.0, false, 1), child(2, 2.0, false, 5), child(3, 3.0, false, 3)];
    sort_children(&mut cs, ProcSortColumn::Name, SortDirection::Desc);
    let bytes: Vec<u64> = cs.iter().map(|c| c.1.bytes).collect();
    assert_eq!(bytes, [2, 3, 1]);
}

#[test]
fn proc_sort_column_cycle_and_default_direction() {
    let mut c = ProcSortColumn::default();
    for _ in 0..7 {
        c = c.next();
    }
    assert_eq!(c, ProcSortColumn::Fixed);
    assert_eq!(initial_sort_direction(ProcSortColumn::Bps), SortDirection::Desc);
    assert_eq!(initial_sort_direction(ProcSortColumn::ConnCount), SortDirection::Desc);
    assert_eq!(initial_sort_direction(ProcSortColumn::Name), SortDirection::Asc);
}

// --- child_rows ---

#[test]
fn child_rows_non_aggregate_returns_flows() {
    let mut parent = make_parent(1, "p", 0.0, 0);
    parent.children = vec![child(100, 10.0, false, 2), child(200, 20.0, false, 1)];
    let rows = child_rows(&parent, true, false, ProcSortColumn::Fixed, SortDirection::Asc);
    assert_eq!(rows.len(), 2);
    for r in &rows {
        assert!(matches!(r, ChildRow::Flow { .. }));
    }
}

#[test]
fn child_rows_filters_expired_when_hidden() {
    let mut parent = make_parent(1, "p", 0.0, 0);
    parent.children = vec![child(100, 10.0, false, 2), child(200, 20.0, true, 1)];
    let visible = child_rows(&parent, false, false, ProcSortColumn::Fixed, SortDirection::Asc);
    assert_eq!(visible.len(), 1);
    if let ChildRow::Flow { expired, .. } = &visible[0] {
        assert!(!expired);
    }
}

#[test]
fn child_rows_aggregate_merges_opposing_flows_into_conn() {
    let outbound_key = flow_key("10.0.0.1", 1234, "8.8.8.8", 53, IPPROTO_TCP);
    let inbound_key = flow_key("8.8.8.8", 53, "10.0.0.1", 1234, IPPROTO_TCP);
    let t = NOW - 5 * SEC;
    let mut parent = make_parent(1, "p", 0.0, 0);
    parent.children = vec![
        (outbound_key, traffic_stats(1000, 100.0, 10), t, false, Direction::Outbound),
        (inbound_key, traffic_stats(500, 50.0, 5), t, false, Direction::Inbound),
    ];
    let rows = child_rows(&parent, true, true, ProcSortColumn::Fixed, SortDirection::Asc);
    assert_eq!(rows.len(), 1);
    if let ChildRow::Conn { bytes, bps, expired, detail_key, .. } = &rows[0] {
        assert_eq!(*bytes, 1500);
        assert!((bps_of(*bps) - 150.0).abs() < 0.01, "bps={}", bps_of(*bps));
        assert!(!expired);
        assert_eq!(*detail_key, outbound_key);
    } else {
        panic!("expected ChildRow::Conn, got Flow");
    }
}

#[test]
fn child_rows_aggregate_drops_expired_connections_when_hidden() {
    let a = flow_key("10.0.0.1", 1, "8.8.8.8", 53, IPPROTO_TCP);
    let b = flow_key("10.0.0.1", 2, "8.8.8.8", 53, IPPROTO_TCP);
    let mut parent = make_parent(1, "p", 0.0, 0);
    parent.children = vec![
        (a, traffic_stats(1, 1.0, 1), NOW, true, Direction::Outbound),
        (b, traffic_stats(9, 1.0, 1), NOW, false, Direction::Outbound),
    ];
    let hidden = child_rows(&parent, false, true, ProcSortColumn::Bytes, SortDirection::Desc);
    assert_eq!(hidden.len(), 1);
    let shown = child_rows(&parent, true, true, ProcSortColumn::Bytes, SortDirection::Desc);
    assert_eq!(shown.len(), 2);
    assert!(matches!(shown[0], ChildRow::Conn { bytes: 9, .. }));
}

// --- flattened tree ---

fn tree() -> (Vec<FrozenProcessRow>, Vec<Vec<ChildRow>>) {
    let mut p1 = make_parent(10, "a", 0.0, 0);
    p1.children = vec![child(1, 1.0, false, 3), child(2, 2.0, false, 2)];
    let p2 = make_parent(20, "b", 0.0, 0);
    let lists = vec![
        child_rows(&p1, true, false, ProcSortColumn::Fixed, SortDirection::Asc),
        child_rows(&p2, true, false, ProcSortColumn::Fixed, SortDirection::Asc),
    ];
    (vec![p1, p2], lists)
}

#[test]
fn flattened_tree_counts_and_resolves_lines() {
    let (parents, lists) = tree();
    let mut state = ProcessesState::default();
    assert_eq!(flat_row_count(&parents, &lists, &state), 2);
    state.expanded.insert(10);
    assert_eq!(flat_row_count(&parents, &lists, &state), 4);
    state.selected = 0;
    assert_eq!(parent_pid_at(&parents, &lists, &state), Some(10));
    assert_eq!(child_flow_at(&parents, &lists, &state), None);
    state.selected = 2;
    assert_eq!(parent_pid_at(&parents, &lists, &state), None);
    assert!(child_flow_at(&parents, &lists, &state).is_some());
    state.selected = 3;
    assert_eq!(parent_pid_at(&parents, &lists, &state), Some(20));
    state.selected = 4;
    assert_eq!(parent_pid_at(&parents, &lists, &state), None);
    assert_eq!(child_flow_at(&parents, &lists, &state), None);
}

// --- key handling ---

fn press(c: char) -> KeyPress {
    KeyPress { key: Key::Char(c), ctrl: false, alt: false }
}

fn key(k: Key) -> KeyPress {
    KeyPress { key: k, ctrl: false, alt: false }
}

#[test]
fn processes_enter_expands_then_collapses_parent() {
    let (parents, _) = tree();
    let mut s = ProcessesState::default();
    let mut p = UiPrefs::default();
    assert!(processes_key_is_ready(&s, &p, key(Key::Enter), &parents));
    processes_key(&mut s, &mut p, key(Key::Enter), parents.clone());
    assert!(s.expanded.contains(&10));
    // Down walks into the children now shown.
    processes_key(&mut s, &mut p, key(Key::Down), parents.clone());
    assert_eq!(s.selected, 1);
    processes_key(&mut s, &mut p, key(Key::Enter), parents.clone());
    assert!(s.show_details);
    assert!(s.details_flow.is_some());
    processes_key(&mut s, &mut p, key(Key::Esc), parents.clone());
    assert!(!s.show_details);
    s.selected = 0;
    processes_key(&mut s, &mut p, key(Key::Enter), parents);
    assert!(!s.expanded.contains(&10));
}

#[test]
fn processes_down_stops_at_last_line() {
    let (parents, _) = tree();
    let mut s = ProcessesState::default();
    let mut p = UiPrefs::default();
    for _ in 0..5 {
        processes_key(&mut s, &mut p, press('j'), parents.clone());
    }
    assert_eq!(s.selected, 1);
    processes_key(&mut s, &mut p, press('k'), parents.clone());
    processes_key(&mut s, &mut p, press('k'), parents);
    assert_eq!(s.selected, 0);
}

#[test]
fn processes_sort_key_resets_direction_and_pause_freezes_in_pid_order() {
    let mut s = ProcessesState::default();
    let mut p = UiPrefs::default();
    for _ in 0..4 {
        processes_key(&mut s, &mut p, press('s'), vec![]);
    }
    assert_eq!(s.sort_column, ProcSortColumn::Bps);
    assert_eq!(s.sort_direction, SortDirection::Desc);
    processes_key(&mut s, &mut p, press('S'), vec![]);
    assert_eq!(s.sort_direction, SortDirection::Asc);
    let live = vec![make_parent(30, "c", 0.0, 0), make_parent(10, "a", 0.0, 0)];
    processes_key(&mut s, &mut p, press(' '), live);
    let frozen: Vec<u32> = s.frozen.as_ref().unwrap().iter().map(|r| r.pid).collect();
    assert_eq!(frozen, [10, 30]);
    processes_key(&mut s, &mut p, press('w'), vec![]);
    assert!(s.wrap);
    assert_eq!(processes_key(&mut s, &mut p, press('b'), vec![]), ProcessesAction::ShowDashboard);
    assert!(!s.paused && s.frozen.is_none());
}

#[test]
fn processes_esc_closes_help_but_b_goes_back() {
    let mut s = ProcessesState::default();
    let mut p = UiPrefs::default();
    processes_key(&mut s, &mut p, press('?'), vec![]);
    assert_eq!(processes_key(&mut s, &mut p, key(Key::Esc), vec![]), ProcessesAction::Stay);
    assert!(!p.show_help);
    processes_key(&mut s, &mut p, press('?'), vec![]);
    assert_eq!(processes_key(&mut s, &mut p, press('b'), vec![]), ProcessesAction::ShowDashboard);
    assert_eq!(processes_key(&mut s, &mut p, press('q'), vec![]), ProcessesAction::Quit);
}

// --- build_live_parents ---

fn info(name: &str, user: Option<&str>, exe: Option<&str>, cmdline: &[&str], alive: bool) -> ProcessInfo {
    ProcessInfo {
        name: name.to_string(),
        ppid: Some(1),
        user: user.map(|u| u.to_string()),
        alive,
        exe: exe.map(|e| e.to_string()),
        cmdline: cmdline.iter().map(|w| w.to_string()).collect(),
    }
}

fn agg(bytes: u64) -> ProcessAggregate {
    ProcessAggregate { bps: Rate { bits: 0.0f32.to_bits() }, bytes, packets: 1, conn_count: 1 }
}

#[test]
fn build_live_parents_groups_flows_and_reads_the_table() {
    let mut table = FxHashMap::default();
    table.insert(10, info("curl", Some("alice"), Some("/usr/bin/curl"), &["curl", "-s", "example.com"], true));
    table.insert(20, info("daemon", None, Some("/usr/sbin/daemon"), &[], false));
    table.insert(30, info("ghost", None, None, &[], true));
    let table = ProcessTable(table);
    let a = child(100, 0.0, false, 5);
    let b = child(200, 0.0, true, 4);
    let c = child(300, 0.0, false, 3);
    let flows = vec![(10, a), (40, b), (10, c)];
    let by_pid = vec![(10, agg(400)), (20, agg(0)), (30, agg(0)), (40, agg(200))];
    let parents = build_live_parents(&by_pid, &table, &flows);
    assert_eq!(parents.len(), 4);

    assert_eq!(parents[0].pid, 10);
    assert_eq!(parents[0].name, "curl");
    assert_eq!(parents[0].user.as_deref(), Some("alice"));
    assert_eq!(parents[0].cmd, "curl -s example.com");
    assert!(parents[0].alive);
    assert_eq!(parents[0].agg.bytes, 400);
    assert_eq!(parents[0].children, vec![a, c]);

    // No command line: the executable's path stands in; no children.
    assert_eq!(parents[1].cmd, "/usr/sbin/daemon");
    assert!(!parents[1].alive);
    assert!(parents[1].children.is_empty());

    // Neither command line nor executable: empty command.
    assert_eq!(parents[2].cmd, "");

    // Unknown to the process table: placeholder name, no user, not alive.
    assert_eq!(parents[3].pid, 40);
    assert_eq!(parents[3].name, "?");
    assert_eq!(parents[3].user, None);
    assert_eq!(parents[3].cmd, "");
    assert!(!parents[3].alive);
    assert_eq!(parents[3].children, vec![b]);
}

#[test]
fn build_live_parents_hands_each_group_out_once() {
    let table = ProcessTable(FxHashMap::default());
    let a = child(100, 0.0, false, 5);
    let flows = vec![(7, a)];
    let by_pid = vec![(7, agg(1)), (7, agg(2))];
    let parents = build_live_parents(&by_pid, &table, &flows);
    assert_eq!(parents[0].children, vec![a]);
    assert!(parents[1].children.is_empty());
    assert_eq!(parents[1].agg.bytes, 2);
}

#[test]
fn current_parents_prefers_the_frozen_snapshot() {
    let table = ProcessTable(FxHashMap::default());
    let flows: Vec<(u32, ChildFlow)> = vec![];
    let by_pid = vec![(5, agg(1))];
    let mut state = ProcessesState::default();
    let live = current_parents(&state, &by_pid, &table, &flows);
    assert_eq!(live.len(), 1);
    assert_eq!(live[0].pid, 5);
    assert_eq!(live[0].name, "?");
    state.frozen = Some(vec![make_parent(9, "frozen", 0.0, 0)]);
    let shown = current_parents(&state, &by_pid, &table, &flows);
    assert_eq!(shown.len(), 1);
    assert_eq!(shown[0].pid, 9);
    assert_eq!(shown[0].name, "frozen");
}

#[test]
fn tree_lines_follow_the_cursor_lines() {
    let (parents, lists) = tree();
    let mut state = ProcessesState::default();
    assert_eq!(tree_lines(&parents, &lists, &state), vec![TreeLine::Parent(0), TreeLine::Parent(1)]);
    state.expanded.insert(10);
    assert_eq!(
        tree_lines(&parents, &lists, &state),
        vec![TreeLine::Parent(0), TreeLine::Child(0, 0), TreeLine::Child(0, 1), TreeLine::Parent(1)]
    );
}
