//! The live rows of the dashboard and the live parents of the processes
//! tree, built from the flow records of the moment and the process table.

use vstd::prelude::*;
use std::collections::HashMap;
use rustc_hash::FxBuildHasher;
use crate::dashboard::{FlowRow, copy_host, copy_rows, copy_text};
use crate::dashboard_keys::DashboardState;
use crate::details::{ProcessInfo, join_words, joined};
use crate::flow::{AppKind, Direction, FlowKey, TrafficStats};
use crate::processes::{ChildFlow, FrozenProcessRow, ProcessAggregate};
use crate::processes_keys::{ProcessesState, copy_parents, same_parent};
use crate::sorting::pointwise;
use crate::widgets::string_views;

verus! {

/// The processes known to the capture, by PID, in an `FxHashMap`.
pub struct ProcessTable(pub HashMap<u32, ProcessInfo, FxBuildHasher>);

/// The processes an `FxHashMap` of the table holds, by PID.
pub uninterp spec fn process_entries(m: HashMap<u32, ProcessInfo, FxBuildHasher>) -> Map<u32, ProcessInfo>;

/// `HashMap::get`: the process the table holds for `pid`, if any.
#[verifier::external_body]
fn process_get(m: &HashMap<u32, ProcessInfo, FxBuildHasher>, pid: u32) -> (r: Option<&ProcessInfo>)
    ensures
        match r {
            Some(info) => process_entries(*m).contains_key(pid) && *info == process_entries(*m)[pid],
            None => !process_entries(*m).contains_key(pid),
        },
{
    m.get(&pid)
}

/// One live flow record: its key, counters, direction, the last payload
/// summary and application host, its first and last moments (ticks),
/// whether it expired, and the PID of its process when it is attributed.
#[derive(Debug, Clone)]
pub struct LiveFlow {
    pub key: FlowKey,
    pub stats: TrafficStats,
    pub direction: Direction,
    pub last_summary: Option<String>,
    pub app_host: Option<(AppKind, String)>,
    pub first_seen: u64,
    pub last_seen: u64,
    pub expired: bool,
    pub pid: Option<u32>,
}

/// The name the process table gives `pid`, if it knows the process.
pub open spec fn known_name(pid: Option<u32>, table: Map<u32, ProcessInfo>) -> Option<String> {
    match pid {
        Some(p) => if table.contains_key(p) { Some(table[p].name) } else { None },
        None => None,
    }
}

/// The dashboard row of a live flow: its own fields, with the name of its
/// process resolved now, so a paused snapshot keeps it.
pub open spec fn live_row(f: LiveFlow, table: Map<u32, ProcessInfo>) -> FlowRow {
    FlowRow {
        key: f.key,
        stats: f.stats,
        direction: f.direction,
        last_summary: f.last_summary,
        app_host: f.app_host,
        first_seen: f.first_seen,
        last_seen: f.last_seen,
        expired: f.expired,
        pid: f.pid,
        process_name: known_name(f.pid, table),
    }
}

/// Walk the live flow records once and build one owned dashboard row for
/// each, in the same order.
pub fn build_live_rows(flows: &Vec<LiveFlow>, table: &ProcessTable) -> (r: Vec<FlowRow>)
    ensures
        r.len() == flows.len(),
        forall|i: int| 0 <= i < flows.len() ==> #[trigger] r@[i] == live_row(flows@[i], process_entries(table.0)),
{
    let mut out: Vec<FlowRow> = Vec::new();
    let mut i: usize = 0;
    while i < flows.len()
        invariant
            i <= flows.len(),
            out.len() == i,
            forall|j: int| 0 <= j < i ==> #[trigger] out@[j] == live_row(flows@[j], process_entries(table.0)),
        decreases flows.len() - i,
    {
        let f = &flows[i];
        let process_name = match f.pid {
            Some(p) => match process_get(&table.0, p) {
                Some(info) => Some(info.name.clone()),
                None => None,
            },
            None => None,
        };
        out.push(FlowRow {
            key: f.key,
            stats: f.stats,
            direction: f.direction,
            last_summary: copy_text(&f.last_summary),
            app_host: copy_host(&f.app_host),
            first_seen: f.first_seen,
            last_seen: f.last_seen,
            expired: f.expired,
            pid: f.pid,
            process_name,
        });
        i = i + 1;
    }
    out
}

/// The flows grouped by the PID of their process, in an `FxHashMap`.
pub uninterp spec fn grouped_flows(m: HashMap<u32, Vec<ChildFlow>, FxBuildHasher>) -> Map<u32, Seq<ChildFlow>>;

/// `FxHashMap::default()` (`HashMap::default`): a map holding no group.
#[verifier::external_body]
fn groups_new() -> (g: HashMap<u32, Vec<ChildFlow>, FxBuildHasher>)
    ensures
        grouped_flows(g) =~= Map::empty(),
{
    HashMap::default()
}

/// `HashMap::remove`: takes the group of `pid` out of the map, returning it
/// when the map held one.
#[verifier::external_body]
fn groups_take(m: &mut HashMap<u32, Vec<ChildFlow>, FxBuildHasher>, pid: u32) -> (r: Option<Vec<ChildFlow>>)
    ensures
        grouped_flows(*final(m)) == grouped_flows(*old(m)).remove(pid),
        match r {
            Some(v) => grouped_flows(*old(m)).contains_key(pid) && v@ == grouped_flows(*old(m))[pid],
            None => !grouped_flows(*old(m)).contains_key(pid),
        },
{
    m.remove(&pid)
}

/// `HashMap::insert`: the map afterwards holds `v` as the group of `pid`,
/// in place of any group it held for it.
#[verifier::external_body]
fn groups_put(m: &mut HashMap<u32, Vec<ChildFlow>, FxBuildHasher>, pid: u32, v: Vec<ChildFlow>)
    ensures
        grouped_flows(*final(m)) == grouped_flows(*old(m)).insert(pid, v@),
{
    m.insert(pid, v);
}

/// The group of `pid`, empty when the map holds none.
pub open spec fn group_of(m: Map<u32, Seq<ChildFlow>>, pid: u32) -> Seq<ChildFlow> {
    if m.contains_key(pid) {
        m[pid]
    } else {
        Seq::empty()
    }
}

/// The flows of process `pid`, in the order the flow records come.
pub open spec fn flows_of_pid(flows: Seq<(u32, ChildFlow)>, pid: u32) -> Seq<ChildFlow>
    decreases flows.len(),
{
    if flows.len() == 0 {
        Seq::empty()
    } else {
        let prev = flows_of_pid(flows.drop_last(), pid);
        if flows.last().0 == pid {
            prev.push(flows.last().1)
        } else {
            prev
        }
    }
}

/// Whether `pid` stands among the first `n` process entries.
pub open spec fn pid_listed(by_pid: Seq<(u32, ProcessAggregate)>, n: int, pid: u32) -> bool {
    exists|j: int| 0 <= j < n && #[trigger] by_pid[j].0 == pid
}

/// The children of process entry `i`: the flows of its PID, unless an
/// earlier entry already took them.
pub open spec fn entry_children(by_pid: Seq<(u32, ProcessAggregate)>, i: int, flows: Seq<(u32, ChildFlow)>) -> Seq<ChildFlow> {
    if pid_listed(by_pid, i, by_pid[i].0) {
        Seq::empty()
    } else {
        flows_of_pid(flows, by_pid[i].0)
    }
}

/// The command text of a process: its command line joined by spaces, else
/// the path of its executable, else nothing.
pub open spec fn cmd_text(info: ProcessInfo) -> Seq<char> {
    if info.cmdline.len() == 0 {
        match info.exe {
            Some(e) => e@,
            None => Seq::empty(),
        }
    } else {
        joined(string_views(info.cmdline@))
    }
}

/// `r` is the live parent row of process `pid` with aggregate `agg` and
/// these children: name, user, command and liveness from the process
/// table, or `"?"`, no user, no command and not alive when the table does
/// not know the process.
pub open spec fn is_live_parent(
    r: FrozenProcessRow,
    pid: u32,
    agg: ProcessAggregate,
    table: Map<u32, ProcessInfo>,
    children: Seq<ChildFlow>,
) -> bool {
    &&& r.pid == pid
    &&& r.agg == agg
    &&& r.children@ == children
    &&& if table.contains_key(pid) {
        &&& r.name == table[pid].name
        &&& r.user == table[pid].user
        &&& r.cmd@ == cmd_text(table[pid])
        &&& r.alive == table[pid].alive
    } else {
        &&& r.name@ == "?"@
        &&& r.user is None
        &&& r.cmd@ == Seq::<char>::empty()
        &&& !r.alive
    }
}

fn command_of(info: &ProcessInfo) -> (r: String)
    ensures
        r@ == cmd_text(*info),
{
    if info.cmdline.len() == 0 {
        match &info.exe {
            Some(e) => e.clone(),
            None => String::new(),
        }
    } else {
        join_words(&info.cmdline)
    }
}

/// Group the live flows by process and build one parent row per entry of
/// the per-process aggregates, in the order those entries come; children
/// keep the order of the flow records (the tree sort orders both later).
pub fn build_live_parents(
    by_pid: &Vec<(u32, ProcessAggregate)>,
    table: &ProcessTable,
    flows: &Vec<(u32, ChildFlow)>,
) -> (r: Vec<FrozenProcessRow>)
    ensures
        r.len() == by_pid.len(),
        forall|i: int| 0 <= i < by_pid.len() ==> is_live_parent(
            #[trigger] r@[i],
            by_pid@[i].0,
            by_pid@[i].1,
            process_entries(table.0),
            entry_children(by_pid@, i, flows@),
        ),
{
    let mut groups = groups_new();
    let mut k: usize = 0;
    while k < flows.len()
        invariant
            k <= flows.len(),
            forall|p: u32| #[trigger] group_of(grouped_flows(groups), p) == flows_of_pid(flows@.take(k as int), p),
        decreases flows.len() - k,
    {
        let (pid, child) = flows[k];
        let ghost before = grouped_flows(groups);
        let mut v = match groups_take(&mut groups, pid) {
            Some(v) => v,
            None => Vec::new(),
        };
        v.push(child);
        groups_put(&mut groups, pid, v);
        proof {
            assert(flows@.take(k + 1).drop_last() =~= flows@.take(k as int));
            assert forall|p: u32| #[trigger] group_of(grouped_flows(groups), p) == flows_of_pid(flows@.take(k + 1), p) by {
                assert(group_of(before, p) == flows_of_pid(flows@.take(k as int), p));
            }
        }
        k = k + 1;
    }
    proof {
        assert(flows@.take(flows.len() as int) =~= flows@);
    }
    let mut out: Vec<FrozenProcessRow> = Vec::new();
    let mut i: usize = 0;
    while i < by_pid.len()
        invariant
            i <= by_pid.len(),
            out.len() == i,
            forall|p: u32| #[trigger] group_of(grouped_flows(groups), p) == if pid_listed(by_pid@, i as int, p) {
                Seq::<ChildFlow>::empty()
            } else {
                flows_of_pid(flows@, p)
            },
            forall|j: int| 0 <= j < i ==> is_live_parent(
                #[trigger] out@[j],
                by_pid@[j].0,
                by_pid@[j].1,
                process_entries(table.0),
                entry_children(by_pid@, j, flows@),
            ),
        decreases by_pid.len() - i,
    {
        let (pid, agg) = by_pid[i];
        let ghost before = grouped_flows(groups);
        let children = match groups_take(&mut groups, pid) {
            Some(v) => v,
            None => Vec::new(),
        };
        proof {
            assert(group_of(before, pid) == children@);
            assert(entry_children(by_pid@, i as int, flows@) == children@);
            assert forall|p: u32| #[trigger] group_of(grouped_flows(groups), p) == if pid_listed(by_pid@, i + 1, p) {
                Seq::<ChildFlow>::empty()
            } else {
                flows_of_pid(flows@, p)
            } by {
                assert(by_pid@[i as int].0 == pid);
                if p != pid {
                    assert(group_of(before, p) == group_of(grouped_flows(groups), p));
                    if pid_listed(by_pid@, i + 1, p) {
                        let j = choose|j: int| 0 <= j < i + 1 && #[trigger] by_pid@[j].0 == p;
                        assert(j != i);
                        assert(pid_listed(by_pid@, i as int, p));
                    }
                }
            }
        }
        let row = match process_get(&table.0, pid) {
            Some(info) => FrozenProcessRow {
                pid,
                name: info.name.clone(),
                user: copy_text(&info.user),
                cmd: command_of(info),
                alive: info.alive,
                agg,
                children,
            },
            None => FrozenProcessRow {
                pid,
                name: "?".to_string(),
                user: None,
                cmd: String::new(),
                alive: false,
                agg,
                children,
            },
        };
        proof {
            reveal_strlit("?");
        }
        out.push(row);
        i = i + 1;
    }
    out
}

/// The rows the dashboard shows this frame: the frozen snapshot while
/// paused, else rows freshly built from the live flow records.
pub fn current_rows(state: &DashboardState, flows: &Vec<LiveFlow>, table: &ProcessTable) -> (r: Vec<FlowRow>)
    ensures
        match state.frozen {
            Some(f) => r@ == f@,
            None => r.len() == flows.len() && forall|i: int| 0 <= i < flows.len() ==> #[trigger] r@[i] == live_row(
                flows@[i],
                process_entries(table.0),
            ),
        },
{
    match &state.frozen {
        Some(f) => copy_rows(f),
        None => build_live_rows(flows, table),
    }
}

/// The parents the processes tree shows this frame: the frozen snapshot
/// while paused, else parents freshly built from the live state.
pub fn current_parents(
    state: &ProcessesState,
    by_pid: &Vec<(u32, ProcessAggregate)>,
    table: &ProcessTable,
    flows: &Vec<(u32, ChildFlow)>,
) -> (r: Vec<FrozenProcessRow>)
    ensures
        match state.frozen {
            Some(f) => pointwise(r@, f@, |a: FrozenProcessRow, b: FrozenProcessRow| same_parent(a, b)),
            None => r.len() == by_pid.len() && forall|i: int| 0 <= i < by_pid.len() ==> is_live_parent(
                #[trigger] r@[i],
                by_pid@[i].0,
                by_pid@[i].1,
                process_entries(table.0),
                entry_children(by_pid@, i, flows@),
            ),
        },
{
    match &state.frozen {
        Some(f) => copy_parents(f),
        None => build_live_parents(by_pid, table, flows),
    }
}

} // verus!
