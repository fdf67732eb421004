//! Processes screen: the process tree's sort orders, rows and key handling.

use vstd::prelude::*;
use crate::common::{ConnKey, SortDirection, name_text, no_later, placed_in_order, conn_key, conn_key_of, orient, oriented};
use crate::compare::{three_way, order_rate, order_text, compare_u64, compare_rate, compare_str,
    lemma_order_text_antisymmetric, lemma_order_text_transitive};
use crate::conn::{first_pos, lemma_first_pos, find_conn};
use crate::flow::{Direction, Endpoint, FlowKey, Rate, TrafficStats, endpoint_eq, rate_rank};
use crate::ratesum::{rate_sum, rate_add};
use crate::sorting::{SortedBy, keys_distinct, lemma_stable_sorted_distinct, lemma_stable_sorted_is_sorted, lemma_tie_broken_strict_weak, stable_sort, stable_sorted,
    tie_broken, total_preorder};

verus! {

/// Sort key of the processes table; `Fixed` keeps PID order.
#[derive(Debug, Clone, Copy, PartialEq, Eq, Structural)]
pub enum ProcSortColumn {
    Fixed,
    Pid,
    Name,
    ConnCount,
    Bps,
    Bytes,
    User,
}

impl ProcSortColumn {
    pub open spec fn successor(self) -> ProcSortColumn {
        match self {
            ProcSortColumn::Fixed => ProcSortColumn::Pid,
            ProcSortColumn::Pid => ProcSortColumn::Name,
            ProcSortColumn::Name => ProcSortColumn::ConnCount,
            ProcSortColumn::ConnCount => ProcSortColumn::Bps,
            ProcSortColumn::Bps => ProcSortColumn::Bytes,
            ProcSortColumn::Bytes => ProcSortColumn::User,
            ProcSortColumn::User => ProcSortColumn::Fixed,
        }
    }

    /// Advance to the next column, wrapping back to `Fixed`.
    pub fn next(self) -> (r: Self)
        ensures
            r == self.successor(),
    {
        match self {
            ProcSortColumn::Fixed => ProcSortColumn::Pid,
            ProcSortColumn::Pid => ProcSortColumn::Name,
            ProcSortColumn::Name => ProcSortColumn::ConnCount,
            ProcSortColumn::ConnCount => ProcSortColumn::Bps,
            ProcSortColumn::Bps => ProcSortColumn::Bytes,
            ProcSortColumn::Bytes => ProcSortColumn::User,
            ProcSortColumn::User => ProcSortColumn::Fixed,
        }
    }
}

impl Default for ProcSortColumn {
    fn default() -> (r: ProcSortColumn)
        ensures
            r == ProcSortColumn::Fixed,
    {
        ProcSortColumn::Fixed
    }
}

/// Column `k` steps after `c` in the cycle.
pub open spec fn proc_column_after(c: ProcSortColumn, k: nat) -> ProcSortColumn
    decreases k,
{
    if k == 0 {
        c
    } else {
        proc_column_after(c, (k - 1) as nat).successor()
    }
}

/// Pressing `s` seven times walks every column once and comes back.
pub proof fn lemma_proc_column_cycle(c: ProcSortColumn)
    ensures
        proc_column_after(c, 7) == c,
        forall|k: nat| 0 < k < 7 ==> proc_column_after(c, k) != c,
{
    reveal_with_fuel(proc_column_after, 8);
}

pub open spec fn natural_direction(column: ProcSortColumn) -> SortDirection {
    match column {
        ProcSortColumn::Bps | ProcSortColumn::Bytes | ProcSortColumn::ConnCount => SortDirection::Desc,
        _ => SortDirection::Asc,
    }
}

/// Direction-aware default: bandwidth and connection columns high-to-low,
/// the others ascending.
pub fn initial_sort_direction(column: ProcSortColumn) -> (r: SortDirection)
    ensures
        r == natural_direction(column),
{
    match column {
        ProcSortColumn::Bps | ProcSortColumn::Bytes | ProcSortColumn::ConnCount => SortDirection::Desc,
        _ => SortDirection::Asc,
    }
}

/// Aggregate traffic of one process.
#[derive(Debug, Clone, Copy, PartialEq, Eq, Structural)]
pub struct ProcessAggregate {
    pub bps: Rate,
    pub bytes: u64,
    pub packets: u64,
    pub conn_count: u64,
}

/// One flow under a process: its key, counters, first-seen tick, whether it
/// is expired, and its direction.
pub type ChildFlow = (FlowKey, TrafficStats, u64, bool, Direction);

/// A parent process row with its flow children, owned so a paused snapshot
/// stays stable.
#[derive(Debug, Clone)]
pub struct FrozenProcessRow {
    pub pid: u32,
    pub name: String,
    pub user: Option<String>,
    pub cmd: String,
    pub alive: bool,
    pub agg: ProcessAggregate,
    pub children: Vec<ChildFlow>,
}

/// A sort selection: column and direction.
pub type ProcSort = (ProcSortColumn, SortDirection);

pub open spec fn user_text(u: Option<String>) -> Seq<char> {
    match u {
        Some(s) => s@,
        None => Seq::empty(),
    }
}

/// Comparison of two parents on the selected column alone.
pub open spec fn parent_primary(a: FrozenProcessRow, b: FrozenProcessRow, column: ProcSortColumn) -> int {
    match column {
        ProcSortColumn::Fixed => 0,
        ProcSortColumn::Pid => three_way(a.pid as int, b.pid as int),
        ProcSortColumn::Name => order_text(a.name@, b.name@),
        ProcSortColumn::ConnCount => three_way(a.agg.conn_count as int, b.agg.conn_count as int),
        ProcSortColumn::Bps => order_rate(a.agg.bps, b.agg.bps),
        ProcSortColumn::Bytes => three_way(a.agg.bytes as int, b.agg.bytes as int),
        ProcSortColumn::User => order_text(user_text(a.user), user_text(b.user)),
    }
}

/// Parent order: the selected column (reversed for a descending sort, except
/// `Fixed`, which has no direction), ties broken by PID ascending.
pub open spec fn parent_before(a: FrozenProcessRow, b: FrozenProcessRow, sel: ProcSort) -> bool {
    let p = parent_primary(a, b, sel.0);
    let q = if sel.0 != ProcSortColumn::Fixed && sel.1 == SortDirection::Desc { -p } else { p };
    q < 0 || (q == 0 && a.pid < b.pid)
}

fn parent_primary_exec(a: &FrozenProcessRow, b: &FrozenProcessRow, column: ProcSortColumn) -> (r: i8)
    ensures
        r == parent_primary(*a, *b, column),
        -1 <= r <= 1,
{
    match column {
        ProcSortColumn::Fixed => 0,
        ProcSortColumn::Pid => compare_u64(a.pid as u64, b.pid as u64),
        ProcSortColumn::Name => compare_str(a.name.as_str(), b.name.as_str()),
        ProcSortColumn::ConnCount => compare_u64(a.agg.conn_count, b.agg.conn_count),
        ProcSortColumn::Bps => compare_rate(&a.agg.bps, &b.agg.bps),
        ProcSortColumn::Bytes => compare_u64(a.agg.bytes, b.agg.bytes),
        ProcSortColumn::User => {
            let au: &str = match &a.user {
                Some(s) => s.as_str(),
                None => "",
            };
            let bu: &str = match &b.user {
                Some(s) => s.as_str(),
                None => "",
            };
            proof {
                reveal_strlit("");
            }
            compare_str(au, bu)
        },
    }
}

impl SortedBy<ProcSort> for FrozenProcessRow {
    open spec fn admits(a: Self, c: ProcSort) -> bool {
        true
    }

    open spec fn goes_before(a: Self, b: Self, c: ProcSort) -> bool {
        parent_before(a, b, c)
    }

    fn before(a: &Self, b: &Self, c: &ProcSort) -> (r: bool) {
        let p = parent_primary_exec(a, b, c.0);
        let q: i8 = if c.0 != ProcSortColumn::Fixed && c.1 == SortDirection::Desc { -p } else { p };
        q < 0 || (q == 0 && a.pid < b.pid)
    }
}

/// Comparison of two flow children on the selected column alone: only
/// bandwidth columns have a per-flow value.
pub open spec fn child_primary(a: ChildFlow, b: ChildFlow, column: ProcSortColumn) -> int {
    match column {
        ProcSortColumn::Bps => order_rate(a.1.bps, b.1.bps),
        ProcSortColumn::Bytes => three_way(a.1.bytes as int, b.1.bytes as int),
        _ => 0,
    }
}

/// Child order: bytes or rate (reversed when descending) for the bandwidth
/// columns, ties and every other column by first-seen ascending.
pub open spec fn child_before(a: ChildFlow, b: ChildFlow, sel: ProcSort) -> bool {
    let p = child_primary(a, b, sel.0);
    let bandwidth = sel.0 == ProcSortColumn::Bps || sel.0 == ProcSortColumn::Bytes;
    let q = if bandwidth && sel.1 == SortDirection::Desc { -p } else { p };
    q < 0 || (q == 0 && a.2 < b.2)
}

impl SortedBy<ProcSort> for ChildFlow {
    open spec fn admits(a: Self, c: ProcSort) -> bool {
        true
    }

    open spec fn goes_before(a: Self, b: Self, c: ProcSort) -> bool {
        child_before(a, b, c)
    }

    fn before(a: &Self, b: &Self, c: &ProcSort) -> (r: bool) {
        let p: i8 = match c.0 {
            ProcSortColumn::Bps => compare_rate(&a.1.bps, &b.1.bps),
            ProcSortColumn::Bytes => compare_u64(a.1.bytes, b.1.bytes),
            _ => 0,
        };
        let bandwidth = c.0 == ProcSortColumn::Bps || c.0 == ProcSortColumn::Bytes;
        let q: i8 = if bandwidth && c.1 == SortDirection::Desc { -p } else { p };
        q < 0 || (q == 0 && a.2 < b.2)
    }
}

/// Sort one parent's flow children by the parent's sort selection.
pub fn sort_children(children: &mut [ChildFlow], column: ProcSortColumn, direction: SortDirection)
    ensures
        final(children)@ == stable_sorted(old(children)@, (column, direction)),
{
    stable_sort(children, &(column, direction));
}

fn sort_child_list(children: &mut Vec<ChildFlow>, sel: ProcSort)
    ensures
        final(children)@ == stable_sorted(old(children)@, sel),
{
    stable_sort(children.as_mut_slice(), &sel);
}

/// `b` is `a` with its children put in the sort order `sel`.
pub open spec fn with_sorted_children(a: FrozenProcessRow, b: FrozenProcessRow, sel: ProcSort) -> bool {
    &&& b.pid == a.pid
    &&& b.name == a.name
    &&& b.user == a.user
    &&& b.cmd == a.cmd
    &&& b.alive == a.alive
    &&& b.agg == a.agg
    &&& b.children@ == stable_sorted(a.children@, sel)
}

/// Sort parents by the chosen column and direction (`Fixed` keeps PID
/// order), and each parent's children by the same selection.
pub fn sort_parents(parents: &mut Vec<FrozenProcessRow>, column: ProcSortColumn, direction: SortDirection)
    ensures
        final(parents)@.len() == old(parents)@.len(),
        forall|i: int| 0 <= i < final(parents)@.len() ==> with_sorted_children(
            #[trigger] stable_sorted(old(parents)@, (column, direction))[i],
            final(parents)@[i],
            (column, direction),
        ),
{
    let sel: ProcSort = (column, direction);
    stable_sort(parents.as_mut_slice(), &sel);
    let ghost sorted = parents@;
    proof {
        crate::sorting::lemma_stable_sorted_permutes(old(parents)@, sel);
    }
    let n = parents.len();
    let mut i: usize = 0;
    while i < n
        invariant
            n == parents@.len(),
            sorted.len() == n,
            i <= n,
            sorted == stable_sorted(old(parents)@, sel),
            forall|j: int| 0 <= j < i ==> with_sorted_children(sorted[j], #[trigger] parents@[j], sel),
            forall|j: int| i <= j < n ==> #[trigger] parents@[j] == sorted[j],
        decreases n - i,
    {
        let ghost before = parents@;
        let old_row = parents.remove(i);
        let ghost g_old = old_row;
        let FrozenProcessRow { pid, name, user, cmd, alive, agg, mut children } = old_row;
        let ghost before_children = children@;
        sort_child_list(&mut children, sel);
        let row = FrozenProcessRow { pid, name, user, cmd, alive, agg, children };
        assert(with_sorted_children(g_old, row, sel));
        parents.insert(i, row);
        proof {
            assert forall|j: int| 0 <= j < n && j != i implies #[trigger] parents@[j] == before[j] by {
                if j < i {
                    assert(parents@[j] == before.remove(i as int)[j]);
                } else {
                    assert(parents@[j] == before.remove(i as int)[j - 1]);
                }
            }
            assert(parents@[i as int] == row);
        }
        i = i + 1;
    }
}

/// One visible child line beneath a process: a single directed flow, or in
/// the connection view a connection's opposing flows merged into one row.
#[derive(Debug, Clone, Copy, PartialEq, Eq)]
pub enum ChildRow {
    Flow {
        key: FlowKey,
        stats: TrafficStats,
        expired: bool,
    },
    Conn {
        proto: u8,
        local: Endpoint,
        remote: Endpoint,
        bytes: u64,
        bps: Rate,
        expired: bool,
        first_seen: u64,
        /// Flow whose details open on Enter (the outbound half when present).
        detail_key: FlowKey,
    },
}

/// The flow rows of the per-flow view: each child in order, expired ones
/// only when they are shown.
pub open spec fn flow_child_rows(cs: Seq<ChildFlow>, show_expired: bool) -> Seq<ChildRow>
    decreases cs.len(),
{
    if cs.len() == 0 {
        Seq::empty()
    } else {
        let prev = flow_child_rows(cs.drop_last(), show_expired);
        let c = cs.last();
        if show_expired || !c.3 {
            prev.push(ChildRow::Flow { key: c.0, stats: c.1, expired: c.3 })
        } else {
            prev
        }
    }
}

/// The empty connection a child flow opens.
pub open spec fn child_conn_opened(ch: ChildFlow) -> ChildRow {
    let ep = oriented(ch.0, ch.4);
    ChildRow::Conn {
        proto: ch.0.proto,
        local: ep.local,
        remote: ep.remote,
        bytes: 0,
        bps: Rate { bits: 0 },
        expired: true,
        first_seen: ch.2,
        detail_key: ch.0,
    }
}

/// A merged child after one more of its flows is folded in: bytes and rate
/// add up, it stays expired only while every flow is, first-seen is the
/// earliest, and the flow sent from the local end becomes the detail key.
pub open spec fn child_absorb(c: ChildRow, ch: ChildFlow) -> ChildRow {
    match c {
        ChildRow::Conn { proto, local, remote, bytes, bps, expired, first_seen, detail_key } => ChildRow::Conn {
            proto,
            local,
            remote,
            bytes: (bytes + ch.1.bytes) as u64,
            bps: rate_sum(bps, ch.1.bps),
            expired: expired && ch.3,
            first_seen: if ch.2 < first_seen { ch.2 } else { first_seen },
            detail_key: if ch.0.src() == local { ch.0 } else { detail_key },
        },
        ChildRow::Flow { .. } => c,
    }
}

/// A merged child.
pub open spec fn child_conn_ok(c: ChildRow) -> bool {
    c is Conn
}

/// Folding a flow into a merged child keeps its byte counter within `u64`.
pub open spec fn child_absorb_fits(c: ChildRow, ch: ChildFlow) -> bool {
    match c {
        ChildRow::Conn { bytes, .. } => bytes + ch.1.bytes <= u64::MAX,
        ChildRow::Flow { .. } => true,
    }
}

/// The connection keys of a parent's children in first-seen order, and the
/// merged row of each.
pub open spec fn child_merge_state(cs: Seq<ChildFlow>) -> (Seq<ConnKey>, Seq<ChildRow>)
    decreases cs.len(),
{
    if cs.len() == 0 {
        (Seq::empty(), Seq::empty())
    } else {
        let prev = child_merge_state(cs.drop_last());
        let ch = cs.last();
        let ck = conn_key_of(ch.0);
        let p = first_pos(prev.0, ck);
        if p < 0 {
            (prev.0.push(ck), prev.1.push(child_absorb(child_conn_opened(ch), ch)))
        } else {
            (prev.0, prev.1.update(p, child_absorb(prev.1[p], ch)))
        }
    }
}

/// Merging a parent's children never overflows a byte counter.
pub open spec fn child_merge_fits(cs: Seq<ChildFlow>) -> bool
    decreases cs.len(),
{
    if cs.len() == 0 {
        true
    } else {
        let prev = child_merge_state(cs.drop_last());
        let ch = cs.last();
        let p = first_pos(prev.0, conn_key_of(ch.0));
        &&& child_merge_fits(cs.drop_last())
        &&& child_absorb_fits(if p < 0 { child_conn_opened(ch) } else { prev.1[p] }, ch)
    }
}

proof fn lemma_child_merge_fits_prefix(cs: Seq<ChildFlow>, k: int)
    requires
        child_merge_fits(cs),
        0 <= k <= cs.len(),
    ensures
        child_merge_fits(cs.take(k)),
    decreases cs.len(),
{
    if k < cs.len() {
        assert(cs.drop_last().take(k) =~= cs.take(k));
        lemma_child_merge_fits_prefix(cs.drop_last(), k);
    } else {
        assert(cs.take(k) =~= cs);
    }
}

/// The merged rows without the expired ones, unless those are shown.
pub open spec fn live_children(s: Seq<ChildRow>, show_expired: bool) -> Seq<ChildRow>
    decreases s.len(),
{
    if s.len() == 0 {
        Seq::empty()
    } else {
        let prev = live_children(s.drop_last(), show_expired);
        let expired = match s.last() {
            ChildRow::Conn { expired, .. } => expired,
            ChildRow::Flow { .. } => false,
        };
        if show_expired || !expired { prev.push(s.last()) } else { prev }
    }
}

/// `(bytes, rate, first_seen)` of a merged child.
pub open spec fn conn_fields(c: ChildRow) -> (u64, Rate, u64) {
    match c {
        ChildRow::Conn { bytes, bps, first_seen, .. } => (bytes, bps, first_seen),
        ChildRow::Flow { stats, .. } => (stats.bytes, stats.bps, 0),
    }
}

/// The sort fields of a merged child; only merged rows are sorted.
fn conn_sort_fields(c: &ChildRow) -> (r: (u64, Rate, u64))
    requires
        c is Conn,
    ensures
        r == conn_fields(*c),
{
    match c {
        ChildRow::Conn { bytes, bps, first_seen, .. } => (*bytes, *bps, *first_seen),
        ChildRow::Flow { stats, .. } => (stats.bytes, stats.bps, 0),
    }
}

/// Merged child order: total bytes or rate (reversed when descending) for
/// the bandwidth columns, ties and every other column by first-seen.
pub open spec fn merged_child_before(a: ChildRow, b: ChildRow, sel: ProcSort) -> bool {
    let fa = conn_fields(a);
    let fb = conn_fields(b);
    let p = match sel.0 {
        ProcSortColumn::Bps => order_rate(fa.1, fb.1),
        ProcSortColumn::Bytes => three_way(fa.0 as int, fb.0 as int),
        _ => 0,
    };
    let bandwidth = sel.0 == ProcSortColumn::Bps || sel.0 == ProcSortColumn::Bytes;
    let q = if bandwidth && sel.1 == SortDirection::Desc { -p } else { p };
    q < 0 || (q == 0 && fa.2 < fb.2)
}

impl SortedBy<ProcSort> for ChildRow {
    open spec fn admits(a: Self, c: ProcSort) -> bool {
        a is Conn
    }

    open spec fn goes_before(a: Self, b: Self, c: ProcSort) -> bool {
        merged_child_before(a, b, c)
    }

    fn before(a: &Self, b: &Self, c: &ProcSort) -> (r: bool) {
        let fa = conn_sort_fields(a);
        let fb = conn_sort_fields(b);
        let p: i8 = match c.0 {
            ProcSortColumn::Bps => compare_rate(&fa.1, &fb.1),
            ProcSortColumn::Bytes => compare_u64(fa.0, fb.0),
            _ => 0,
        };
        let bandwidth = c.0 == ProcSortColumn::Bps || c.0 == ProcSortColumn::Bytes;
        let q: i8 = if bandwidth && c.1 == SortDirection::Desc { -p } else { p };
        q < 0 || (q == 0 && fa.2 < fb.2)
    }
}

/// The visible child rows of a list of flow children: in the per-flow view
/// the flows in order; in the connection view the flows merged per
/// connection, expired connections dropped unless shown, sorted by the
/// selection.
pub open spec fn child_rows_from(cs: Seq<ChildFlow>, show_expired: bool, aggregate: bool, sel: ProcSort)
    -> Seq<ChildRow>
{
    if !aggregate {
        flow_child_rows(cs, show_expired)
    } else {
        stable_sorted(live_children(child_merge_state(cs).1, show_expired), sel)
    }
}

/// The visible child rows of a parent (see `child_rows_from`).
pub open spec fn child_rows_of(parent: FrozenProcessRow, show_expired: bool, aggregate: bool, sel: ProcSort)
    -> Seq<ChildRow>
{
    child_rows_from(parent.children@, show_expired, aggregate, sel)
}

/// Children a merge accepts: merging them keeps every byte counter within
/// `u64`.
pub open spec fn child_mergeable(cs: Seq<ChildFlow>) -> bool {
    child_merge_fits(cs)
}

fn open_child_conn(ch: &ChildFlow) -> (r: ChildRow)
    ensures
        r == child_conn_opened(*ch),
        child_conn_ok(r),
{
    let ep = orient(&ch.0, ch.4);
    ChildRow::Conn {
        proto: ch.0.proto,
        local: ep.local,
        remote: ep.remote,
        bytes: 0,
        bps: Rate { bits: 0 },
        expired: true,
        first_seen: ch.2,
        detail_key: ch.0,
    }
}

fn absorb_child(c: &ChildRow, ch: &ChildFlow) -> (r: ChildRow)
    requires
        child_conn_ok(*c),
        child_absorb_fits(*c, *ch),
    ensures
        r == child_absorb(*c, *ch),
        child_conn_ok(r),
{
    match c {
        ChildRow::Conn { proto, local, remote, bytes, bps, expired, first_seen, detail_key } => {
            let src: Endpoint = (ch.0.src_ip, ch.0.src_port);
            let from_local = endpoint_eq(&src, local);
            ChildRow::Conn {
                proto: *proto,
                local: *local,
                remote: *remote,
                bytes: *bytes + ch.1.bytes,
                bps: rate_add(*bps, ch.1.bps),
                expired: *expired && ch.3,
                first_seen: if ch.2 < *first_seen { ch.2 } else { *first_seen },
                detail_key: if from_local { ch.0 } else { *detail_key },
            }
        },
        ChildRow::Flow { .. } => *c,
    }
}

fn try_merge_children(cs: &Vec<ChildFlow>) -> (r: Option<Vec<ChildRow>>)
    ensures
        r is Some <==> child_mergeable(cs@),
        r is Some ==> r->0@ == child_merge_state(cs@).1,
        r is Some ==> forall|j: int| 0 <= j < r->0.len() ==> child_conn_ok(#[trigger] r->0@[j]),
{
    let mut out: Vec<ChildRow> = Vec::new();
    let mut keys: Vec<ConnKey> = Vec::new();
    let n = cs.len();
    let mut i: usize = 0;
    proof {
        assert(cs@.take(0) =~= Seq::<ChildFlow>::empty());
    }
    while i < n
        invariant
            n == cs.len(),
            i <= n,
            child_mergeable(cs@.take(i as int)),
            keys@ == child_merge_state(cs@.take(i as int)).0,
            out@ == child_merge_state(cs@.take(i as int)).1,
            keys.len() == out.len(),
            forall|j: int| 0 <= j < out.len() ==> child_conn_ok(#[trigger] out@[j]),
        decreases n - i,
    {
        let ch = &cs[i];
        let ghost pre = cs@.take(i as int);
        let ghost next = cs@.take(i + 1);
        proof {
            assert(next.drop_last() =~= pre);
            assert(next.last() == cs@[i as int]);
            lemma_first_pos(keys@, conn_key_of(ch.0));
            assert forall|t: int| 0 <= t < pre.len() implies pre[t] == next[t] by {}
        }
        let ck = conn_key(&ch.0);
        let found = find_conn(&keys, &ck);
        let base = match found {
            Some(j) => out[j],
            None => open_child_conn(ch),
        };
        let fits = match base {
            ChildRow::Conn { bytes, .. } => bytes <= u64::MAX - ch.1.bytes,
            ChildRow::Flow { .. } => true,
        };
        if !fits {
            proof {
                if child_mergeable(cs@) {
                    lemma_child_merge_fits_prefix(cs@, i + 1);
                }
            }
            return None;
        }
        let merged = absorb_child(&base, ch);
        match found {
            Some(j) => {
                out.set(j, merged);
            },
            None => {
                out.push(merged);
                keys.push(ck);
            },
        }
        proof {
            assert(child_merge_fits(next));
        }
        i = i + 1;
    }
    proof {
        assert(cs@.take(n as int) =~= cs@);
    }
    Some(out)
}

/// The visible child rows of a parent (see `child_rows_of`), or `None` in
/// the connection view when its children are not mergeable.
pub fn try_child_rows(
    parent: &FrozenProcessRow,
    show_expired: bool,
    aggregate: bool,
    column: ProcSortColumn,
    direction: SortDirection,
) -> (r: Option<Vec<ChildRow>>)
    ensures
        r is Some <==> (aggregate ==> child_mergeable(parent.children@)),
        r is Some ==> r->0@ == child_rows_of(*parent, show_expired, aggregate, (column, direction)),
{
    let cs = &parent.children;
    if !aggregate {
        let mut out: Vec<ChildRow> = Vec::new();
        let mut i: usize = 0;
        while i < cs.len()
            invariant
                i <= cs.len(),
                out@ == flow_child_rows(cs@.take(i as int), show_expired),
            decreases cs.len() - i,
        {
            let c = &cs[i];
            proof {
                assert(cs@.take(i + 1).drop_last() =~= cs@.take(i as int));
                assert(cs@.take(i + 1).last() == cs@[i as int]);
            }
            if show_expired || !c.3 {
                out.push(ChildRow::Flow { key: c.0, stats: c.1, expired: c.3 });
            }
            i = i + 1;
        }
        proof {
            assert(cs@.take(cs.len() as int) =~= cs@);
        }
        return Some(out);
    }
    let merged = match try_merge_children(cs) {
        Some(m) => m,
        None => {
            return None;
        },
    };
    let mut kept: Vec<ChildRow> = Vec::new();
    let mut i: usize = 0;
    while i < merged.len()
        invariant
            i <= merged.len(),
            kept@ == live_children(merged@.take(i as int), show_expired),
            forall|j: int| 0 <= j < merged.len() ==> child_conn_ok(#[trigger] merged@[j]),
            forall|j: int| 0 <= j < kept.len() ==> (#[trigger] kept@[j]) is Conn,
        decreases merged.len() - i,
    {
        let c = merged[i];
        proof {
            assert(merged@.take(i + 1).drop_last() =~= merged@.take(i as int));
            assert(merged@.take(i + 1).last() == merged@[i as int]);
            assert(child_conn_ok(merged@[i as int]));
        }
        let expired = match c {
            ChildRow::Conn { expired, .. } => expired,
            ChildRow::Flow { .. } => false,
        };
        if show_expired || !expired {
            kept.push(c);
        }
        i = i + 1;
    }
    proof {
        assert(merged@.take(merged.len() as int) =~= merged@);
    }
    sort_merged(&mut kept, (column, direction));
    Some(kept)
}

/// Build the visible child rows for one parent (see `child_rows_of`); the
/// renderer and the key handler both call it so the cursor stays aligned
/// with what is drawn.
pub fn child_rows(
    parent: &FrozenProcessRow,
    show_expired: bool,
    aggregate: bool,
    column: ProcSortColumn,
    direction: SortDirection,
) -> (r: Vec<ChildRow>)
    requires
        aggregate ==> child_mergeable(parent.children@),
    ensures
        r@ == child_rows_of(*parent, show_expired, aggregate, (column, direction)),
{
    match try_child_rows(parent, show_expired, aggregate, column, direction) {
        Some(v) => v,
        None => Vec::new(),
    }
}

fn sort_merged(rows: &mut Vec<ChildRow>, sel: ProcSort)
    requires
        forall|j: int| 0 <= j < old(rows)@.len() ==> (#[trigger] old(rows)@[j]) is Conn,
    ensures
        final(rows)@ == stable_sorted(old(rows)@, sel),
{
    stable_sort(rows.as_mut_slice(), &sel);
}

proof fn lemma_text_triple(x: Seq<char>, y: Seq<char>, z: Seq<char>)
    ensures
        order_text(x, y) == -order_text(y, x),
        order_text(y, z) == -order_text(z, y),
        order_text(x, z) == -order_text(z, x),
        order_text(x, y) <= 0 && order_text(y, z) <= 0 ==> order_text(x, z) <= 0,
{
    lemma_order_text_antisymmetric(x, y);
    lemma_order_text_antisymmetric(y, z);
    lemma_order_text_antisymmetric(x, z);
    lemma_order_text_transitive(x, y, z);
}

/// The selected column's comparison of two parents, reversed for a
/// descending sort (except `Fixed`).
pub open spec fn parent_signed(sel: ProcSort) -> spec_fn(FrozenProcessRow, FrozenProcessRow) -> int {
    |a: FrozenProcessRow, b: FrozenProcessRow|
        if sel.0 != ProcSortColumn::Fixed && sel.1 == SortDirection::Desc {
            -parent_primary(a, b, sel.0)
        } else {
            parent_primary(a, b, sel.0)
        }
}

/// The bandwidth column's comparison of two child flows, reversed for a
/// descending sort; every other column compares them equal.
pub open spec fn child_signed(sel: ProcSort) -> spec_fn(ChildFlow, ChildFlow) -> int {
    |a: ChildFlow, b: ChildFlow| {
        let bandwidth = sel.0 == ProcSortColumn::Bps || sel.0 == ProcSortColumn::Bytes;
        if bandwidth && sel.1 == SortDirection::Desc {
            -child_primary(a, b, sel.0)
        } else {
            child_primary(a, b, sel.0)
        }
    }
}

/// The bandwidth column's comparison of two merged children, reversed for a
/// descending sort; every other column compares them equal.
pub open spec fn merged_child_signed(sel: ProcSort) -> spec_fn(ChildRow, ChildRow) -> int {
    |a: ChildRow, b: ChildRow| {
        let fa = conn_fields(a);
        let fb = conn_fields(b);
        let p = match sel.0 {
            ProcSortColumn::Bps => order_rate(fa.1, fb.1),
            ProcSortColumn::Bytes => three_way(fa.0 as int, fb.0 as int),
            _ => 0,
        };
        let bandwidth = sel.0 == ProcSortColumn::Bps || sel.0 == ProcSortColumn::Bytes;
        if bandwidth && sel.1 == SortDirection::Desc { -p } else { p }
    }
}

proof fn lemma_parent_signed_preorder(sel: ProcSort)
    ensures
        total_preorder(parent_signed(sel)),
{
    let f = parent_signed(sel);
    assert forall|a: FrozenProcessRow, b: FrozenProcessRow| #[trigger] f(a, b) == -f(b, a) by {
        lemma_text_triple(a.name@, b.name@, b.name@);
        lemma_text_triple(user_text(a.user), user_text(b.user), user_text(b.user));
    }
    assert forall|a: FrozenProcessRow, b: FrozenProcessRow, d: FrozenProcessRow| #![trigger f(a, b), f(b, d)]
        f(a, b) <= 0 && f(b, d) <= 0 implies f(a, d) <= 0 by {
        lemma_text_triple(a.name@, b.name@, d.name@);
        lemma_text_triple(d.name@, b.name@, a.name@);
        lemma_text_triple(user_text(a.user), user_text(b.user), user_text(d.user));
        lemma_text_triple(user_text(d.user), user_text(b.user), user_text(a.user));
    }
}

/// The process tree is in order: no parent goes before one placed earlier
/// (by the selected column and direction, ties by PID), so rows with equal
/// traffic never swap; under `Fixed` the parents run by ascending PID.
pub proof fn lemma_parents_sorted(parents: Seq<FrozenProcessRow>, sel: ProcSort)
    ensures
        forall|i: int, j: int| 0 <= i < j < stable_sorted(parents, sel).len() ==> !parent_before(
            #[trigger] stable_sorted(parents, sel)[j],
            #[trigger] stable_sorted(parents, sel)[i],
            sel,
        ),
        sel.0 == ProcSortColumn::Fixed ==> forall|i: int, j: int| 0 <= i < j < stable_sorted(parents, sel).len()
            ==> (#[trigger] stable_sorted(parents, sel)[i]).pid <= (#[trigger] stable_sorted(parents, sel)[j]).pid,
{
    let key = |p: FrozenProcessRow| p.pid as int;
    lemma_parent_signed_preorder(sel);
    assert forall|a: FrozenProcessRow, b: FrozenProcessRow|
        #[trigger] FrozenProcessRow::goes_before(a, b, sel) == tie_broken(parent_signed(sel), key, a, b) by {}
    lemma_tie_broken_strict_weak::<FrozenProcessRow, ProcSort>(sel, parent_signed(sel), key);
    lemma_stable_sorted_is_sorted(parents, sel);
    let s = stable_sorted(parents, sel);
    assert forall|i: int, j: int| 0 <= i < j < s.len() implies !parent_before(#[trigger] s[j], #[trigger] s[i], sel) by {
        assert(!FrozenProcessRow::goes_before(s[j], s[i], sel));
    }
}

/// A parent's flow children are in order: by bytes or rate (as selected)
/// for the bandwidth columns, every other column and all ties by
/// first-seen, oldest first.
pub proof fn lemma_children_sorted(children: Seq<ChildFlow>, sel: ProcSort)
    ensures
        forall|i: int, j: int| 0 <= i < j < stable_sorted(children, sel).len() ==> !child_before(
            #[trigger] stable_sorted(children, sel)[j],
            #[trigger] stable_sorted(children, sel)[i],
            sel,
        ),
        !(sel.0 == ProcSortColumn::Bps || sel.0 == ProcSortColumn::Bytes) ==> forall|i: int, j: int|
            0 <= i < j < stable_sorted(children, sel).len() ==> (#[trigger] stable_sorted(children, sel)[i]).2
                <= (#[trigger] stable_sorted(children, sel)[j]).2,
{
    let key = |c: ChildFlow| c.2 as int;
    let f = child_signed(sel);
    assert forall|a: ChildFlow, b: ChildFlow| #[trigger] f(a, b) == -f(b, a) by {}
    assert forall|a: ChildFlow, b: ChildFlow, d: ChildFlow| #![trigger f(a, b), f(b, d)]
        f(a, b) <= 0 && f(b, d) <= 0 implies f(a, d) <= 0 by {}
    assert forall|a: ChildFlow, b: ChildFlow| #[trigger] ChildFlow::goes_before(a, b, sel) == tie_broken(f, key, a, b) by {}
    lemma_tie_broken_strict_weak::<ChildFlow, ProcSort>(sel, f, key);
    lemma_stable_sorted_is_sorted(children, sel);
    let s = stable_sorted(children, sel);
    assert forall|i: int, j: int| 0 <= i < j < s.len() implies !child_before(#[trigger] s[j], #[trigger] s[i], sel) by {
        assert(!ChildFlow::goes_before(s[j], s[i], sel));
    }
}

/// A parent's merged children are in order: by total bytes or rate (as
/// selected) for the bandwidth columns, every other column and all ties by
/// first-seen, oldest first.
pub proof fn lemma_merged_children_sorted(children: Seq<ChildRow>, sel: ProcSort)
    ensures
        forall|i: int, j: int| 0 <= i < j < stable_sorted(children, sel).len() ==> !merged_child_before(
            #[trigger] stable_sorted(children, sel)[j],
            #[trigger] stable_sorted(children, sel)[i],
            sel,
        ),
{
    let key = |c: ChildRow| conn_fields(c).2 as int;
    let f = merged_child_signed(sel);
    assert forall|a: ChildRow, b: ChildRow| #[trigger] f(a, b) == -f(b, a) by {}
    assert forall|a: ChildRow, b: ChildRow, d: ChildRow| #![trigger f(a, b), f(b, d)]
        f(a, b) <= 0 && f(b, d) <= 0 implies f(a, d) <= 0 by {}
    assert forall|a: ChildRow, b: ChildRow| #[trigger] ChildRow::goes_before(a, b, sel) == tie_broken(f, key, a, b) by {}
    lemma_tie_broken_strict_weak::<ChildRow, ProcSort>(sel, f, key);
    lemma_stable_sorted_is_sorted(children, sel);
    let s = stable_sorted(children, sel);
    assert forall|i: int, j: int| 0 <= i < j < s.len() implies !merged_child_before(#[trigger] s[j], #[trigger] s[i], sel) by {
        assert(!ChildRow::goes_before(s[j], s[i], sel));
    }
}

/// Two text keys at a position and a later one are in direction `d`, and
/// equal keys keep PID order.
pub open spec fn text_placed(x: Seq<char>, y: Seq<char>, pi: u32, pj: u32, d: SortDirection) -> bool {
    let o = match d {
        SortDirection::Asc => order_text(x, y),
        SortDirection::Desc => order_text(y, x),
    };
    o < 0 || (o == 0 && pi <= pj)
}

/// Two parents are placed in the order the selection asks for: the
/// selected field runs in the selected direction, and parents equal on it
/// run by ascending PID; under `Fixed` they run by PID.
pub open spec fn parent_placed(a: FrozenProcessRow, b: FrozenProcessRow, sel: ProcSort) -> bool {
    let (pa, pb) = (a.pid as int, b.pid as int);
    &&& sel.0 == ProcSortColumn::Fixed ==> pa <= pb
    &&& sel.0 == ProcSortColumn::Pid ==> no_later(pa, pb, sel.1)
    &&& sel.0 == ProcSortColumn::Name ==> text_placed(a.name@, b.name@, a.pid, b.pid, sel.1)
    &&& sel.0 == ProcSortColumn::ConnCount ==> placed_in_order(a.agg.conn_count as int, b.agg.conn_count as int, pa, pb, sel.1)
    &&& sel.0 == ProcSortColumn::Bps ==> placed_in_order(rate_rank(a.agg.bps), rate_rank(b.agg.bps), pa, pb, sel.1)
    &&& sel.0 == ProcSortColumn::Bytes ==> placed_in_order(a.agg.bytes as int, b.agg.bytes as int, pa, pb, sel.1)
    &&& sel.0 == ProcSortColumn::User ==> text_placed(name_text(a.user), name_text(b.user), a.pid, b.pid, sel.1)
}

/// What the sorted process tree looks like column by column: every parent
/// and any one placed after it are in the selected order (see
/// `parent_placed`); so after sorting by connection count descending no
/// parent has more connections than one above it.
pub proof fn lemma_parents_columns(parents: Seq<FrozenProcessRow>, sel: ProcSort)
    ensures
        forall|i: int, j: int| 0 <= i < j < stable_sorted(parents, sel).len() ==> parent_placed(
            #[trigger] stable_sorted(parents, sel)[i],
            #[trigger] stable_sorted(parents, sel)[j],
            sel,
        ),
{
    lemma_parents_sorted(parents, sel);
    let s = stable_sorted(parents, sel);
    assert forall|i: int, j: int| 0 <= i < j < s.len() implies parent_placed(#[trigger] s[i], #[trigger] s[j], sel) by {
        let a = s[i];
        let b = s[j];
        assert(!parent_before(b, a, sel));
        lemma_order_text_antisymmetric(a.name@, b.name@);
        lemma_order_text_antisymmetric(user_text(a.user), user_text(b.user));
    }
}

/// Two flow children are placed in the order the selection asks for: by
/// bytes or rate in the selected direction for those columns (equal ones
/// oldest first), and oldest first for every other column.
pub open spec fn child_placed(a: ChildFlow, b: ChildFlow, sel: ProcSort) -> bool {
    let (fa, fb) = (a.2 as int, b.2 as int);
    if sel.0 == ProcSortColumn::Bytes {
        placed_in_order(a.1.bytes as int, b.1.bytes as int, fa, fb, sel.1)
    } else if sel.0 == ProcSortColumn::Bps {
        placed_in_order(rate_rank(a.1.bps), rate_rank(b.1.bps), fa, fb, sel.1)
    } else {
        fa <= fb
    }
}

/// What a sorted child list looks like: every child and any one placed
/// after it are in the selected order (see `child_placed`).
pub proof fn lemma_children_columns(children: Seq<ChildFlow>, sel: ProcSort)
    ensures
        forall|i: int, j: int| 0 <= i < j < stable_sorted(children, sel).len() ==> child_placed(
            #[trigger] stable_sorted(children, sel)[i],
            #[trigger] stable_sorted(children, sel)[j],
            sel,
        ),
{
    lemma_children_sorted(children, sel);
    let s = stable_sorted(children, sel);
    assert forall|i: int, j: int| 0 <= i < j < s.len() implies child_placed(#[trigger] s[i], #[trigger] s[j], sel) by {
        assert(!child_before(s[j], s[i], sel));
    }
}

/// The total bytes of a merged child row.
pub open spec fn merged_bytes(r: ChildRow) -> int {
    match r {
        ChildRow::Conn { bytes, .. } => bytes as int,
        ChildRow::Flow { stats, .. } => stats.bytes as int,
    }
}

/// The total rate of a merged child row.
pub open spec fn merged_rate(r: ChildRow) -> Rate {
    match r {
        ChildRow::Conn { bps, .. } => bps,
        ChildRow::Flow { stats, .. } => stats.bps,
    }
}

/// The earliest first-seen tick of a merged child row.
pub open spec fn merged_first_seen(r: ChildRow) -> int {
    match r {
        ChildRow::Conn { first_seen, .. } => first_seen as int,
        ChildRow::Flow { .. } => 0,
    }
}

/// Two merged children are placed in the order the selection asks for: by
/// total bytes or rate in the selected direction for those columns (equal
/// ones oldest first), and oldest first for every other column.
pub open spec fn merged_placed(a: ChildRow, b: ChildRow, sel: ProcSort) -> bool {
    let (fa, fb) = (merged_first_seen(a), merged_first_seen(b));
    if sel.0 == ProcSortColumn::Bytes {
        placed_in_order(merged_bytes(a), merged_bytes(b), fa, fb, sel.1)
    } else if sel.0 == ProcSortColumn::Bps {
        placed_in_order(rate_rank(merged_rate(a)), rate_rank(merged_rate(b)), fa, fb, sel.1)
    } else {
        fa <= fb
    }
}

/// What a sorted list of merged children looks like: every row and any one
/// placed after it are in the selected order (see `merged_placed`).
pub proof fn lemma_merged_children_columns(children: Seq<ChildRow>, sel: ProcSort)
    ensures
        forall|i: int, j: int| 0 <= i < j < stable_sorted(children, sel).len() ==> merged_placed(
            #[trigger] stable_sorted(children, sel)[i],
            #[trigger] stable_sorted(children, sel)[j],
            sel,
        ),
{
    lemma_merged_children_sorted(children, sel);
    let s = stable_sorted(children, sel);
    assert forall|i: int, j: int| 0 <= i < j < s.len() implies merged_placed(#[trigger] s[i], #[trigger] s[j], sel) by {
        assert(!merged_child_before(s[j], s[i], sel));
    }
}

/// The flow a merged child row opens its details on (the flow itself for a
/// per-flow row).
pub open spec fn row_detail_key(r: ChildRow) -> FlowKey {
    match r {
        ChildRow::Conn { detail_key, .. } => detail_key,
        ChildRow::Flow { key, .. } => key,
    }
}

/// Whether a child row is marked expired.
pub open spec fn row_expired(r: ChildRow) -> bool {
    match r {
        ChildRow::Conn { expired, .. } => expired,
        ChildRow::Flow { expired, .. } => expired,
    }
}

/// Every child flow of connection `k` is expired.
pub open spec fn all_flows_expired(cs: Seq<ChildFlow>, k: ConnKey) -> bool {
    forall|t: int| 0 <= t < cs.len() && #[trigger] conn_key_of(cs[t].0) == k ==> cs[t].3
}

/// Some child flow has the key `key`.
pub open spec fn has_flow_key(cs: Seq<ChildFlow>, key: FlowKey) -> bool {
    exists|t: int| 0 <= t < cs.len() && #[trigger] cs[t].0 == key
}

proof fn lemma_all_expired_step(cs: Seq<ChildFlow>)
    requires
        cs.len() > 0,
    ensures
        forall|k: ConnKey| #[trigger] all_flows_expired(cs, k) <==> (all_flows_expired(cs.drop_last(), k) && (conn_key_of(
            cs.last().0,
        ) == k ==> cs.last().3)),
        forall|key: FlowKey| #[trigger] has_flow_key(cs.drop_last(), key) ==> has_flow_key(cs, key),
        has_flow_key(cs, cs.last().0),
{
    let d = cs.drop_last();
    assert forall|k: ConnKey| #[trigger] all_flows_expired(cs, k) <==> (all_flows_expired(d, k) && (conn_key_of(
        cs.last().0,
    ) == k ==> cs.last().3)) by {
        if all_flows_expired(cs, k) {
            assert forall|t: int| 0 <= t < d.len() && #[trigger] conn_key_of(d[t].0) == k implies d[t].3 by {
                assert(d[t] == cs[t]);
                assert(conn_key_of(cs[t].0) == k);
            }
            assert(conn_key_of(cs[cs.len() - 1].0) == k ==> cs[cs.len() - 1].3);
        }
        if all_flows_expired(d, k) && (conn_key_of(cs.last().0) == k ==> cs.last().3) {
            assert forall|t: int| 0 <= t < cs.len() && #[trigger] conn_key_of(cs[t].0) == k implies cs[t].3 by {
                if t < d.len() {
                    assert(d[t] == cs[t]);
                    assert(conn_key_of(d[t].0) == k);
                }
            }
        }
    }
    assert forall|key: FlowKey| #[trigger] has_flow_key(d, key) implies has_flow_key(cs, key) by {
        let t = choose|t: int| 0 <= t < d.len() && #[trigger] d[t].0 == key;
        assert(cs[t] == d[t]);
    }
    assert(cs[cs.len() - 1].0 == cs.last().0);
}

/// Total bytes of the child flows of connection `k`.
pub open spec fn conn_flow_bytes(cs: Seq<ChildFlow>, k: ConnKey) -> int
    decreases cs.len(),
{
    if cs.len() == 0 {
        0
    } else {
        conn_flow_bytes(cs.drop_last(), k) + if conn_key_of(cs.last().0) == k { cs.last().1.bytes as int } else { 0 }
    }
}

proof fn lemma_conn_flow_bytes_none(cs: Seq<ChildFlow>, k: ConnKey)
    requires
        forall|t: int| 0 <= t < cs.len() ==> conn_key_of(#[trigger] cs[t].0) != k,
    ensures
        conn_flow_bytes(cs, k) == 0,
    decreases cs.len(),
{
    if cs.len() > 0 {
        let d = cs.drop_last();
        assert forall|t: int| 0 <= t < d.len() implies conn_key_of(#[trigger] d[t].0) != k by {
            assert(d[t] == cs[t]);
        }
        lemma_conn_flow_bytes_none(d, k);
        assert(cs[cs.len() - 1] == cs.last());
    }
}

/// What merging a parent's children per connection keeps track of: one key
/// per connection, no key twice, every child's connection among them, and
/// for each a merged row that opens on one of that connection's flows and
/// is expired exactly when every flow of the connection is.
proof fn lemma_child_merge_state(cs: Seq<ChildFlow>)
    ensures
        child_merge_state(cs).0.len() == child_merge_state(cs).1.len(),
        forall|p: int, q: int|
            0 <= p < child_merge_state(cs).0.len() && 0 <= q < child_merge_state(cs).0.len() && p != q
                ==> #[trigger] child_merge_state(cs).0[p] != #[trigger] child_merge_state(cs).0[q],
        forall|p: int| 0 <= p < child_merge_state(cs).1.len() ==> {
            let r = #[trigger] child_merge_state(cs).1[p];
            &&& r is Conn
            &&& conn_key_of(row_detail_key(r)) == child_merge_state(cs).0[p]
            &&& has_flow_key(cs, row_detail_key(r))
            &&& row_expired(r) <==> all_flows_expired(cs, child_merge_state(cs).0[p])
            &&& child_merge_fits(cs) ==> merged_bytes(r) == conn_flow_bytes(cs, child_merge_state(cs).0[p])
        },
        forall|t: int| 0 <= t < cs.len() ==> child_merge_state(cs).0.contains(conn_key_of(#[trigger] cs[t].0)),
    decreases cs.len(),
{
    if cs.len() > 0 {
        let d = cs.drop_last();
        let ch = cs.last();
        lemma_child_merge_state(d);
        lemma_all_expired_step(cs);
        let (ks0, rs0) = child_merge_state(d);
        let ck = conn_key_of(ch.0);
        let p = first_pos(ks0, ck);
        lemma_first_pos(ks0, ck);
        let (ks, rs) = child_merge_state(cs);
        assert(cs[cs.len() - 1] == ch);
        if p < 0 {
            assert(ks == ks0.push(ck));
            assert(all_flows_expired(d, ck)) by {
                assert forall|t: int| 0 <= t < d.len() && #[trigger] conn_key_of(d[t].0) == ck implies d[t].3 by {
                    assert(ks0.contains(conn_key_of(d[t].0)));
                }
            }
            assert forall|t: int| 0 <= t < d.len() implies conn_key_of(#[trigger] d[t].0) != ck by {
                assert(ks0.contains(conn_key_of(d[t].0)));
            }
            lemma_conn_flow_bytes_none(d, ck);
            assert forall|q: int| 0 <= q < rs.len() implies {
                let r = #[trigger] rs[q];
                &&& r is Conn
                &&& conn_key_of(row_detail_key(r)) == ks[q]
                &&& has_flow_key(cs, row_detail_key(r))
                &&& row_expired(r) <==> all_flows_expired(cs, ks[q])
                &&& child_merge_fits(cs) ==> merged_bytes(r) == conn_flow_bytes(cs, ks[q])
            } by {
                if q < rs0.len() {
                    assert(rs[q] == rs0[q]);
                    assert(ks[q] == ks0[q]);
                    assert(ks0[q] != ck);
                    assert(all_flows_expired(cs, ks[q]) == all_flows_expired(d, ks[q]));
                } else {
                    assert(all_flows_expired(cs, ck) == (all_flows_expired(d, ck) && ch.3));
                }
            }
            assert forall|t: int| 0 <= t < cs.len() implies ks.contains(conn_key_of(#[trigger] cs[t].0)) by {
                if t < d.len() {
                    assert(cs[t] == d[t]);
                    let w = choose|w: int| 0 <= w < ks0.len() && ks0[w] == conn_key_of(d[t].0);
                    assert(ks[w] == ks0[w]);
                } else {
                    assert(ks[ks.len() - 1] == ck);
                }
            }
        } else {
            assert(ks == ks0);
            assert forall|q: int| 0 <= q < rs.len() implies {
                let r = #[trigger] rs[q];
                &&& r is Conn
                &&& conn_key_of(row_detail_key(r)) == ks[q]
                &&& has_flow_key(cs, row_detail_key(r))
                &&& row_expired(r) <==> all_flows_expired(cs, ks[q])
                &&& child_merge_fits(cs) ==> merged_bytes(r) == conn_flow_bytes(cs, ks[q])
            } by {
                if q != p {
                    assert(rs[q] == rs0[q]);
                    assert(ks0[q] != ks0[p]);
                    assert(all_flows_expired(cs, ks[q]) == all_flows_expired(d, ks[q]));
                } else {
                    assert(rs0[p] is Conn);
                    assert(all_flows_expired(cs, ck) == (all_flows_expired(d, ck) && ch.3));
                }
            }
            assert forall|t: int| 0 <= t < cs.len() implies ks.contains(conn_key_of(#[trigger] cs[t].0)) by {
                if t < d.len() {
                    assert(cs[t] == d[t]);
                } else {
                    assert(ks[p] == ck);
                }
            }
        }
    }
}

/// Keeping the live merged rows keeps exactly the rows that are not
/// expired (all of them when expired ones are shown).
proof fn lemma_live_children_members(s: Seq<ChildRow>, show_expired: bool)
    requires
        forall|p: int| 0 <= p < s.len() ==> (#[trigger] s[p]) is Conn,
    ensures
        forall|x: ChildRow| #[trigger] live_children(s, show_expired).contains(x) ==> s.contains(x) && (show_expired
            || !row_expired(x)),
        forall|p: int| 0 <= p < s.len() && (show_expired || !row_expired(#[trigger] s[p])) ==> live_children(
            s,
            show_expired,
        ).contains(s[p]),
    decreases s.len(),
{
    if s.len() > 0 {
        let d = s.drop_last();
        lemma_live_children_members(d, show_expired);
        let prev = live_children(d, show_expired);
        let l = live_children(s, show_expired);
        assert(s[s.len() - 1] == s.last());
        assert forall|x: ChildRow| #[trigger] l.contains(x) implies s.contains(x) && (show_expired || !row_expired(x)) by {
            if prev.contains(x) {
                let w = choose|w: int| 0 <= w < d.len() && d[w] == x;
                assert(s[w] == d[w]);
            } else {
                let w = choose|w: int| 0 <= w < l.len() && l[w] == x;
                assert(w == l.len() - 1 && x == s.last()) by {
                    if w < prev.len() {
                        assert(l[w] == prev[w]);
                    }
                }
            }
        }
        assert forall|p: int| 0 <= p < s.len() && (show_expired || !row_expired(#[trigger] s[p])) implies l.contains(
            s[p],
        ) by {
            if p < d.len() {
                assert(d[p] == s[p]);
                let w = choose|w: int| 0 <= w < prev.len() && prev[w] == d[p];
                assert(l[w] == prev[w]);
            } else {
                assert(l[l.len() - 1] == s.last());
            }
        }
    }
}

/// Child flow `t` belongs to connection `k`.
pub open spec fn in_child_conn(cs: Seq<ChildFlow>, t: int, k: ConnKey) -> bool {
    0 <= t < cs.len() && conn_key_of(cs[t].0) == k
}

/// The local endpoint of a merged child row.
pub open spec fn row_local(r: ChildRow) -> Endpoint {
    match r {
        ChildRow::Conn { local, .. } => local,
        ChildRow::Flow { key, .. } => key.src(),
    }
}

/// What a merged child row says of the moments and halves of its
/// connection `k`: it was first seen at the earliest first moment of the
/// connection's flows, and it opens on a flow sent from its local end
/// whenever the connection has one.
pub open spec fn child_conn_summary(cs: Seq<ChildFlow>, k: ConnKey, r: ChildRow) -> bool {
    &&& exists|w: int| #[trigger] in_child_conn(cs, w, k) && cs[w].2 == merged_first_seen(r)
    &&& forall|t: int| #[trigger] in_child_conn(cs, t, k) ==> merged_first_seen(r) <= cs[t].2
    &&& (exists|t: int| #[trigger] in_child_conn(cs, t, k) && cs[t].0.src() == row_local(r)) ==> row_detail_key(r).src()
        == row_local(r)
}

proof fn lemma_child_merge_moments(cs: Seq<ChildFlow>)
    ensures
        forall|p: int| 0 <= p < child_merge_state(cs).1.len() ==> child_conn_summary(
            cs,
            child_merge_state(cs).0[p],
            #[trigger] child_merge_state(cs).1[p],
        ),
    decreases cs.len(),
{
    lemma_child_merge_state(cs);
    if cs.len() > 0 {
        let d = cs.drop_last();
        let ch = cs.last();
        let n = cs.len() - 1;
        lemma_child_merge_moments(d);
        lemma_child_merge_state(d);
        let (ks0, rs0) = child_merge_state(d);
        let ck = conn_key_of(ch.0);
        let p = first_pos(ks0, ck);
        lemma_first_pos(ks0, ck);
        let (ks, rs) = child_merge_state(cs);
        assert(cs[n] == ch);
        assert(in_child_conn(cs, n, ck));
        assert forall|t: int, k: ConnKey| #[trigger] in_child_conn(d, t, k) implies in_child_conn(cs, t, k) && cs[t] == d[t] by {}
        assert forall|t: int, k: ConnKey| #[trigger] in_child_conn(cs, t, k) && t < n implies in_child_conn(d, t, k) by {
            assert(cs[t] == d[t]);
        }
        assert forall|q: int| 0 <= q < rs.len() implies child_conn_summary(cs, ks[q], #[trigger] rs[q]) by {
            if q < rs0.len() && q != p {
                let k = ks0[q];
                let r = rs0[q];
                assert(rs[q] == r && ks[q] == k);
                assert(k != ck) by {
                    if p >= 0 && k == ck {
                        assert(q > p);
                    }
                }
                let w = choose|w: int| #[trigger] in_child_conn(d, w, k) && d[w].2 == merged_first_seen(r);
                assert(in_child_conn(cs, w, k));
                if exists|t: int| #[trigger] in_child_conn(cs, t, k) && cs[t].0.src() == row_local(r) {
                    let t = choose|t: int| #[trigger] in_child_conn(cs, t, k) && cs[t].0.src() == row_local(r);
                    assert(in_child_conn(d, t, k));
                }
            } else if p >= 0 {
                let k = ck;
                let r = rs0[p];
                assert(q == p && ks[q] == k && rs[q] == child_absorb(r, ch));
                assert(r is Conn);
                let w = choose|w: int| #[trigger] in_child_conn(d, w, k) && d[w].2 == merged_first_seen(r);
                assert(in_child_conn(cs, w, k));
                if exists|t: int| #[trigger] in_child_conn(cs, t, k) && cs[t].0.src() == row_local(rs[q]) {
                    let t = choose|t: int| #[trigger] in_child_conn(cs, t, k) && cs[t].0.src() == row_local(rs[q]);
                    if t < n {
                        assert(in_child_conn(d, t, k));
                    }
                }
            } else {
                assert(ks[q] == ck);
                assert forall|t: int| #[trigger] in_child_conn(cs, t, ck) implies t == n by {
                    if t < n {
                        assert(in_child_conn(d, t, ck));
                        assert(ks0.contains(conn_key_of(d[t].0)));
                    }
                }
            }
        }
    }
}

/// The connection a child row belongs to.
pub open spec fn row_conn(r: ChildRow) -> ConnKey {
    conn_key_of(row_detail_key(r))
}

proof fn lemma_live_children_distinct(s: Seq<ChildRow>, show_expired: bool)
    requires
        forall|p: int| 0 <= p < s.len() ==> (#[trigger] s[p]) is Conn,
        keys_distinct(s, |r: ChildRow| row_conn(r)),
    ensures
        keys_distinct(live_children(s, show_expired), |r: ChildRow| row_conn(r)),
    decreases s.len(),
{
    let key = |r: ChildRow| row_conn(r);
    if s.len() > 0 {
        let d = s.drop_last();
        assert forall|i: int, j: int| 0 <= i < d.len() && 0 <= j < d.len() && i != j implies key(#[trigger] d[i]) != key(
            #[trigger] d[j],
        ) by {
            assert(d[i] == s[i] && d[j] == s[j]);
        }
        assert forall|p: int| 0 <= p < d.len() implies (#[trigger] d[p]) is Conn by {
            assert(d[p] == s[p]);
        }
        lemma_live_children_distinct(d, show_expired);
        lemma_live_children_members(d, show_expired);
        let prev = live_children(d, show_expired);
        let l = live_children(s, show_expired);
        let x = s.last();
        assert(s[s.len() - 1] == x);
        if l != prev {
            assert(l == prev.push(x));
            assert forall|i: int| 0 <= i < prev.len() implies key(#[trigger] prev[i]) != key(x) by {
                assert(prev.contains(prev[i]));
                let w = choose|w: int| 0 <= w < d.len() && d[w] == prev[i];
                assert(s[w] == d[w]);
            }
            assert forall|i: int, j: int| 0 <= i < l.len() && 0 <= j < l.len() && i != j implies key(#[trigger] l[i])
                != key(#[trigger] l[j]) by {
                if i < prev.len() && j < prev.len() {
                    assert(l[i] == prev[i] && l[j] == prev[j]);
                } else if i < prev.len() {
                    assert(l[i] == prev[i]);
                } else {
                    assert(l[j] == prev[j]);
                }
            }
        }
    }
}

/// The connection view of a parent's children: every row shown is a merged
/// connection, one row per connection, carrying the bytes of all its flows,
/// first seen at its earliest flow, opening on a flow sent from its local
/// end when it has one (else on one of its own flows), and marked expired
/// exactly when every child flow of that connection is expired, and only
/// shown expired when expired rows are; and every child flow's connection
/// is listed when that flow is live (or when expired rows are shown), so a
/// connection with one live half is never hidden.
pub proof fn lemma_child_conn_rows(cs: Seq<ChildFlow>, show_expired: bool, sel: ProcSort)
    ensures
        forall|x: ChildRow| #[trigger] child_rows_from(cs, show_expired, true, sel).contains(x) ==> {
            &&& x is Conn
            &&& has_flow_key(cs, row_detail_key(x))
            &&& row_expired(x) <==> all_flows_expired(cs, conn_key_of(row_detail_key(x)))
            &&& show_expired || !row_expired(x)
            &&& child_merge_fits(cs) ==> merged_bytes(x) == conn_flow_bytes(cs, conn_key_of(row_detail_key(x)))
            &&& child_conn_summary(cs, row_conn(x), x)
        },
        forall|t: int| 0 <= t < cs.len() && (show_expired || !cs[t].3) ==> exists|x: ChildRow|
            #[trigger] child_rows_from(cs, show_expired, true, sel).contains(x) && conn_key_of(row_detail_key(x))
                == conn_key_of(cs[t].0),
        forall|i: int, j: int|
            0 <= i < j < child_rows_from(cs, show_expired, true, sel).len() ==> row_conn(
                #[trigger] child_rows_from(cs, show_expired, true, sel)[i],
            ) != row_conn(#[trigger] child_rows_from(cs, show_expired, true, sel)[j]),
{
    broadcast use vstd::seq_lib::group_to_multiset_ensures;
    lemma_child_merge_state(cs);
    lemma_child_merge_moments(cs);
    let (ks, rs) = child_merge_state(cs);
    lemma_live_children_members(rs, show_expired);
    let live = live_children(rs, show_expired);
    let out = child_rows_from(cs, show_expired, true, sel);
    assert(out == stable_sorted(live, sel));
    crate::sorting::lemma_stable_sorted_permutes(live, sel);
    assert forall|x: ChildRow| #[trigger] out.contains(x) implies {
        &&& x is Conn
        &&& has_flow_key(cs, row_detail_key(x))
        &&& row_expired(x) <==> all_flows_expired(cs, conn_key_of(row_detail_key(x)))
        &&& show_expired || !row_expired(x)
        &&& child_merge_fits(cs) ==> merged_bytes(x) == conn_flow_bytes(cs, conn_key_of(row_detail_key(x)))
        &&& child_conn_summary(cs, row_conn(x), x)
    } by {
        assert(out.to_multiset().count(x) > 0);
        assert(live.contains(x));
        let p = choose|p: int| 0 <= p < rs.len() && rs[p] == x;
        assert(rs[p] == x);
    }
    assert forall|t: int| 0 <= t < cs.len() && (show_expired || !cs[t].3) implies exists|x: ChildRow|
        #[trigger] out.contains(x) && conn_key_of(row_detail_key(x)) == conn_key_of(cs[t].0) by {
        let ck = conn_key_of(cs[t].0);
        assert(ks.contains(ck));
        let p = choose|p: int| 0 <= p < ks.len() && ks[p] == ck;
        let r = rs[p];
        assert(r is Conn && conn_key_of(row_detail_key(r)) == ck);
        if !show_expired {
            assert(!all_flows_expired(cs, ck)) by {
                assert(conn_key_of(cs[t].0) == ck);
            }
        }
        assert(live.contains(r));
        assert(live.to_multiset().count(r) > 0);
        assert(out.contains(r));
    }
    let key = |r: ChildRow| row_conn(r);
    assert forall|i: int, j: int| 0 <= i < rs.len() && 0 <= j < rs.len() && i != j implies key(#[trigger] rs[i]) != key(
        #[trigger] rs[j],
    ) by {
        assert(ks[i] != ks[j]);
    }
    lemma_live_children_distinct(rs, show_expired);
    lemma_stable_sorted_distinct(live, sel, key);
    assert forall|i: int, j: int| 0 <= i < j < out.len() implies row_conn(#[trigger] out[i]) != row_conn(#[trigger] out[j]) by {
        assert(key(out[i]) != key(out[j]));
    }
}

/// The per-flow row of a child flow.
pub open spec fn flow_row_of(ch: ChildFlow) -> ChildRow {
    ChildRow::Flow { key: ch.0, stats: ch.1, expired: ch.3 }
}

/// The per-flow view of a parent's children lists the rows of exactly the
/// child flows that are live, or all of them when expired rows are shown,
/// each with its own key, counters and expiry.
pub proof fn lemma_flow_child_rows(cs: Seq<ChildFlow>, show_expired: bool, sel: ProcSort)
    ensures
        forall|x: ChildRow| #[trigger] child_rows_from(cs, show_expired, false, sel).contains(x) ==> exists|t: int|
            0 <= t < cs.len() && x == flow_row_of(#[trigger] cs[t]) && (show_expired || !cs[t].3),
        forall|t: int| 0 <= t < cs.len() && (show_expired || !cs[t].3) ==> child_rows_from(cs, show_expired, false, sel).contains(
            flow_row_of(#[trigger] cs[t]),
        ),
    decreases cs.len(),
{
    if cs.len() > 0 {
        let d = cs.drop_last();
        lemma_flow_child_rows(d, show_expired, sel);
        let prev = flow_child_rows(d, show_expired);
        let out = flow_child_rows(cs, show_expired);
        let n = cs.len() - 1;
        assert(cs[n] == cs.last());
        assert(child_rows_from(d, show_expired, false, sel) == prev);
        assert(child_rows_from(cs, show_expired, false, sel) == out);
        assert forall|x: ChildRow| #[trigger] out.contains(x) implies exists|t: int|
            0 <= t < cs.len() && x == flow_row_of(#[trigger] cs[t]) && (show_expired || !cs[t].3) by {
            let w = choose|w: int| 0 <= w < out.len() && out[w] == x;
            if w < prev.len() {
                assert(out[w] == prev[w]);
                assert(prev.contains(x));
                let t = choose|t: int| 0 <= t < d.len() && x == flow_row_of(#[trigger] d[t]) && (show_expired || !d[t].3);
                assert(cs[t] == d[t]);
            } else {
                assert(out != prev);
                assert(x == flow_row_of(cs[n]) && (show_expired || !cs[n].3));
            }
        }
        assert forall|t: int| 0 <= t < cs.len() && (show_expired || !cs[t].3) implies out.contains(
            flow_row_of(#[trigger] cs[t]),
        ) by {
            if t < n {
                assert(cs[t] == d[t]);
                assert(prev.contains(flow_row_of(d[t])));
                let w = choose|w: int| 0 <= w < prev.len() && prev[w] == flow_row_of(d[t]);
                assert(out[w] == prev[w]);
            } else {
                assert(out[out.len() - 1] == flow_row_of(cs[n]));
            }
        }
    }
}

} // verus!
