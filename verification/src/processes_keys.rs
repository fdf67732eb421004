//! Processes screen state and its key handling: the flattened process tree
//! the cursor walks, and what each key press does to the screen's state and
//! the shared preferences.

use vstd::prelude::*;
use std::collections::HashSet;
use rustc_hash::FxBuildHasher;
use crate::common::SortDirection;
use crate::dashboard::copy_text;
use crate::flow::FlowKey;
use crate::pidset::{held_pids, pid_set_new, pid_set_contains, pid_set_insert, pid_set_remove};
use crate::prefs::{Key, KeyPress, UiPrefs, is_interrupt};
use crate::processes::{ChildFlow, ChildRow, FrozenProcessRow, ProcSort, ProcSortColumn, child_mergeable,
    child_rows_from, initial_sort_direction, natural_direction, sort_parents, try_child_rows,
    with_sorted_children};
use crate::sorting::{stable_sort, stable_sorted, order_respects, pointwise, lemma_stable_sorted_congruent};

verus! {

/// State of the processes screen.
pub struct ProcessesState {
    /// Selected row of the flattened parent-and-child list.
    pub selected: usize,
    /// PIDs whose flow children are shown beneath their row.
    pub expanded: HashSet<u32, FxBuildHasher>,
    pub sort_column: ProcSortColumn,
    pub sort_direction: SortDirection,
    pub paused: bool,
    /// Parents frozen (in PID order) when pause was switched on.
    pub frozen: Option<Vec<FrozenProcessRow>>,
    /// Wrap long command lines instead of truncating them.
    pub wrap: bool,
    /// The details overlay is shown in place of the tree.
    pub show_details: bool,
    /// The flow the overlay is pinned to.
    pub details_flow: Option<FlowKey>,
}

/// The processes screen state as the key handling reads it.
#[verifier::ext_equal]
pub struct ProcessesView {
    pub selected: usize,
    pub expanded: Set<u32>,
    pub sort_column: ProcSortColumn,
    pub sort_direction: SortDirection,
    pub paused: bool,
    pub frozen: Option<Seq<FrozenProcessRow>>,
    pub wrap: bool,
    pub show_details: bool,
    pub details_flow: Option<FlowKey>,
}

impl View for ProcessesState {
    type V = ProcessesView;

    open spec fn view(&self) -> ProcessesView {
        ProcessesView {
            selected: self.selected,
            expanded: held_pids(self.expanded),
            sort_column: self.sort_column,
            sort_direction: self.sort_direction,
            paused: self.paused,
            frozen: match self.frozen {
                Some(f) => Some(f@),
                None => None,
            },
            wrap: self.wrap,
            show_details: self.show_details,
            details_flow: self.details_flow,
        }
    }
}

impl Default for ProcessesState {
    fn default() -> (r: ProcessesState)
        ensures
            r@ == (ProcessesView {
                selected: 0,
                expanded: Set::empty(),
                sort_column: ProcSortColumn::Fixed,
                sort_direction: SortDirection::Asc,
                paused: false,
                frozen: None,
                wrap: false,
                show_details: false,
                details_flow: None,
            }),
    {
        ProcessesState {
            selected: 0,
            expanded: pid_set_new(),
            sort_column: ProcSortColumn::Fixed,
            sort_direction: SortDirection::Asc,
            paused: false,
            frozen: None,
            wrap: false,
            show_details: false,
            details_flow: None,
        }
    }
}

/// The outside step a processes key press asks of the app.
#[derive(Debug, Clone, Copy, PartialEq, Eq, Structural)]
pub enum ProcessesAction {
    Stay,
    Quit,
    /// Switch back to the dashboard.
    ShowDashboard,
}

/// One line of the flattened tree: a process, or a child flow (the flow the
/// details overlay opens on).
#[derive(Debug, Clone, Copy, PartialEq, Eq, Structural)]
pub enum TreeEntry {
    Parent(u32),
    Child(FlowKey),
}

/// The flow a child line opens the details overlay on: the flow itself, or
/// for a merged connection its detail key.
pub open spec fn child_target(c: ChildRow) -> FlowKey {
    match c {
        ChildRow::Flow { key, .. } => key,
        ChildRow::Conn { detail_key, .. } => detail_key,
    }
}

/// The lines of parent `i`: its own line, then its child lines when it is
/// expanded.
pub open spec fn tree_block(pids: Seq<u32>, lists: Seq<Seq<ChildRow>>, expanded: Set<u32>, i: int) -> Seq<
    TreeEntry,
> {
    seq![TreeEntry::Parent(pids[i])] + if expanded.contains(pids[i]) {
        lists[i].map_values(|c: ChildRow| TreeEntry::Child(child_target(c)))
    } else {
        Seq::empty()
    }
}

/// The lines of the first `n` parents, in order.
pub open spec fn flat_upto(pids: Seq<u32>, lists: Seq<Seq<ChildRow>>, expanded: Set<u32>, n: int) -> Seq<
    TreeEntry,
>
    decreases n,
{
    if n <= 0 {
        Seq::empty()
    } else {
        flat_upto(pids, lists, expanded, n - 1) + tree_block(pids, lists, expanded, n - 1)
    }
}

/// Every line of the flattened tree.
pub open spec fn flat_entries(pids: Seq<u32>, lists: Seq<Seq<ChildRow>>, expanded: Set<u32>) -> Seq<TreeEntry> {
    flat_upto(pids, lists, expanded, pids.len() as int)
}

proof fn lemma_flat_prefix(pids: Seq<u32>, lists: Seq<Seq<ChildRow>>, expanded: Set<u32>, i: int, j: int)
    requires
        0 <= i <= j,
    ensures
        flat_upto(pids, lists, expanded, i).len() <= flat_upto(pids, lists, expanded, j).len(),
        forall|k: int| 0 <= k < flat_upto(pids, lists, expanded, i).len() ==> flat_upto(pids, lists, expanded, j)[k]
            == flat_upto(pids, lists, expanded, i)[k],
    decreases j - i,
{
    if i < j {
        lemma_flat_prefix(pids, lists, expanded, i, j - 1);
    }
}

pub open spec fn pids_of(parents: Seq<FrozenProcessRow>) -> Seq<u32> {
    parents.map_values(|a: FrozenProcessRow| a.pid)
}

pub open spec fn lists_of(lists: Seq<Vec<ChildRow>>) -> Seq<Seq<ChildRow>> {
    lists.map_values(|v: Vec<ChildRow>| v@)
}

/// The tree lists `parents` and `lists` pair up, and the flattened tree fits
/// a `usize` count.
pub open spec fn tree_shape_ok(parents: Seq<FrozenProcessRow>, lists: Seq<Vec<ChildRow>>, expanded: Set<u32>) -> bool {
    &&& parents.len() == lists.len()
    &&& flat_entries(pids_of(parents), lists_of(lists), expanded).len() <= usize::MAX
}

/// Count the rows of the flattened tree: every parent, plus the children of
/// each expanded one.
pub fn flat_row_count(parents: &Vec<FrozenProcessRow>, child_lists: &Vec<Vec<ChildRow>>, state: &ProcessesState) -> (r: usize)
    requires
        tree_shape_ok(parents@, child_lists@, state@.expanded),
    ensures
        r == flat_entries(pids_of(parents@), lists_of(child_lists@), state@.expanded).len(),
{
    let ghost pids = pids_of(parents@);
    let ghost lists = lists_of(child_lists@);
    let ghost ex = state@.expanded;
    let mut total: usize = 0;
    let mut i: usize = 0;
    while i < parents.len()
        invariant
            parents.len() == child_lists.len(),
            pids == pids_of(parents@),
            lists == lists_of(child_lists@),
            ex == state@.expanded,
            flat_entries(pids, lists, ex).len() <= usize::MAX,
            i <= parents.len(),
            total == flat_upto(pids, lists, ex, i as int).len(),
        decreases parents.len() - i,
    {
        proof {
            lemma_flat_prefix(pids, lists, ex, i + 1, pids.len() as int);
        }
        total = total + 1;
        if pid_set_contains(&state.expanded, parents[i].pid) {
            total = total + child_lists[i].len();
        }
        i = i + 1;
    }
    total
}

/// One line of the flattened tree by position: parent `i`, or child `j` of
/// parent `i`.
#[derive(Debug, Clone, Copy, PartialEq, Eq, Structural)]
pub enum TreeLine {
    Parent(usize),
    Child(usize, usize),
}

/// The tree entry a line stands for.
pub open spec fn line_entry(l: TreeLine, pids: Seq<u32>, lists: Seq<Seq<ChildRow>>) -> TreeEntry {
    match l {
        TreeLine::Parent(i) => TreeEntry::Parent(pids[i as int]),
        TreeLine::Child(i, j) => TreeEntry::Child(child_target(lists[i as int][j as int])),
    }
}

/// Every position a line names lies within the lists.
pub open spec fn line_in_bounds(l: TreeLine, lists: Seq<Seq<ChildRow>>) -> bool {
    match l {
        TreeLine::Parent(i) => i < lists.len(),
        TreeLine::Child(i, j) => i < lists.len() && j < lists[i as int].len(),
    }
}

/// The lines of the flattened tree, in order, by position (see
/// `flat_entries`): what the tree shows line by line, the same lines the
/// cursor walks.
pub fn tree_lines(parents: &Vec<FrozenProcessRow>, child_lists: &Vec<Vec<ChildRow>>, state: &ProcessesState)
    -> (r: Vec<TreeLine>)
    requires
        tree_shape_ok(parents@, child_lists@, state@.expanded),
    ensures
        r@.len() == flat_entries(pids_of(parents@), lists_of(child_lists@), state@.expanded).len(),
        forall|k: int| 0 <= k < r@.len() ==> line_in_bounds(#[trigger] r@[k], lists_of(child_lists@)) && line_entry(
            r@[k],
            pids_of(parents@),
            lists_of(child_lists@),
        ) == flat_entries(pids_of(parents@), lists_of(child_lists@), state@.expanded)[k],
{
    let ghost pids = pids_of(parents@);
    let ghost lists = lists_of(child_lists@);
    let ghost ex = state@.expanded;
    let mut out: Vec<TreeLine> = Vec::new();
    let mut i: usize = 0;
    while i < parents.len()
        invariant
            parents.len() == child_lists.len(),
            pids == pids_of(parents@),
            lists == lists_of(child_lists@),
            ex == state@.expanded,
            i <= parents.len(),
            out@.len() == flat_upto(pids, lists, ex, i as int).len(),
            forall|k: int| 0 <= k < out@.len() ==> line_in_bounds(#[trigger] out@[k], lists) && line_entry(
                out@[k],
                pids,
                lists,
            ) == flat_upto(pids, lists, ex, i as int)[k],
        decreases parents.len() - i,
    {
        let ghost before = flat_upto(pids, lists, ex, i as int);
        let ghost blk = tree_block(pids, lists, ex, i as int);
        assert(flat_upto(pids, lists, ex, i + 1) == before + blk);
        out.push(TreeLine::Parent(i));
        if pid_set_contains(&state.expanded, parents[i].pid) {
            let n = child_lists[i].len();
            let mut j: usize = 0;
            while j < n
                invariant
                    parents.len() == child_lists.len(),
                    pids == pids_of(parents@),
                    lists == lists_of(child_lists@),
                    i < parents.len(),
                    n == child_lists@[i as int].len(),
                    ex.contains(pids[i as int]),
                    blk == tree_block(pids, lists, ex, i as int),
                    j <= n,
                    out@.len() == before.len() + 1 + j,
                    forall|k: int| 0 <= k < out@.len() ==> line_in_bounds(#[trigger] out@[k], lists) && line_entry(
                        out@[k],
                        pids,
                        lists,
                    ) == (before + blk)[k],
                decreases n - j,
            {
                out.push(TreeLine::Child(i, j));
                j = j + 1;
            }
        }
        i = i + 1;
    }
    out
}

/// The parent PID on the selected line, `None` on a child line or past the
/// end.
pub open spec fn parent_at(entries: Seq<TreeEntry>, selected: usize) -> Option<u32> {
    if selected < entries.len() {
        match entries[selected as int] {
            TreeEntry::Parent(pid) => Some(pid),
            TreeEntry::Child(_) => None,
        }
    } else {
        None
    }
}

/// The flow of the child on the selected line, `None` on a parent line or
/// past the end.
pub open spec fn child_at(entries: Seq<TreeEntry>, selected: usize) -> Option<FlowKey> {
    if selected < entries.len() {
        match entries[selected as int] {
            TreeEntry::Parent(_) => None,
            TreeEntry::Child(k) => Some(k),
        }
    } else {
        None
    }
}

/// Resolve the selected line to a parent PID (`None` on a child line).
pub fn parent_pid_at(parents: &Vec<FrozenProcessRow>, child_lists: &Vec<Vec<ChildRow>>, state: &ProcessesState) -> (r: Option<u32>)
    requires
        tree_shape_ok(parents@, child_lists@, state@.expanded),
    ensures
        r == parent_at(flat_entries(pids_of(parents@), lists_of(child_lists@), state@.expanded), state.selected),
{
    let ghost pids = pids_of(parents@);
    let ghost lists = lists_of(child_lists@);
    let ghost ex = state@.expanded;
    let ghost all = flat_entries(pids, lists, ex);
    let mut idx: usize = 0;
    let mut i: usize = 0;
    while i < parents.len()
        invariant
            parents.len() == child_lists.len(),
            pids == pids_of(parents@),
            lists == lists_of(child_lists@),
            ex == state@.expanded,
            all == flat_entries(pids, lists, ex),
            all.len() <= usize::MAX,
            i <= parents.len(),
            idx == flat_upto(pids, lists, ex, i as int).len(),
            state.selected >= idx,
        decreases parents.len() - i,
    {
        proof {
            lemma_flat_prefix(pids, lists, ex, i + 1, pids.len() as int);
        }
        let ghost blk = tree_block(pids, lists, ex, i as int);
        let ghost before = flat_upto(pids, lists, ex, i as int);
        if idx == state.selected {
            proof {
                assert(flat_upto(pids, lists, ex, i + 1)[idx as int] == blk[0]);
            }
            return Some(parents[i].pid);
        }
        idx = idx + 1;
        if pid_set_contains(&state.expanded, parents[i].pid) {
            let n = child_lists[i].len();
            if state.selected < idx + n {
                proof {
                    let k = state.selected as int;
                    assert(flat_upto(pids, lists, ex, i + 1)[k] == blk[k - before.len()]);
                }
                return None;
            }
            idx = idx + n;
        }
        i = i + 1;
    }
    None
}

/// Resolve the selected line to the flow of a child (`None` on a parent
/// line).
pub fn child_flow_at(parents: &Vec<FrozenProcessRow>, child_lists: &Vec<Vec<ChildRow>>, state: &ProcessesState) -> (r: Option<FlowKey>)
    requires
        tree_shape_ok(parents@, child_lists@, state@.expanded),
    ensures
        r == child_at(flat_entries(pids_of(parents@), lists_of(child_lists@), state@.expanded), state.selected),
{
    let ghost pids = pids_of(parents@);
    let ghost lists = lists_of(child_lists@);
    let ghost ex = state@.expanded;
    let ghost all = flat_entries(pids, lists, ex);
    let mut idx: usize = 0;
    let mut i: usize = 0;
    while i < parents.len()
        invariant
            parents.len() == child_lists.len(),
            pids == pids_of(parents@),
            lists == lists_of(child_lists@),
            ex == state@.expanded,
            all == flat_entries(pids, lists, ex),
            all.len() <= usize::MAX,
            i <= parents.len(),
            idx == flat_upto(pids, lists, ex, i as int).len(),
            state.selected >= idx,
        decreases parents.len() - i,
    {
        proof {
            lemma_flat_prefix(pids, lists, ex, i + 1, pids.len() as int);
        }
        let ghost blk = tree_block(pids, lists, ex, i as int);
        let ghost before = flat_upto(pids, lists, ex, i as int);
        if idx == state.selected {
            proof {
                assert(flat_upto(pids, lists, ex, i + 1)[idx as int] == blk[0]);
            }
            return None;
        }
        idx = idx + 1;
        if pid_set_contains(&state.expanded, parents[i].pid) {
            let children = &child_lists[i];
            let mut c: usize = 0;
            while c < children.len()
                invariant
                    pids == pids_of(parents@),
                    lists == lists_of(child_lists@),
                    ex == state@.expanded,
                    all == flat_entries(pids, lists, ex),
                    i < pids.len(),
                    pids.len() == lists.len(),
                    children@ == lists[i as int],
                    c <= children.len(),
                    idx == before.len() + 1 + c,
                    state.selected >= idx,
                    all.len() <= usize::MAX,
                    before.len() + 1 + children.len() <= all.len(),
                    blk == seq![TreeEntry::Parent(pids[i as int])] + lists[i as int].map_values(
                        |ch: ChildRow| TreeEntry::Child(child_target(ch)),
                    ),
                    forall|k: int| 0 <= k < before.len() + blk.len() ==> #[trigger] all[k] == (before + blk)[k],
                decreases children.len() - c,
            {
                if idx == state.selected {
                    proof {
                        let k = state.selected as int;
                        assert(all[k] == blk[k - before.len()]);
                        assert(blk[1 + c] == TreeEntry::Child(child_target(children@[c as int])));
                    }
                    return Some(
                        match &children[c] {
                            ChildRow::Flow { key, .. } => *key,
                            ChildRow::Conn { detail_key, .. } => *detail_key,
                        },
                    );
                }
                idx = idx + 1;
                c = c + 1;
            }
        }
        i = i + 1;
    }
    None
}

/// Checked count of the rows of the flattened tree: `None` when the count
/// does not fit a `usize`.
pub fn try_flat_row_count(parents: &Vec<FrozenProcessRow>, child_lists: &Vec<Vec<ChildRow>>, state: &ProcessesState)
    -> (r: Option<usize>)
    requires
        parents.len() == child_lists.len(),
    ensures
        r is Some <==> tree_shape_ok(parents@, child_lists@, state@.expanded),
        r is Some ==> r->0 == flat_entries(pids_of(parents@), lists_of(child_lists@), state@.expanded).len(),
{
    let ghost pids = pids_of(parents@);
    let ghost lists = lists_of(child_lists@);
    let ghost ex = state@.expanded;
    let mut total: usize = 0;
    let mut i: usize = 0;
    while i < parents.len()
        invariant
            parents.len() == child_lists.len(),
            pids == pids_of(parents@),
            lists == lists_of(child_lists@),
            ex == state@.expanded,
            i <= parents.len(),
            total == flat_upto(pids, lists, ex, i as int).len(),
        decreases parents.len() - i,
    {
        proof {
            lemma_flat_prefix(pids, lists, ex, i + 1, pids.len() as int);
        }
        if total == usize::MAX {
            return None;
        }
        total = total + 1;
        if pid_set_contains(&state.expanded, parents[i].pid) {
            let n = child_lists[i].len();
            if total > usize::MAX - n {
                return None;
            }
            total = total + n;
        }
        i = i + 1;
    }
    Some(total)
}

/// The parents in the sort order `sel`.
pub open spec fn tree_parents(parents: Seq<FrozenProcessRow>, sel: ProcSort) -> Seq<FrozenProcessRow> {
    stable_sorted(parents, sel)
}

/// The PIDs of the tree's parents, in tree order.
pub open spec fn tree_pids(parents: Seq<FrozenProcessRow>, sel: ProcSort) -> Seq<u32> {
    pids_of(tree_parents(parents, sel))
}

/// The visible child rows of each of the tree's parents, its children in
/// the sort order `sel`.
pub open spec fn tree_lists(parents: Seq<FrozenProcessRow>, show_expired: bool, aggregate: bool, sel: ProcSort)
    -> Seq<Seq<ChildRow>>
{
    tree_parents(parents, sel).map_values(
        |a: FrozenProcessRow| child_rows_from(stable_sorted(a.children@, sel), show_expired, aggregate, sel),
    )
}

/// The tree can be built: in the connection view every parent's sorted
/// children are mergeable.
pub open spec fn tree_ready(parents: Seq<FrozenProcessRow>, aggregate: bool, sel: ProcSort) -> bool {
    aggregate ==> forall|i: int| 0 <= i < parents.len() ==> child_mergeable(
        stable_sorted((#[trigger] tree_parents(parents, sel)[i]).children@, sel),
    )
}

fn copy_children(cs: &Vec<ChildFlow>) -> (r: Vec<ChildFlow>)
    ensures
        r@ == cs@,
{
    let mut out: Vec<ChildFlow> = Vec::new();
    let mut i: usize = 0;
    while i < cs.len()
        invariant
            i <= cs.len(),
            out@ == cs@.take(i as int),
        decreases cs.len() - i,
    {
        proof {
            assert(cs@.take(i + 1) =~= cs@.take(i as int).push(cs@[i as int]));
        }
        out.push(cs[i]);
        i = i + 1;
    }
    proof {
        assert(cs@.take(cs.len() as int) =~= cs@);
    }
    out
}

/// A copy of a parent row.
pub fn copy_parent(a: &FrozenProcessRow) -> (r: FrozenProcessRow)
    ensures
        r.pid == a.pid,
        r.name == a.name,
        r.user == a.user,
        r.cmd == a.cmd,
        r.alive == a.alive,
        r.agg == a.agg,
        r.children@ == a.children@,
{
    FrozenProcessRow {
        pid: a.pid,
        name: a.name.clone(),
        user: copy_text(&a.user),
        cmd: a.cmd.clone(),
        alive: a.alive,
        agg: a.agg,
        children: copy_children(&a.children),
    }
}

/// Two parent rows hold the same values.
pub open spec fn same_parent(a: FrozenProcessRow, b: FrozenProcessRow) -> bool {
    &&& a.pid == b.pid
    &&& a.name == b.name
    &&& a.user == b.user
    &&& a.cmd == b.cmd
    &&& a.alive == b.alive
    &&& a.agg == b.agg
    &&& a.children@ == b.children@
}

/// The order of parents cannot tell apart rows holding the same values.
proof fn lemma_parent_order_respects_same(sel: ProcSort)
    ensures
        order_respects::<FrozenProcessRow, ProcSort>(sel, |a: FrozenProcessRow, b: FrozenProcessRow| same_parent(a, b)),
{
}

/// Parent lists holding the same values build the same tree.
proof fn lemma_tree_congruent(p1: Seq<FrozenProcessRow>, p2: Seq<FrozenProcessRow>, show_expired: bool, aggregate: bool,
    sel: ProcSort)
    requires
        pointwise(p1, p2, |a: FrozenProcessRow, b: FrozenProcessRow| same_parent(a, b)),
    ensures
        tree_pids(p1, sel) == tree_pids(p2, sel),
        tree_lists(p1, show_expired, aggregate, sel) == tree_lists(p2, show_expired, aggregate, sel),
        tree_ready(p1, aggregate, sel) == tree_ready(p2, aggregate, sel),
{
    let eqv = |a: FrozenProcessRow, b: FrozenProcessRow| same_parent(a, b);
    lemma_parent_order_respects_same(sel);
    lemma_stable_sorted_congruent(p1, p2, sel, eqv);
    crate::sorting::lemma_stable_sorted_permutes(p1, sel);
    crate::sorting::lemma_stable_sorted_permutes(p2, sel);
    let t1 = tree_parents(p1, sel);
    let t2 = tree_parents(p2, sel);
    assert forall|i: int| 0 <= i < t1.len() implies t1[i].pid == t2[i].pid && t1[i].children@ == t2[i].children@ by {
        assert(eqv(t1[i], t2[i]));
    }
    assert(tree_pids(p1, sel) =~= tree_pids(p2, sel));
    assert(tree_lists(p1, show_expired, aggregate, sel) =~= tree_lists(p2, show_expired, aggregate, sel));
}

pub(crate) fn copy_parents(ps: &Vec<FrozenProcessRow>) -> (r: Vec<FrozenProcessRow>)
    ensures
        pointwise(r@, ps@, |a: FrozenProcessRow, b: FrozenProcessRow| same_parent(a, b)),
{
    let mut out: Vec<FrozenProcessRow> = Vec::new();
    let mut i: usize = 0;
    while i < ps.len()
        invariant
            i <= ps.len(),
            out.len() == i,
            forall|j: int| 0 <= j < i ==> same_parent(#[trigger] out@[j], ps@[j]),
        decreases ps.len() - i,
    {
        let c = copy_parent(&ps[i]);
        out.push(c);
        i = i + 1;
    }
    out
}

/// The sorted parents and the visible child rows of each, or `None` when
/// the tree cannot be built (see `tree_ready`).
pub fn try_build_tree(parents: Vec<FrozenProcessRow>, show_expired: bool, aggregate: bool, sel: ProcSort)
    -> (r: Option<(Vec<FrozenProcessRow>, Vec<Vec<ChildRow>>)>)
    ensures
        r is Some <==> tree_ready(parents@, aggregate, sel),
        r matches Some(t) ==> t.0.len() == t.1.len() && pids_of(t.0@) == tree_pids(parents@, sel)
            && lists_of(t.1@) == tree_lists(parents@, show_expired, aggregate, sel),
{
    let ghost orig = parents@;
    let mut ps = parents;
    sort_parents(&mut ps, sel.0, sel.1);
    proof {
        crate::sorting::lemma_stable_sorted_permutes(orig, sel);
    }
    let ghost sorted = tree_parents(orig, sel);
    let mut lists: Vec<Vec<ChildRow>> = Vec::new();
    let mut i: usize = 0;
    while i < ps.len()
        invariant
            orig == parents@,
            ps.len() == sorted.len(),
            sorted == tree_parents(orig, sel),
            sorted.len() == orig.len(),
            forall|j: int| 0 <= j < ps.len() ==> with_sorted_children(#[trigger] sorted[j], ps@[j], sel),
            i <= ps.len(),
            lists.len() == i,
            forall|j: int| 0 <= j < i ==> (#[trigger] lists@[j])@ == child_rows_from(
                stable_sorted(sorted[j].children@, sel),
                show_expired,
                aggregate,
                sel,
            ),
            aggregate ==> forall|j: int| 0 <= j < i ==> child_mergeable(stable_sorted((#[trigger] sorted[j]).children@, sel)),
        decreases ps.len() - i,
    {
        proof {
            assert(with_sorted_children(sorted[i as int], ps@[i as int], sel));
        }
        match try_child_rows(&ps[i], show_expired, aggregate, sel.0, sel.1) {
            Some(v) => {
                lists.push(v);
            },
            None => {
                proof {
                    assert(aggregate);
                    assert(!child_mergeable(stable_sorted(sorted[i as int].children@, sel)));
                    assert(!child_mergeable(stable_sorted(tree_parents(orig, sel)[i as int].children@, sel)));
                    assert(!tree_ready(orig, aggregate, sel));
                }
                return None;
            },
        }
        i = i + 1;
    }
    proof {
        assert(pids_of(ps@) =~= tree_pids(orig, sel)) by {
            assert forall|j: int| 0 <= j < ps.len() implies pids_of(ps@)[j] == tree_pids(orig, sel)[j] by {
                assert(with_sorted_children(sorted[j], ps@[j], sel));
            }
        }
        assert(lists_of(lists@) =~= tree_lists(orig, show_expired, aggregate, sel));
    }
    Some((ps, lists))
}

/// The parents the screen shows: the frozen snapshot when there is one,
/// else the live parents.
pub open spec fn current_parents_of(v: ProcessesView, live: Seq<FrozenProcessRow>) -> Seq<FrozenProcessRow> {
    match v.frozen {
        Some(f) => f,
        None => live,
    }
}

/// The lines of the tree the screen draws.
pub open spec fn tree_entries_of(v: ProcessesView, p: UiPrefs, live: Seq<FrozenProcessRow>) -> Seq<TreeEntry> {
    let sel = (v.sort_column, v.sort_direction);
    let cur = current_parents_of(v, live);
    flat_entries(tree_pids(cur, sel), tree_lists(cur, p.show_expired, p.aggregate, sel), v.expanded)
}

pub open spec fn moves_down(k: KeyPress) -> bool {
    k.key == Key::Down || k.key == Key::Char('j')
}

/// A key press that walks the tree: moving down, or Enter, on the tree (no
/// overlay), `q` and Ctrl-C handled before.
pub open spec fn needs_tree(v: ProcessesView, k: KeyPress) -> bool {
    &&& !k.is_interrupt()
    &&& !k.is_char('q')
    &&& !v.show_details
    &&& (moves_down(k) || k.key == Key::Enter)
}

/// A key press the handler can take without overflow: when it walks the
/// tree, the tree can be built, its line count fits a `usize`, and moving
/// down from the last possible cursor position cannot happen.
pub open spec fn processes_key_ready(v: ProcessesView, p: UiPrefs, k: KeyPress, live: Seq<FrozenProcessRow>) -> bool {
    needs_tree(v, k) ==> {
        &&& tree_ready(current_parents_of(v, live), p.aggregate, (v.sort_column, v.sort_direction))
        &&& tree_entries_of(v, p, live).len() <= usize::MAX
        &&& moves_down(k) && tree_entries_of(v, p, live).len() > 0 ==> v.selected < usize::MAX
    }
}

/// What one key press does on the processes screen, given the live parents
/// of the moment: the next state, the next preferences, and the step asked
/// of the app.
pub open spec fn processes_step(v: ProcessesView, p: UiPrefs, k: KeyPress, live: Seq<FrozenProcessRow>) -> (
    ProcessesView,
    UiPrefs,
    ProcessesAction,
) {
    if k.is_interrupt() {
        (v, p, ProcessesAction::Stay)
    } else if k.is_char('q') {
        (v, p, ProcessesAction::Quit)
    } else if v.show_details {
        // The overlay pins the screen: only closing it does anything.
        if k.key == Key::Esc || k.is_char('b') {
            (ProcessesView { show_details: false, details_flow: None, ..v }, p, ProcessesAction::Stay)
        } else {
            (v, p, ProcessesAction::Stay)
        }
    } else {
        let entries = tree_entries_of(v, p, live);
        match k.key {
            Key::Down | Key::Char('j') => if entries.len() > 0 {
                let next = v.selected + 1;
                (
                    ProcessesView { selected: if next < entries.len() - 1 { next as usize } else { (entries.len() - 1) as usize }, ..v },
                    p,
                    ProcessesAction::Stay,
                )
            } else {
                (v, p, ProcessesAction::Stay)
            },
            Key::Up | Key::Char('k') => (
                ProcessesView { selected: if v.selected == 0 { 0 } else { (v.selected - 1) as usize }, ..v },
                p,
                ProcessesAction::Stay,
            ),
            Key::Enter => match parent_at(entries, v.selected) {
                Some(pid) => (
                    ProcessesView {
                        expanded: if v.expanded.contains(pid) { v.expanded.remove(pid) } else { v.expanded.insert(pid) },
                        ..v
                    },
                    p,
                    ProcessesAction::Stay,
                ),
                None => match child_at(entries, v.selected) {
                    Some(key) => (ProcessesView { details_flow: Some(key), show_details: true, ..v }, p, ProcessesAction::Stay),
                    None => (v, p, ProcessesAction::Stay),
                },
            },
            Key::Char('n') => (v, UiPrefs { names_mode: !p.names_mode, ..p }, ProcessesAction::Stay),
            Key::Char('e') => (v, UiPrefs { show_expired: !p.show_expired, ..p }, ProcessesAction::Stay),
            Key::Char('a') => (v, UiPrefs { aggregate: !p.aggregate, ..p }, ProcessesAction::Stay),
            Key::Char('s') => (
                ProcessesView {
                    sort_column: v.sort_column.successor(),
                    sort_direction: natural_direction(v.sort_column.successor()),
                    ..v
                },
                p,
                ProcessesAction::Stay,
            ),
            Key::Char('S') => (ProcessesView { sort_direction: v.sort_direction.flipped(), ..v }, p, ProcessesAction::Stay),
            Key::Char(' ') => if v.paused {
                (ProcessesView { paused: false, frozen: None, ..v }, p, ProcessesAction::Stay)
            } else {
                (
                    ProcessesView {
                        paused: true,
                        frozen: Some(stable_sorted(live, (ProcSortColumn::Fixed, SortDirection::Asc))),
                        ..v
                    },
                    p,
                    ProcessesAction::Stay,
                )
            },
            Key::Char('w') => (ProcessesView { wrap: !v.wrap, ..v }, p, ProcessesAction::Stay),
            Key::Char('?') => (v, UiPrefs { show_help: !p.show_help, ..p }, ProcessesAction::Stay),
            Key::Esc | Key::Char('b') => if p.show_help && k.key == Key::Esc {
                (v, UiPrefs { show_help: false, ..p }, ProcessesAction::Stay)
            } else {
                (
                    ProcessesView { paused: false, frozen: None, show_details: false, details_flow: None, ..v },
                    p,
                    ProcessesAction::ShowDashboard,
                )
            },
            _ => (v, p, ProcessesAction::Stay),
        }
    }
}

fn copy_current_parents(state: &ProcessesState, live: &Vec<FrozenProcessRow>) -> (r: Vec<FrozenProcessRow>)
    ensures
        pointwise(r@, current_parents_of(state@, live@), |a: FrozenProcessRow, b: FrozenProcessRow| same_parent(a, b)),
{
    match &state.frozen {
        Some(f) => copy_parents(f),
        None => copy_parents(live),
    }
}

fn sort_by_pid(ps: &mut Vec<FrozenProcessRow>)
    ensures
        final(ps)@ == stable_sorted(old(ps)@, (ProcSortColumn::Fixed, SortDirection::Asc)),
{
    stable_sort(ps.as_mut_slice(), &(ProcSortColumn::Fixed, SortDirection::Asc));
}

/// Whether `processes_key` can take the key press (see
/// `processes_key_ready`).
pub fn processes_key_is_ready(state: &ProcessesState, prefs: &UiPrefs, k: KeyPress, live: &Vec<FrozenProcessRow>) -> (r: bool)
    ensures
        r == processes_key_ready(state@, *prefs, k, live@),
{
    if is_interrupt(&k) || k.key == Key::Char('q') || state.show_details {
        return true;
    }
    let down = match k.key {
        Key::Down | Key::Char('j') => true,
        _ => false,
    };
    if !down && k.key != Key::Enter {
        return true;
    }
    let cur = copy_current_parents(state, live);
    proof {
        lemma_tree_congruent(cur@, current_parents_of(state@, live@), prefs.show_expired, prefs.aggregate,
            (state.sort_column, state.sort_direction));
    }
    match try_build_tree(cur, prefs.show_expired, prefs.aggregate, (state.sort_column, state.sort_direction)) {
        None => false,
        Some((ps, lists)) => match try_flat_row_count(&ps, &lists, state) {
            None => false,
            Some(count) => !(down && count > 0 && state.selected == usize::MAX),
        },
    }
}

/// Handle one key press on the processes screen (see `processes_step`).
/// `live` is the screen's live parents of the moment: pause freezes them in
/// PID order, and the cursor walks the tree built from them unless a
/// snapshot is frozen.
pub fn processes_key(state: &mut ProcessesState, prefs: &mut UiPrefs, k: KeyPress, live: Vec<FrozenProcessRow>)
    -> (a: ProcessesAction)
    requires
        processes_key_ready(old(state)@, *old(prefs), k, live@),
    ensures
        final(state)@ == processes_step(old(state)@, *old(prefs), k, live@).0,
        *final(prefs) == processes_step(old(state)@, *old(prefs), k, live@).1,
        a == processes_step(old(state)@, *old(prefs), k, live@).2,
{
    if is_interrupt(&k) {
        return ProcessesAction::Stay;
    }
    if k.key == Key::Char('q') {
        return ProcessesAction::Quit;
    }
    if state.show_details {
        match k.key {
            Key::Esc | Key::Char('b') => {
                state.show_details = false;
                state.details_flow = None;
            },
            _ => {},
        }
        return ProcessesAction::Stay;
    }
    let sel: ProcSort = (state.sort_column, state.sort_direction);
    match k.key {
        Key::Down | Key::Char('j') => {
            let cur = copy_current_parents(state, &live);
            proof {
                lemma_tree_congruent(cur@, current_parents_of(state@, live@), prefs.show_expired, prefs.aggregate, sel);
            }
            if let Some((ps, lists)) = try_build_tree(cur, prefs.show_expired, prefs.aggregate, sel) {
                let count = flat_row_count(&ps, &lists, state);
                if count > 0 {
                    let next = state.selected + 1;
                    state.selected = if next < count - 1 { next } else { count - 1 };
                }
            }
            ProcessesAction::Stay
        },
        Key::Up | Key::Char('k') => {
            state.selected = state.selected.saturating_sub(1);
            ProcessesAction::Stay
        },
        Key::Enter => {
            let cur = copy_current_parents(state, &live);
            proof {
                lemma_tree_congruent(cur@, current_parents_of(state@, live@), prefs.show_expired, prefs.aggregate, sel);
            }
            if let Some((ps, lists)) = try_build_tree(cur, prefs.show_expired, prefs.aggregate, sel) {
                match parent_pid_at(&ps, &lists, state) {
                    Some(pid) => {
                        if !pid_set_insert(&mut state.expanded, pid) {
                            pid_set_remove(&mut state.expanded, pid);
                        }
                    },
                    None => match child_flow_at(&ps, &lists, state) {
                        Some(key) => {
                            state.details_flow = Some(key);
                            state.show_details = true;
                        },
                        None => {},
                    },
                }
            }
            ProcessesAction::Stay
        },
        Key::Char('n') => {
            prefs.names_mode = !prefs.names_mode;
            ProcessesAction::Stay
        },
        Key::Char('e') => {
            prefs.show_expired = !prefs.show_expired;
            ProcessesAction::Stay
        },
        Key::Char('a') => {
            prefs.aggregate = !prefs.aggregate;
            ProcessesAction::Stay
        },
        Key::Char('s') => {
            state.sort_column = state.sort_column.next();
            state.sort_direction = initial_sort_direction(state.sort_column);
            ProcessesAction::Stay
        },
        Key::Char('S') => {
            state.sort_direction = state.sort_direction.toggle();
            ProcessesAction::Stay
        },
        Key::Char(' ') => {
            if state.paused {
                state.paused = false;
                state.frozen = None;
            } else {
                state.paused = true;
                let mut snapshot = live;
                sort_by_pid(&mut snapshot);
                state.frozen = Some(snapshot);
            }
            ProcessesAction::Stay
        },
        Key::Char('w') => {
            state.wrap = !state.wrap;
            ProcessesAction::Stay
        },
        Key::Char('?') => {
            prefs.show_help = !prefs.show_help;
            ProcessesAction::Stay
        },
        Key::Esc | Key::Char('b') => {
            if prefs.show_help && k.key == Key::Esc {
                prefs.show_help = false;
                return ProcessesAction::Stay;
            }
            state.paused = false;
            state.frozen = None;
            state.show_details = false;
            state.details_flow = None;
            ProcessesAction::ShowDashboard
        },
        _ => ProcessesAction::Stay,
    }
}

/// While the details overlay is open the processes screen is pinned: any
/// key but Esc, `b`, `q` and Ctrl-C leaves the state and the preferences as
/// they were.
pub proof fn lemma_processes_details_pinned(v: ProcessesView, p: UiPrefs, k: KeyPress, live: Seq<FrozenProcessRow>)
    requires
        v.show_details,
        k.key != Key::Esc,
        !k.is_char('b'),
        !k.is_char('q'),
    ensures
        processes_step(v, p, k, live).0 == v,
        processes_step(v, p, k, live).1 == p,
        processes_step(v, p, k, live).2 == ProcessesAction::Stay,
{
}

/// Pausing and then unpausing brings the processes screen back to the live
/// tree: the first press freezes the live parents in PID order, the second
/// drops them, and nothing else changes.
pub proof fn lemma_processes_pause_round_trip(v: ProcessesView, p: UiPrefs, k: KeyPress, live1: Seq<FrozenProcessRow>,
    live2: Seq<FrozenProcessRow>)
    requires
        k.key == Key::Char(' '),
        !v.show_details,
        !v.paused,
    ensures
        ({
            let first = processes_step(v, p, k, live1);
            let second = processes_step(first.0, first.1, k, live2);
            &&& first.0 == (ProcessesView {
                paused: true,
                frozen: Some(stable_sorted(live1, (ProcSortColumn::Fixed, SortDirection::Asc))),
                ..v
            })
            &&& second.0 == (ProcessesView { paused: false, frozen: None, ..v })
            &&& second.1 == p
        }),
{
    let first = processes_step(v, p, k, live1);
    let second = processes_step(first.0, first.1, k, live2);
    assert(second.0 =~= (ProcessesView { paused: false, frozen: None, ..v }));
}

/// Moving down never takes the cursor past the last line of a non-empty
/// tree, and moves it one line down unless it already is on the last line.
pub proof fn lemma_processes_down_stays_on_tree(v: ProcessesView, p: UiPrefs, k: KeyPress, live: Seq<FrozenProcessRow>)
    requires
        moves_down(k),
        !v.show_details,
        0 < tree_entries_of(v, p, live).len() <= usize::MAX,
    ensures
        processes_step(v, p, k, live).0.selected < tree_entries_of(v, p, live).len(),
        v.selected + 1 < tree_entries_of(v, p, live).len() ==> processes_step(v, p, k, live).0.selected
            == v.selected + 1,
{
}

/// Enter on a process line toggles whether its children are shown: twice
/// gives back the expanded set one started from.
pub proof fn lemma_processes_enter_toggles(v: ProcessesView, p: UiPrefs, k: KeyPress, live: Seq<FrozenProcessRow>)
    requires
        k.key == Key::Enter,
        !v.show_details,
        parent_at(tree_entries_of(v, p, live), v.selected) is Some,
    ensures
        ({
            let pid = parent_at(tree_entries_of(v, p, live), v.selected)->0;
            let after = processes_step(v, p, k, live).0;
            &&& after.expanded.contains(pid) == !v.expanded.contains(pid)
            &&& forall|q: u32| q != pid ==> after.expanded.contains(q) == v.expanded.contains(q)
        }),
{
}

} // verus!
