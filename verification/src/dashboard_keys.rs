//! Dashboard screen state and its key handling: what each key press does to
//! the screen's state and the shared preferences, and which outside step
//! (quit, switch screen, tear down capture) the app has to perform.

use vstd::prelude::*;
use crate::common::SortDirection;
use crate::conn::{ConnRow, conn_is_sortable, conn_sortable, merged_conns, mergeable, merge_flow_rows, sort_conns,
    try_merge_flow_rows};
use crate::dashboard::{FlowRow, SortColumn, copy_rows, sort_entries};
use crate::flow::FlowKey;
use crate::prefs::{Key, KeyPress, UiPrefs, is_interrupt};
use crate::sorting::stable_sorted;

verus! {

/// State of the dashboard screen.
#[derive(Debug)]
pub struct DashboardState {
    /// Interface the dashboard is bound to; `None` while in the picker.
    pub selected_interface: Option<String>,
    pub selected: usize,
    /// The details overlay is shown in place of the table.
    pub show_details: bool,
    /// The flow the overlay is pinned to, captured when it was opened.
    pub details_flow: Option<FlowKey>,
    /// Capture filter in effect (empty: none).
    pub filter: String,
    pub paused: bool,
    /// Rows frozen when pause was switched on.
    pub frozen: Option<Vec<FlowRow>>,
    pub sort_column: SortColumn,
    /// Ignored while the column is `Fixed`.
    pub sort_direction: SortDirection,
}

impl Default for DashboardState {
    fn default() -> (r: DashboardState)
        ensures
            r.selected_interface is None,
            r.selected == 0,
            !r.show_details,
            r.details_flow is None,
            r.filter@ == Seq::<char>::empty(),
            !r.paused,
            r.frozen is None,
            r.sort_column == SortColumn::Fixed,
            r.sort_direction == SortDirection::Asc,
    {
        DashboardState {
            selected_interface: None,
            selected: 0,
            show_details: false,
            details_flow: None,
            filter: String::new(),
            paused: false,
            frozen: None,
            sort_column: SortColumn::Fixed,
            sort_direction: SortDirection::Asc,
        }
    }
}

/// The outside step a dashboard key press asks of the app.
#[derive(Debug, Clone, Copy, PartialEq, Eq, Structural)]
pub enum DashboardAction {
    /// Nothing beyond the state change.
    Stay,
    /// Quit the app.
    Quit,
    /// Switch to the processes screen.
    ShowProcesses,
    /// Stop capture, drop every flow, and switch to the picker.
    BackToPicker,
}

/// The rows the dashboard shows: the frozen snapshot when there is one,
/// else the live rows.
pub open spec fn current_rows_of(s: DashboardState, live: Seq<FlowRow>) -> Seq<FlowRow> {
    match s.frozen {
        Some(f) => f@,
        None => live,
    }
}

/// The flow rows without the expired ones, unless those are shown.
pub open spec fn visible_flow_rows(rows: Seq<FlowRow>, show_expired: bool) -> Seq<FlowRow>
    decreases rows.len(),
{
    if rows.len() == 0 {
        Seq::empty()
    } else {
        let prev = visible_flow_rows(rows.drop_last(), show_expired);
        if show_expired || !rows.last().expired { prev.push(rows.last()) } else { prev }
    }
}

/// The connection rows without the expired ones, unless those are shown.
pub open spec fn visible_conn_rows(cs: Seq<ConnRow>, show_expired: bool) -> Seq<ConnRow>
    decreases cs.len(),
{
    if cs.len() == 0 {
        Seq::empty()
    } else {
        let prev = visible_conn_rows(cs.drop_last(), show_expired);
        if show_expired || !cs.last().expired { prev.push(cs.last()) } else { prev }
    }
}

/// The connection table the dashboard draws in the merged view.
pub open spec fn conn_table(rows: Seq<FlowRow>, show_expired: bool, sel: (SortColumn, SortDirection))
    -> Seq<ConnRow>
{
    stable_sorted(visible_conn_rows(merged_conns(rows), show_expired), sel)
}

/// The flow table the dashboard draws in the per-flow view.
pub open spec fn flow_table(rows: Seq<FlowRow>, show_expired: bool, sel: (SortColumn, SortDirection))
    -> Seq<FlowRow>
{
    stable_sorted(visible_flow_rows(rows, show_expired), sel)
}

/// The cursor clamped to a table of `len` rows.
pub open spec fn clamped(selected: usize, len: nat) -> int {
    if selected < len { selected as int } else { len - 1 }
}

/// The flow the details overlay opens on for the selected row: the row's
/// flow, or for a connection its sent half (else its received half); none
/// when the table is empty.
pub open spec fn selected_key_in(rows: Seq<FlowRow>, selected: usize, prefs: UiPrefs,
    sel: (SortColumn, SortDirection)) -> Option<FlowKey>
{
    if prefs.aggregate {
        let t = conn_table(rows, prefs.show_expired, sel);
        if t.len() == 0 {
            None
        } else {
            let c = t[clamped(selected, t.len())];
            if c.tx_key is Some { c.tx_key } else { c.rx_key }
        }
    } else {
        let t = flow_table(rows, prefs.show_expired, sel);
        if t.len() == 0 { None } else { Some(t[clamped(selected, t.len())].key) }
    }
}

/// Rows the merged view can be built and sorted from: mergeable, and every
/// shown connection comparable on the sort column.
pub open spec fn conn_view_ready(rows: Seq<FlowRow>, show_expired: bool, column: SortColumn) -> bool {
    &&& mergeable(rows)
    &&& forall|j: int| 0 <= j < visible_conn_rows(merged_conns(rows), show_expired).len() ==> conn_sortable(
        #[trigger] visible_conn_rows(merged_conns(rows), show_expired)[j],
        column,
    )
}

fn visible_flows(rows: Vec<FlowRow>, show_expired: bool) -> (r: Vec<FlowRow>)
    ensures
        r@ == visible_flow_rows(rows@, show_expired),
{
    let mut out: Vec<FlowRow> = Vec::new();
    let mut rest = rows;
    let ghost all = rest@;
    let mut kept_rev: Vec<FlowRow> = Vec::new();
    let ghost n = all.len();
    // Walk from the back so each row can be moved out.
    while rest.len() > 0
        invariant
            all.len() == n,
            rest.len() <= n,
            rest@ == all.take(rest.len() as int),
            visible_flow_rows(all, show_expired) == visible_flow_rows(rest@, show_expired) + kept_rev@.reverse(),
        decreases rest.len(),
    {
        let ghost before = rest@;
        let row = rest.pop().unwrap();
        proof {
            assert(before.drop_last() =~= rest@);
            assert(before.last() == row);
            assert(all.take(rest.len() + 1).drop_last() =~= all.take(rest.len() as int));
        }
        if show_expired || !row.expired {
            let ghost kr = kept_rev@;
            kept_rev.push(row);
            proof {
                assert(kept_rev@.reverse() =~= seq![row] + kr.reverse());
                assert(visible_flow_rows(before, show_expired) == visible_flow_rows(rest@, show_expired).push(row));
                assert(visible_flow_rows(rest@, show_expired).push(row) + kr.reverse()
                    =~= visible_flow_rows(rest@, show_expired) + kept_rev@.reverse());
            }
        }
    }
    proof {
        assert(visible_flow_rows(rest@, show_expired) =~= Seq::<FlowRow>::empty());
        assert(visible_flow_rows(all, show_expired) =~= kept_rev@.reverse());
    }
    while kept_rev.len() > 0
        invariant
            visible_flow_rows(all, show_expired) == out@ + kept_rev@.reverse(),
        decreases kept_rev.len(),
    {
        let ghost kr = kept_rev@;
        let row = kept_rev.pop().unwrap();
        proof {
            assert(kr =~= kept_rev@.push(row));
            assert(kr.reverse() =~= seq![row] + kept_rev@.reverse());
        }
        out.push(row);
        proof {
            assert(out@ + kept_rev@.reverse() =~= out@.drop_last() + kr.reverse());
        }
    }
    proof {
        assert(out@ + kept_rev@.reverse() =~= out@);
    }
    out
}

fn visible_conns(cs: Vec<ConnRow>, show_expired: bool) -> (r: Vec<ConnRow>)
    ensures
        r@ == visible_conn_rows(cs@, show_expired),
{
    let mut out: Vec<ConnRow> = Vec::new();
    let mut rest = cs;
    let ghost all = rest@;
    let mut kept_rev: Vec<ConnRow> = Vec::new();
    let ghost n = all.len();
    while rest.len() > 0
        invariant
            all.len() == n,
            rest.len() <= n,
            rest@ == all.take(rest.len() as int),
            visible_conn_rows(all, show_expired) == visible_conn_rows(rest@, show_expired) + kept_rev@.reverse(),
        decreases rest.len(),
    {
        let ghost before = rest@;
        let c = rest.pop().unwrap();
        proof {
            assert(before.drop_last() =~= rest@);
            assert(before.last() == c);
            assert(all.take(rest.len() + 1).drop_last() =~= all.take(rest.len() as int));
        }
        if show_expired || !c.expired {
            let ghost kr = kept_rev@;
            kept_rev.push(c);
            proof {
                assert(kept_rev@.reverse() =~= seq![c] + kr.reverse());
                assert(visible_conn_rows(before, show_expired) == visible_conn_rows(rest@, show_expired).push(c));
                assert(visible_conn_rows(rest@, show_expired).push(c) + kr.reverse()
                    =~= visible_conn_rows(rest@, show_expired) + kept_rev@.reverse());
            }
        }
    }
    proof {
        assert(visible_conn_rows(rest@, show_expired) =~= Seq::<ConnRow>::empty());
        assert(visible_conn_rows(all, show_expired) =~= kept_rev@.reverse());
    }
    while kept_rev.len() > 0
        invariant
            visible_conn_rows(all, show_expired) == out@ + kept_rev@.reverse(),
        decreases kept_rev.len(),
    {
        let ghost kr = kept_rev@;
        let c = kept_rev.pop().unwrap();
        proof {
            assert(kr =~= kept_rev@.push(c));
            assert(kr.reverse() =~= seq![c] + kept_rev@.reverse());
        }
        out.push(c);
        proof {
            assert(out@ + kept_rev@.reverse() =~= out@.drop_last() + kr.reverse());
        }
    }
    proof {
        assert(out@ + kept_rev@.reverse() =~= out@);
    }
    out
}

/// Whether the merged view of `rows` can be built and sorted by `column`
/// (see `conn_view_ready`).
pub fn conn_view_is_ready(rows: &Vec<FlowRow>, show_expired: bool, column: SortColumn) -> (r: bool)
    ensures
        r == conn_view_ready(rows@, show_expired, column),
{
    match try_merge_flow_rows(rows) {
        None => false,
        Some(conns) => {
            let shown = visible_conns(conns, show_expired);
            let mut j: usize = 0;
            while j < shown.len()
                invariant
                    mergeable(rows@),
                    shown@ == visible_conn_rows(merged_conns(rows@), show_expired),
                    j <= shown.len(),
                    forall|t: int| 0 <= t < j ==> conn_sortable(#[trigger] shown@[t], column),
                decreases shown.len() - j,
            {
                if !conn_is_sortable(&shown[j], column) {
                    return false;
                }
                j = j + 1;
            }
            true
        },
    }
}

fn copy_current_rows(state: &DashboardState, live: &Vec<FlowRow>) -> (r: Vec<FlowRow>)
    ensures
        r@ == current_rows_of(*state, live@),
{
    match &state.frozen {
        Some(f) => copy_rows(f),
        None => copy_rows(live),
    }
}

/// Resolve the selected row to the flow the details overlay pins to, from
/// the very table the renderer draws (same rows, filter and sort).
pub fn selected_flow_key(state: &DashboardState, prefs: &UiPrefs, live: &Vec<FlowRow>) -> (r: Option<FlowKey>)
    requires
        prefs.aggregate ==> conn_view_ready(current_rows_of(*state, live@), prefs.show_expired, state.sort_column),
    ensures
        r == selected_key_in(
            current_rows_of(*state, live@),
            state.selected,
            *prefs,
            (state.sort_column, state.sort_direction),
        ),
{
    let rows = copy_current_rows(state, live);
    if prefs.aggregate {
        let shown = conn_table_rows(rows, prefs.show_expired, state.sort_column, state.sort_direction);
        let n = shown.len();
        if n == 0 {
            None
        } else {
            let idx = if state.selected < n { state.selected } else { n - 1 };
            let c = &shown[idx];
            match c.tx_key {
                Some(k) => Some(k),
                None => c.rx_key,
            }
        }
    } else {
        let shown = flow_table_rows(rows, prefs.show_expired, state.sort_column, state.sort_direction);
        let n = shown.len();
        if n == 0 {
            None
        } else {
            let idx = if state.selected < n { state.selected } else { n - 1 };
            Some(shown[idx].key)
        }
    }
}

fn sort_conn_table(cs: &mut Vec<ConnRow>, column: SortColumn, direction: SortDirection)
    requires
        forall|j: int| 0 <= j < old(cs)@.len() ==> conn_sortable(#[trigger] old(cs)@[j], column),
    ensures
        final(cs)@ == stable_sorted(old(cs)@, (column, direction)),
{
    sort_conns(cs.as_mut_slice(), column, direction);
}

fn sort_flow_table(rows: &mut Vec<FlowRow>, column: SortColumn, direction: SortDirection)
    ensures
        final(rows)@ == stable_sorted(old(rows)@, (column, direction)),
{
    sort_entries(rows.as_mut_slice(), column, direction);
}

/// The connection table the dashboard draws in the merged view (see
/// `conn_table`).
pub fn conn_table_rows(rows: Vec<FlowRow>, show_expired: bool, column: SortColumn, direction: SortDirection)
    -> (r: Vec<ConnRow>)
    requires
        conn_view_ready(rows@, show_expired, column),
    ensures
        r@ == conn_table(rows@, show_expired, (column, direction)),
{
    let conns = merge_flow_rows(rows);
    let mut shown = visible_conns(conns, show_expired);
    sort_conn_table(&mut shown, column, direction);
    shown
}

/// The flow table the dashboard draws in the per-flow view (see
/// `flow_table`).
pub fn flow_table_rows(rows: Vec<FlowRow>, show_expired: bool, column: SortColumn, direction: SortDirection)
    -> (r: Vec<FlowRow>)
    ensures
        r@ == flow_table(rows@, show_expired, (column, direction)),
{
    let mut shown = visible_flows(rows, show_expired);
    sort_flow_table(&mut shown, column, direction);
    shown
}

/// A key press needs the selected row resolved: Enter on the table (no
/// overlay, no help) with `q` and Ctrl-C handled before.
pub open spec fn opens_details(s: DashboardState, p: UiPrefs, k: KeyPress) -> bool {
    &&& !k.is_interrupt()
    &&& !k.is_char('q')
    &&& !s.show_details
    &&& k.key == Key::Enter
    &&& !p.show_help
}

/// What one key press does on the dashboard, given the live rows of the
/// moment: the next state, the next preferences, and the step asked of the
/// app. Going back to the picker also empties the filter, which the state
/// given here keeps (see `dashboard_key`).
pub open spec fn dashboard_step(s: DashboardState, p: UiPrefs, k: KeyPress, live: Vec<FlowRow>) -> (
    DashboardState,
    UiPrefs,
    DashboardAction,
) {
    if k.is_interrupt() {
        (s, p, DashboardAction::Stay)
    } else if k.is_char('q') {
        (s, p, DashboardAction::Quit)
    } else if s.show_details {
        // The overlay pins the screen: only closing it does anything.
        if k.key == Key::Esc || k.is_char('b') {
            (DashboardState { show_details: false, details_flow: None, ..s }, p, DashboardAction::Stay)
        } else {
            (s, p, DashboardAction::Stay)
        }
    } else {
        match k.key {
            Key::Char(' ') => if s.paused {
                (DashboardState { paused: false, frozen: None, ..s }, p, DashboardAction::Stay)
            } else {
                (DashboardState { paused: true, frozen: Some(live), ..s }, p, DashboardAction::Stay)
            },
            Key::Char('?') => (s, UiPrefs { show_help: !p.show_help, ..p }, DashboardAction::Stay),
            Key::Enter => if p.show_help {
                (s, p, DashboardAction::Stay)
            } else {
                match selected_key_in(current_rows_of(s, live@), s.selected, p, (s.sort_column, s.sort_direction)) {
                    Some(key) => (
                        DashboardState { details_flow: Some(key), show_details: true, ..s },
                        p,
                        DashboardAction::Stay,
                    ),
                    None => (s, p, DashboardAction::Stay),
                }
            },
            Key::Char('n') => (s, UiPrefs { names_mode: !p.names_mode, ..p }, DashboardAction::Stay),
            Key::Char('e') => (s, UiPrefs { show_expired: !p.show_expired, ..p }, DashboardAction::Stay),
            Key::Char('a') => (s, UiPrefs { aggregate: !p.aggregate, ..p }, DashboardAction::Stay),
            Key::Down | Key::Char('j') => (
                DashboardState { selected: if s.selected == usize::MAX { s.selected } else { (s.selected + 1) as usize }, ..s },
                p,
                DashboardAction::Stay,
            ),
            Key::Up | Key::Char('k') => (
                DashboardState { selected: if s.selected == 0 { 0 } else { (s.selected - 1) as usize }, ..s },
                p,
                DashboardAction::Stay,
            ),
            Key::Char('s') => (DashboardState { sort_column: s.sort_column.successor(), ..s }, p, DashboardAction::Stay),
            Key::Char('S') => (DashboardState { sort_direction: s.sort_direction.flipped(), ..s }, p, DashboardAction::Stay),
            Key::Char('p') => (s, p, DashboardAction::ShowProcesses),
            Key::Esc | Key::Char('b') => if p.show_help {
                (s, UiPrefs { show_help: false, ..p }, DashboardAction::Stay)
            } else {
                (
                    DashboardState {
                        selected_interface: None,
                        paused: false,
                        frozen: None,
                        ..s
                    },
                    p,
                    DashboardAction::BackToPicker,
                )
            },
            _ => (s, p, DashboardAction::Stay),
        }
    }
}

/// Handle one key press on the dashboard (see `dashboard_step`). `live` is
/// the dashboard's live rows of the moment: pause freezes them, and Enter
/// resolves the selection against them unless a snapshot is frozen.
pub fn dashboard_key(state: &mut DashboardState, prefs: &mut UiPrefs, k: KeyPress, live: Vec<FlowRow>) -> (a: DashboardAction)
    requires
        opens_details(*old(state), *old(prefs), k) && old(prefs).aggregate ==> conn_view_ready(
            current_rows_of(*old(state), live@),
            old(prefs).show_expired,
            old(state).sort_column,
        ),
    ensures
        a == dashboard_step(*old(state), *old(prefs), k, live).2,
        *final(prefs) == dashboard_step(*old(state), *old(prefs), k, live).1,
        a != DashboardAction::BackToPicker ==> *final(state) == dashboard_step(*old(state), *old(prefs), k, live).0,
        a == DashboardAction::BackToPicker ==> *final(state) == (DashboardState {
            filter: final(state).filter,
            ..dashboard_step(*old(state), *old(prefs), k, live).0
        }) && final(state).filter@ == Seq::<char>::empty(),
{
    if is_interrupt(&k) {
        return DashboardAction::Stay;
    }
    if k.key == Key::Char('q') {
        return DashboardAction::Quit;
    }
    if state.show_details {
        match k.key {
            Key::Esc | Key::Char('b') => {
                state.show_details = false;
                state.details_flow = None;
            },
            _ => {},
        }
        return DashboardAction::Stay;
    }
    match k.key {
        Key::Char(' ') => {
            if state.paused {
                state.paused = false;
                state.frozen = None;
            } else {
                state.paused = true;
                state.frozen = Some(live);
            }
            DashboardAction::Stay
        },
        Key::Char('?') => {
            prefs.show_help = !prefs.show_help;
            DashboardAction::Stay
        },
        Key::Enter => {
            if !prefs.show_help {
                match selected_flow_key(state, prefs, &live) {
                    Some(key) => {
                        state.details_flow = Some(key);
                        state.show_details = true;
                    },
                    None => {},
                }
            }
            DashboardAction::Stay
        },
        Key::Char('n') => {
            prefs.names_mode = !prefs.names_mode;
            DashboardAction::Stay
        },
        Key::Char('e') => {
            prefs.show_expired = !prefs.show_expired;
            DashboardAction::Stay
        },
        Key::Char('a') => {
            prefs.aggregate = !prefs.aggregate;
            DashboardAction::Stay
        },
        Key::Down | Key::Char('j') => {
            state.selected = state.selected.saturating_add(1);
            DashboardAction::Stay
        },
        Key::Up | Key::Char('k') => {
            state.selected = state.selected.saturating_sub(1);
            DashboardAction::Stay
        },
        Key::Char('s') => {
            state.sort_column = state.sort_column.next();
            DashboardAction::Stay
        },
        Key::Char('S') => {
            state.sort_direction = state.sort_direction.toggle();
            DashboardAction::Stay
        },
        Key::Char('p') => DashboardAction::ShowProcesses,
        Key::Esc | Key::Char('b') => {
            if prefs.show_help {
                prefs.show_help = false;
                return DashboardAction::Stay;
            }
            state.selected_interface = None;
            state.filter = String::new();
            state.paused = false;
            state.frozen = None;
            DashboardAction::BackToPicker
        },
        _ => DashboardAction::Stay,
    }
}

/// While the details overlay is open the dashboard is pinned: any key but
/// Esc, `b`, `q` and Ctrl-C leaves the state and the preferences as they
/// were.
pub proof fn lemma_dashboard_details_pinned(s: DashboardState, p: UiPrefs, k: KeyPress, live: Vec<FlowRow>)
    requires
        s.show_details,
        k.key != Key::Esc,
        !k.is_char('b'),
        !k.is_char('q'),
    ensures
        dashboard_step(s, p, k, live).0 == s,
        dashboard_step(s, p, k, live).1 == p,
        dashboard_step(s, p, k, live).2 == DashboardAction::Stay,
{
}

/// Pausing and then unpausing brings the dashboard back to the live view:
/// the first press freezes the live rows of the moment, the second drops
/// them, and nothing else changes.
pub proof fn lemma_dashboard_pause_round_trip(s: DashboardState, p: UiPrefs, k: KeyPress, live1: Vec<FlowRow>,
    live2: Vec<FlowRow>)
    requires
        k.key == Key::Char(' '),
        !s.show_details,
        !s.paused,
    ensures
        ({
            let first = dashboard_step(s, p, k, live1);
            let second = dashboard_step(first.0, first.1, k, live2);
            &&& first.0 == (DashboardState { paused: true, frozen: Some(live1), ..s })
            &&& second.0 == (DashboardState { paused: false, frozen: None, ..s })
            &&& second.1 == p
        }),
{
}

/// `?` twice leaves the preferences as they were, outside the overlay.
pub proof fn lemma_dashboard_help_round_trip(s: DashboardState, p: UiPrefs, k: KeyPress, live: Vec<FlowRow>)
    requires
        k.key == Key::Char('?'),
        !s.show_details,
    ensures
        ({
            let first = dashboard_step(s, p, k, live);
            &&& first.1 == (UiPrefs { show_help: !p.show_help, ..p })
            &&& dashboard_step(first.0, first.1, k, live).1 == p
        }),
{
}

} // verus!
