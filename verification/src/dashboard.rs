//! Dashboard screen: the flow table's rows, sort orders and key handling.

use vstd::prelude::*;
use vstd::string::*;
use crate::common::{SortDirection, name_text, placed_in_order};
use crate::compare::{ip_placed, process_placed, three_way, order_ip, order_rate, order_text, compare_u64, compare_ip, compare_rate,
    lemma_order_text_antisymmetric, lemma_order_text_transitive,
    compare_str};
use crate::flow::{AppKind, Direction, FlowKey, TrafficStats, rate_rank};
use crate::sorting::{SortedBy, lemma_stable_sorted_is_sorted, lemma_tie_broken_strict_weak, stable_sort, stable_sorted,
    tie_broken, total_preorder};
use crate::text::{dec, push_decimal, chars_of};

verus! {

/// Column the dashboard table is sorted by; `Fixed` keeps the order in which
/// flows first appeared.
#[derive(Debug, Clone, Copy, PartialEq, Eq, Structural)]
pub enum SortColumn {
    Fixed,
    SrcIp,
    SrcPort,
    DstIp,
    DstPort,
    Proto,
    Process,
    Bps,
    Bytes,
    Packets,
    FirstSeen,
    LastPacket,
}

impl SortColumn {
    pub open spec fn successor(self) -> SortColumn {
        match self {
            SortColumn::Fixed => SortColumn::SrcIp,
            SortColumn::SrcIp => SortColumn::SrcPort,
            SortColumn::SrcPort => SortColumn::DstIp,
            SortColumn::DstIp => SortColumn::DstPort,
            SortColumn::DstPort => SortColumn::Proto,
            SortColumn::Proto => SortColumn::Process,
            SortColumn::Process => SortColumn::Bps,
            SortColumn::Bps => SortColumn::Bytes,
            SortColumn::Bytes => SortColumn::Packets,
            SortColumn::Packets => SortColumn::FirstSeen,
            SortColumn::FirstSeen => SortColumn::LastPacket,
            SortColumn::LastPacket => SortColumn::Fixed,
        }
    }

    /// Advance to the next column in the cycle (wraps back to `Fixed`).
    pub fn next(self) -> (r: Self)
        ensures
            r == self.successor(),
    {
        match self {
            SortColumn::Fixed => SortColumn::SrcIp,
            SortColumn::SrcIp => SortColumn::SrcPort,
            SortColumn::SrcPort => SortColumn::DstIp,
            SortColumn::DstIp => SortColumn::DstPort,
            SortColumn::DstPort => SortColumn::Proto,
            SortColumn::Proto => SortColumn::Process,
            SortColumn::Process => SortColumn::Bps,
            SortColumn::Bps => SortColumn::Bytes,
            SortColumn::Bytes => SortColumn::Packets,
            SortColumn::Packets => SortColumn::FirstSeen,
            SortColumn::FirstSeen => SortColumn::LastPacket,
            SortColumn::LastPacket => SortColumn::Fixed,
        }
    }
}

impl Default for SortColumn {
    fn default() -> (r: SortColumn)
        ensures
            r == SortColumn::Fixed,
    {
        SortColumn::Fixed
    }
}

/// Column `k` steps after `c` in the cycle.
pub open spec fn column_after(c: SortColumn, k: nat) -> SortColumn
    decreases k,
{
    if k == 0 {
        c
    } else {
        column_after(c, (k - 1) as nat).successor()
    }
}

/// Pressing `s` twelve times walks every column once and comes back.
pub proof fn lemma_column_cycle(c: SortColumn)
    ensures
        column_after(c, 12) == c,
        forall|k: nat| 0 < k < 12 ==> column_after(c, k) != c,
{
    reveal_with_fuel(column_after, 13);
}

/// Owned, renderable shape of a flow row, for live ticks and the frozen
/// pause snapshot alike. Moments are ticks of the app's monotonic clock.
#[derive(Debug, Clone)]
pub struct FlowRow {
    pub key: FlowKey,
    pub stats: TrafficStats,
    pub direction: Direction,
    pub last_summary: Option<String>,
    pub app_host: Option<(AppKind, String)>,
    pub first_seen: u64,
    pub last_seen: u64,
    pub expired: bool,
    pub pid: Option<u32>,
    pub process_name: Option<String>,
}

/// A copy of an optional text.
pub fn copy_text(s: &Option<String>) -> (r: Option<String>)
    ensures
        r == *s,
{
    match s {
        Some(t) => Some(t.clone()),
        None => None,
    }
}

/// A copy of an optional host name.
pub fn copy_host(s: &Option<(AppKind, String)>) -> (r: Option<(AppKind, String)>)
    ensures
        r == *s,
{
    match s {
        Some((k, t)) => Some((*k, t.clone())),
        None => None,
    }
}

/// A copy of a flow row.
pub fn copy_row(r: &FlowRow) -> (c: FlowRow)
    ensures
        c == *r,
{
    FlowRow {
        key: r.key,
        stats: r.stats,
        direction: r.direction,
        last_summary: copy_text(&r.last_summary),
        app_host: copy_host(&r.app_host),
        first_seen: r.first_seen,
        last_seen: r.last_seen,
        expired: r.expired,
        pid: r.pid,
        process_name: copy_text(&r.process_name),
    }
}

/// A copy of a list of flow rows.
pub fn copy_rows(rows: &Vec<FlowRow>) -> (c: Vec<FlowRow>)
    ensures
        c@ == rows@,
{
    let mut out: Vec<FlowRow> = Vec::new();
    let mut i: usize = 0;
    while i < rows.len()
        invariant
            i <= rows.len(),
            out@ == rows@.take(i as int),
        decreases rows.len() - i,
    {
        proof {
            assert(rows@.take(i + 1) =~= rows@.take(i as int).push(rows@[i as int]));
        }
        out.push(copy_row(&rows[i]));
        i = i + 1;
    }
    proof {
        assert(rows@.take(rows.len() as int) =~= rows@);
    }
    out
}

/// A process name cut to fit its column: at most 14 characters, longer names
/// keep 13 and gain an ellipsis.
pub open spec fn clipped_name(name: Seq<char>) -> Seq<char> {
    if name.len() > 14 {
        name.take(13).push('\u{2026}')
    } else {
        name
    }
}

/// `name(pid)`, `pid:N` when the process has no name yet, `-` when the flow
/// is not attributed.
pub open spec fn process_text(pid: Option<u32>, name: Option<Seq<char>>) -> Seq<char> {
    match pid {
        None => seq!['-'],
        Some(p) => match name {
            Some(n) => clipped_name(n) + seq!['('] + dec(p as nat) + seq![')'],
            None => seq!['p', 'i', 'd', ':'] + dec(p as nat),
        },
    }
}

pub open spec fn opt_str_view(s: Option<&str>) -> Option<Seq<char>> {
    match s {
        Some(v) => Some(v@),
        None => None,
    }
}

/// Render a flow's owning process as `name(pid)`.
pub fn format_process(pid: Option<u32>, name: Option<&str>) -> (r: String)
    ensures
        r@ == process_text(pid, opt_str_view(name)),
{
    let mut out = String::new();
    match pid {
        None => {
            out.push('-');
        },
        Some(p) => match name {
            Some(n) => {
                let cs = chars_of(n);
                let keep: usize = if cs.len() > 14 { 13 } else { cs.len() };
                let mut i: usize = 0;
                while i < keep
                    invariant
                        cs@ == n@,
                        keep <= cs.len(),
                        keep == (if cs.len() > 14 { 13 } else { cs.len() }),
                        i <= keep,
                        out@ == cs@.take(i as int),
                    decreases keep - i,
                {
                    proof {
                        assert(cs@.take(i + 1) =~= cs@.take(i as int).push(cs@[i as int]));
                    }
                    out.push(cs[i]);
                    i = i + 1;
                }
                if cs.len() > 14 {
                    out.push('\u{2026}');
                }
                proof {
                    assert(cs@.take(cs.len() as int) =~= cs@);
                    assert(out@ =~= clipped_name(n@));
                }
                out.push('(');
                push_decimal(&mut out, p as u64);
                out.push(')');
            },
            None => {
                out.push('p');
                out.push('i');
                out.push('d');
                out.push(':');
                push_decimal(&mut out, p as u64);
            },
        },
    }
    proof {
        assert(out@ =~= process_text(pid, opt_str_view(name)));
    }
    out
}

pub open spec fn opt_string_view(s: Option<String>) -> Option<Seq<char>> {
    match s {
        Some(v) => Some(v@),
        None => None,
    }
}

/// Render a row's owning process (see `format_process`).
pub fn process_label(row: &FlowRow) -> (r: String)
    ensures
        r@ == process_text(row.pid, opt_string_view(row.process_name)),
{
    match &row.process_name {
        Some(n) => format_process(row.pid, Some(n.as_str())),
        None => format_process(row.pid, None),
    }
}

/// The process sort key of a row: attributed rows `(0, name, pid)` (an
/// unnamed process sorting as the empty name), unattributed `(1, "", u32::MAX)`.
pub open spec fn process_key(row: FlowRow) -> (u8, Seq<char>, u32) {
    match row.pid {
        Some(p) => (0u8, match row.process_name { Some(n) => n@, None => Seq::empty() }, p),
        None => (1u8, Seq::empty(), u32::MAX),
    }
}

/// Order processes by name then PID, unattributed flows last.
pub fn process_sort_key(row: &FlowRow) -> (r: (u8, &str, u32))
    ensures
        (r.0, r.1@, r.2) == process_key(*row),
{
    proof {
        reveal_strlit("");
    }
    match row.pid {
        Some(p) => {
            let name: &str = match &row.process_name {
                Some(n) => n.as_str(),
                None => "",
            };
            (0, name, p)
        },
        None => (1, "", u32::MAX),
    }
}

/// Comparison of process keys: bucket, then name, then PID.
pub open spec fn order_process(a: FlowRow, b: FlowRow) -> int {
    let ka = process_key(a);
    let kb = process_key(b);
    if ka.0 != kb.0 {
        three_way(ka.0 as int, kb.0 as int)
    } else if order_text(ka.1, kb.1) != 0 {
        order_text(ka.1, kb.1)
    } else {
        three_way(ka.2 as int, kb.2 as int)
    }
}

fn compare_process(a: &FlowRow, b: &FlowRow) -> (r: i8)
    ensures
        r == order_process(*a, *b),
        -1 <= r <= 1,
{
    let ka = process_sort_key(a);
    let kb = process_sort_key(b);
    if ka.0 != kb.0 {
        compare_u64(ka.0 as u64, kb.0 as u64)
    } else {
        let t = compare_str(ka.1, kb.1);
        if t != 0 {
            t
        } else {
            compare_u64(ka.2 as u64, kb.2 as u64)
        }
    }
}

/// Comparison of two rows on the selected column alone.
pub open spec fn flow_primary(a: FlowRow, b: FlowRow, column: SortColumn) -> int {
    match column {
        SortColumn::Fixed => 0,
        SortColumn::SrcIp => order_ip(a.key.src_ip, b.key.src_ip),
        SortColumn::SrcPort => three_way(a.key.src_port as int, b.key.src_port as int),
        SortColumn::DstIp => order_ip(a.key.dst_ip, b.key.dst_ip),
        SortColumn::DstPort => three_way(a.key.dst_port as int, b.key.dst_port as int),
        SortColumn::Proto => three_way(a.key.proto as int, b.key.proto as int),
        SortColumn::Process => order_process(a, b),
        SortColumn::Bps => order_rate(a.stats.bps, b.stats.bps),
        SortColumn::Bytes => three_way(a.stats.bytes as int, b.stats.bytes as int),
        SortColumn::Packets => three_way(a.stats.packets as int, b.stats.packets as int),
        SortColumn::FirstSeen => three_way(a.first_seen as int, b.first_seen as int),
        SortColumn::LastPacket => three_way(a.last_seen as int, b.last_seen as int),
    }
}

/// Row order: the selected column (reversed for a descending sort, except
/// `Fixed`, which has no direction), ties broken by first-seen ascending.
pub open spec fn flow_before(a: FlowRow, b: FlowRow, sel: (SortColumn, SortDirection)) -> bool {
    let p = flow_primary(a, b, sel.0);
    let q = if sel.0 != SortColumn::Fixed && sel.1 == SortDirection::Desc { -p } else { p };
    q < 0 || (q == 0 && a.first_seen < b.first_seen)
}

fn flow_primary_exec(a: &FlowRow, b: &FlowRow, column: SortColumn) -> (r: i8)
    ensures
        r == flow_primary(*a, *b, column),
        -1 <= r <= 1,
{
    match column {
        SortColumn::Fixed => 0,
        SortColumn::SrcIp => compare_ip(&a.key.src_ip, &b.key.src_ip),
        SortColumn::SrcPort => compare_u64(a.key.src_port as u64, b.key.src_port as u64),
        SortColumn::DstIp => compare_ip(&a.key.dst_ip, &b.key.dst_ip),
        SortColumn::DstPort => compare_u64(a.key.dst_port as u64, b.key.dst_port as u64),
        SortColumn::Proto => compare_u64(a.key.proto as u64, b.key.proto as u64),
        SortColumn::Process => compare_process(a, b),
        SortColumn::Bps => compare_rate(&a.stats.bps, &b.stats.bps),
        SortColumn::Bytes => compare_u64(a.stats.bytes, b.stats.bytes),
        SortColumn::Packets => compare_u64(a.stats.packets, b.stats.packets),
        SortColumn::FirstSeen => compare_u64(a.first_seen, b.first_seen),
        SortColumn::LastPacket => compare_u64(a.last_seen, b.last_seen),
    }
}

impl SortedBy<(SortColumn, SortDirection)> for FlowRow {
    open spec fn admits(a: Self, c: (SortColumn, SortDirection)) -> bool {
        true
    }

    open spec fn goes_before(a: Self, b: Self, c: (SortColumn, SortDirection)) -> bool {
        flow_before(a, b, c)
    }

    fn before(a: &Self, b: &Self, c: &(SortColumn, SortDirection)) -> (r: bool) {
        let p = flow_primary_exec(a, b, c.0);
        let q: i8 = if c.0 != SortColumn::Fixed && c.1 == SortDirection::Desc { -p } else { p };
        q < 0 || (q == 0 && a.first_seen < b.first_seen)
    }
}

/// Stable sort of flow rows by the chosen column and direction; `Fixed`
/// keeps first-seen order so rows stay where the user saw them.
pub fn sort_entries(entries: &mut [FlowRow], column: SortColumn, direction: SortDirection)
    ensures
        final(entries)@ == stable_sorted(old(entries)@, (column, direction)),
{
    stable_sort(entries, &(column, direction));
}

proof fn lemma_order_process_triple(a: FlowRow, b: FlowRow, d: FlowRow)
    ensures
        order_process(a, b) == -order_process(b, a),
        order_process(a, b) <= 0 && order_process(b, d) <= 0 ==> order_process(a, d) <= 0,
{
    let (ka, kb, kd) = (process_key(a), process_key(b), process_key(d));
    lemma_order_text_antisymmetric(ka.1, kb.1);
    lemma_order_text_antisymmetric(kb.1, kd.1);
    lemma_order_text_antisymmetric(ka.1, kd.1);
    lemma_order_text_transitive(ka.1, kb.1, kd.1);
    lemma_order_text_transitive(kb.1, kd.1, ka.1);
    lemma_order_text_transitive(kd.1, ka.1, kb.1);
}

/// The selected column's comparison of two rows, reversed for a descending
/// sort (except `Fixed`, which has no direction).
pub open spec fn flow_signed(sel: (SortColumn, SortDirection)) -> spec_fn(FlowRow, FlowRow) -> int {
    |a: FlowRow, b: FlowRow|
        if sel.0 != SortColumn::Fixed && sel.1 == SortDirection::Desc {
            -flow_primary(a, b, sel.0)
        } else {
            flow_primary(a, b, sel.0)
        }
}

proof fn lemma_flow_signed_preorder(sel: (SortColumn, SortDirection))
    ensures
        total_preorder(flow_signed(sel)),
{
    let f = flow_signed(sel);
    assert forall|a: FlowRow, b: FlowRow| #[trigger] f(a, b) == -f(b, a) by {
        lemma_order_process_triple(a, b, b);
    }
    assert forall|a: FlowRow, b: FlowRow, d: FlowRow| #![trigger f(a, b), f(b, d)]
        f(a, b) <= 0 && f(b, d) <= 0 implies f(a, d) <= 0 by {
        lemma_order_process_triple(a, b, d);
        lemma_order_process_triple(d, b, a);
    }
}

/// A sorted flow table is in order: no row goes before one placed earlier
/// (by the selected column and direction, ties by first-seen); under
/// `Fixed` the rows run oldest first.
pub proof fn lemma_flow_table_sorted(rows: Seq<FlowRow>, sel: (SortColumn, SortDirection))
    ensures
        forall|i: int, j: int| 0 <= i < j < stable_sorted(rows, sel).len() ==> !flow_before(
            #[trigger] stable_sorted(rows, sel)[j],
            #[trigger] stable_sorted(rows, sel)[i],
            sel,
        ),
        sel.0 == SortColumn::Fixed ==> forall|i: int, j: int| 0 <= i < j < stable_sorted(rows, sel).len()
            ==> (#[trigger] stable_sorted(rows, sel)[i]).first_seen <= (#[trigger] stable_sorted(rows, sel)[j]).first_seen,
{
    let key = |r: FlowRow| r.first_seen as int;
    lemma_flow_signed_preorder(sel);
    assert forall|a: FlowRow, b: FlowRow| #[trigger] FlowRow::goes_before(a, b, sel) == tie_broken(flow_signed(sel), key, a, b) by {}
    lemma_tie_broken_strict_weak::<FlowRow, (SortColumn, SortDirection)>(sel, flow_signed(sel), key);
    lemma_stable_sorted_is_sorted(rows, sel);
    let s = stable_sorted(rows, sel);
    assert forall|i: int, j: int| 0 <= i < j < s.len() implies !flow_before(#[trigger] s[j], #[trigger] s[i], sel) by {
        assert(!FlowRow::goes_before(s[j], s[i], sel));
    }
}

/// What a sorted flow table looks like column by column: for every row and
/// any row placed after it, the selected field runs in the selected
/// direction, and rows equal on it run oldest first (addresses IPv4 before
/// IPv6 then by value, rates by their numeric order, processes attributed
/// first by name then PID).
pub proof fn lemma_flow_table_columns(rows: Seq<FlowRow>, sel: (SortColumn, SortDirection))
    ensures
        forall|i: int, j: int| 0 <= i < j < stable_sorted(rows, sel).len() ==> {
            let a = #[trigger] stable_sorted(rows, sel)[i];
            let b = #[trigger] stable_sorted(rows, sel)[j];
            let (fa, fb) = (a.first_seen as int, b.first_seen as int);
            &&& sel.0 == SortColumn::Fixed ==> fa <= fb
            &&& sel.0 == SortColumn::SrcIp ==> ip_placed(a.key.src_ip, b.key.src_ip, sel.1)
            &&& sel.0 == SortColumn::SrcPort ==> placed_in_order(a.key.src_port as int, b.key.src_port as int, fa, fb, sel.1)
            &&& sel.0 == SortColumn::DstIp ==> ip_placed(a.key.dst_ip, b.key.dst_ip, sel.1)
            &&& sel.0 == SortColumn::DstPort ==> placed_in_order(a.key.dst_port as int, b.key.dst_port as int, fa, fb, sel.1)
            &&& sel.0 == SortColumn::Proto ==> placed_in_order(a.key.proto as int, b.key.proto as int, fa, fb, sel.1)
            &&& sel.0 == SortColumn::Process ==> process_placed(a.pid, name_text(a.process_name), b.pid, name_text(b.process_name), sel.1)
            &&& sel.0 == SortColumn::Bps ==> placed_in_order(rate_rank(a.stats.bps), rate_rank(b.stats.bps), fa, fb, sel.1)
            &&& sel.0 == SortColumn::Bytes ==> placed_in_order(a.stats.bytes as int, b.stats.bytes as int, fa, fb, sel.1)
            &&& sel.0 == SortColumn::Packets ==> placed_in_order(a.stats.packets as int, b.stats.packets as int, fa, fb, sel.1)
            &&& sel.0 == SortColumn::FirstSeen ==> placed_in_order(fa, fb, fa, fb, sel.1)
            &&& sel.0 == SortColumn::LastPacket ==> placed_in_order(a.last_seen as int, b.last_seen as int, fa, fb, sel.1)
        },
{
    lemma_flow_table_sorted(rows, sel);
    let s = stable_sorted(rows, sel);
    assert forall|i: int, j: int| 0 <= i < j < s.len() implies {
        let a = #[trigger] s[i];
        let b = #[trigger] s[j];
        let (fa, fb) = (a.first_seen as int, b.first_seen as int);
        &&& sel.0 == SortColumn::Fixed ==> fa <= fb
        &&& sel.0 == SortColumn::SrcIp ==> ip_placed(a.key.src_ip, b.key.src_ip, sel.1)
        &&& sel.0 == SortColumn::SrcPort ==> placed_in_order(a.key.src_port as int, b.key.src_port as int, fa, fb, sel.1)
        &&& sel.0 == SortColumn::DstIp ==> ip_placed(a.key.dst_ip, b.key.dst_ip, sel.1)
        &&& sel.0 == SortColumn::DstPort ==> placed_in_order(a.key.dst_port as int, b.key.dst_port as int, fa, fb, sel.1)
        &&& sel.0 == SortColumn::Proto ==> placed_in_order(a.key.proto as int, b.key.proto as int, fa, fb, sel.1)
        &&& sel.0 == SortColumn::Process ==> process_placed(a.pid, name_text(a.process_name), b.pid, name_text(b.process_name), sel.1)
        &&& sel.0 == SortColumn::Bps ==> placed_in_order(rate_rank(a.stats.bps), rate_rank(b.stats.bps), fa, fb, sel.1)
        &&& sel.0 == SortColumn::Bytes ==> placed_in_order(a.stats.bytes as int, b.stats.bytes as int, fa, fb, sel.1)
        &&& sel.0 == SortColumn::Packets ==> placed_in_order(a.stats.packets as int, b.stats.packets as int, fa, fb, sel.1)
        &&& sel.0 == SortColumn::FirstSeen ==> placed_in_order(fa, fb, fa, fb, sel.1)
        &&& sel.0 == SortColumn::LastPacket ==> placed_in_order(a.last_seen as int, b.last_seen as int, fa, fb, sel.1)
    } by {
        let a = s[i];
        let b = s[j];
        assert(!flow_before(b, a, sel));
        let ka = process_key(a);
        let kb = process_key(b);
        lemma_order_text_antisymmetric(ka.1, kb.1);
    }
}

} // verus!
