//! Connection view of the dashboard: the two opposing directed flows of a
//! connection folded into one row, local and remote, with the traffic split
//! into what the local end sent (tx) and received (rx).

use vstd::prelude::*;
use crate::common::{ConnKey, SortDirection, name_text, placed_in_order, conn_key, conn_key_of, conn_key_eq, orient, oriented};
use crate::compare::{ip_placed, process_placed, three_way, order_ip, order_rate, order_text, compare_u64, compare_ip, compare_rate,
    lemma_order_text_antisymmetric, lemma_order_text_transitive,
    compare_str};
use crate::dashboard::{FlowRow, SortColumn, copy_text, copy_host};
use crate::flow::{AppKind, Endpoint, FlowKey, Rate, endpoint_eq, rate_rank};
use crate::ratesum::{rate_sum, rate_add};
use crate::sorting::{SortedBy, lemma_stable_sorted_is_sorted, lemma_tie_broken_strict_weak, stable_sort, stable_sorted,
    tie_broken, total_preorder};

verus! {

/// One merged connection: the two opposing flows of a conversation rolled up
/// into a local/remote pair with a directional tx/rx split.
#[derive(Debug)]
pub struct ConnRow {
    pub proto: u8,
    /// This host's endpoint (or the canonical lower endpoint when neither
    /// side is known to be local).
    pub local: Endpoint,
    pub remote: Endpoint,
    /// Bytes and rate sent from `local` (the outbound half).
    pub tx_bytes: u64,
    pub tx_bps: Rate,
    /// Bytes and rate received at `local` (the inbound half).
    pub rx_bytes: u64,
    pub rx_bps: Rate,
    pub packets: u64,
    /// Earliest first-seen tick across the halves.
    pub first_seen: u64,
    /// Latest last-seen tick across the halves.
    pub last_seen: u64,
    /// True only when every half is expired.
    pub expired: bool,
    pub pid: Option<u32>,
    pub process_name: Option<String>,
    pub app_host: Option<(AppKind, String)>,
    pub last_summary: Option<String>,
    /// The directed flows behind the row (either may be missing for a
    /// connection seen in one direction only).
    pub tx_key: Option<FlowKey>,
    pub rx_key: Option<FlowKey>,
}

impl ConnRow {
    /// Bytes in both directions.
    pub fn total_bytes(&self) -> (r: u64)
        requires
            self.tx_bytes + self.rx_bytes <= u64::MAX,
        ensures
            r == self.tx_bytes + self.rx_bytes,
    {
        self.tx_bytes + self.rx_bytes
    }

    /// Rate in both directions, summed in single precision.
    pub fn total_bps(&self) -> (r: Rate)
        ensures
            r == rate_sum(self.tx_bps, self.rx_bps),
    {
        rate_add(self.tx_bps, self.rx_bps)
    }
}

/// Position of the first occurrence of `k` in `ks`, or -1 when it is absent.
pub open spec fn first_pos(ks: Seq<ConnKey>, k: ConnKey) -> int
    decreases ks.len(),
{
    if ks.len() == 0 {
        -1
    } else {
        let p = first_pos(ks.drop_last(), k);
        if p >= 0 {
            p
        } else if ks.last() == k {
            ks.len() - 1
        } else {
            -1
        }
    }
}

pub proof fn lemma_first_pos(ks: Seq<ConnKey>, k: ConnKey)
    ensures
        -1 <= first_pos(ks, k) < ks.len(),
        first_pos(ks, k) == -1 <==> (forall|t: int| 0 <= t < ks.len() ==> ks[t] != k),
        first_pos(ks, k) >= 0 ==> ks[first_pos(ks, k)] == k,
        forall|t: int| 0 <= t < first_pos(ks, k) ==> ks[t] != k,
    decreases ks.len(),
{
    if ks.len() > 0 {
        let d = ks.drop_last();
        lemma_first_pos(d, k);
        assert forall|t: int| 0 <= t < d.len() implies d[t] == ks[t] by {}
    }
}

/// Index of the connection key `k` among `keys`.
pub fn find_conn(keys: &Vec<ConnKey>, k: &ConnKey) -> (r: Option<usize>)
    ensures
        match r {
            Some(i) => i == first_pos(keys@, *k),
            None => first_pos(keys@, *k) == -1,
        },
{
    proof {
        lemma_first_pos(keys@, *k);
    }
    let mut j: usize = 0;
    while j < keys.len()
        invariant
            j <= keys.len(),
            forall|t: int| 0 <= t < j ==> keys@[t] != *k,
            -1 <= first_pos(keys@, *k) < keys@.len(),
            first_pos(keys@, *k) == -1 <==> (forall|t: int| 0 <= t < keys@.len() ==> keys@[t] != *k),
            first_pos(keys@, *k) >= 0 ==> keys@[first_pos(keys@, *k)] == *k,
            forall|t: int| 0 <= t < first_pos(keys@, *k) ==> keys@[t] != *k,
        decreases keys.len() - j,
    {
        if conn_key_eq(&keys[j], k) {
            return Some(j);
        }
        j = j + 1;
    }
    None
}

/// Whether a flow is the half sent from the connection's local endpoint.
pub open spec fn is_tx_half(row: FlowRow) -> bool {
    row.key.src() == oriented(row.key, row.direction).local
}

/// The empty connection a flow opens: oriented endpoints, zero traffic,
/// the flow's moments, expired until a live half joins.
pub open spec fn opened_conn(row: FlowRow) -> ConnRow {
    let ep = oriented(row.key, row.direction);
    ConnRow {
        proto: row.key.proto,
        local: ep.local,
        remote: ep.remote,
        tx_bytes: 0,
        tx_bps: Rate { bits: 0 },
        rx_bytes: 0,
        rx_bps: Rate { bits: 0 },
        packets: 0,
        first_seen: row.first_seen,
        last_seen: row.last_seen,
        expired: true,
        pid: None,
        process_name: None,
        app_host: None,
        last_summary: None,
        tx_key: None,
        rx_key: None,
    }
}

/// A connection after one of its halves is folded in: counters add up on
/// the half's side, the first attributed half names the process, the first
/// host name found stays, the summary comes from the more recently active
/// half, the moments widen, and the connection stays expired only while
/// every half is.
pub open spec fn absorb(c: ConnRow, row: FlowRow) -> ConnRow {
    let tx = is_tx_half(row);
    let take_pid = c.pid is None;
    ConnRow {
        proto: c.proto,
        local: c.local,
        remote: c.remote,
        tx_bytes: if tx { (c.tx_bytes + row.stats.bytes) as u64 } else { c.tx_bytes },
        tx_bps: if tx { rate_sum(c.tx_bps, row.stats.bps) } else { c.tx_bps },
        rx_bytes: if tx { c.rx_bytes } else { (c.rx_bytes + row.stats.bytes) as u64 },
        rx_bps: if tx { c.rx_bps } else { rate_sum(c.rx_bps, row.stats.bps) },
        packets: (c.packets + row.stats.packets) as u64,
        first_seen: if row.first_seen < c.first_seen { row.first_seen } else { c.first_seen },
        last_seen: if row.last_seen > c.last_seen { row.last_seen } else { c.last_seen },
        expired: c.expired && row.expired,
        pid: if take_pid { row.pid } else { c.pid },
        process_name: if take_pid { row.process_name } else { c.process_name },
        app_host: if c.app_host is None { row.app_host } else { c.app_host },
        last_summary: if row.last_summary is Some && row.last_seen >= c.last_seen {
            row.last_summary
        } else {
            c.last_summary
        },
        tx_key: if tx { Some(row.key) } else { c.tx_key },
        rx_key: if tx { c.rx_key } else { Some(row.key) },
    }
}

/// Folding a half into a connection keeps every counter within `u64`.
pub open spec fn absorb_fits(c: ConnRow, row: FlowRow) -> bool {
    &&& c.packets + row.stats.packets <= u64::MAX
    &&& is_tx_half(row) ==> c.tx_bytes + row.stats.bytes <= u64::MAX
    &&& !is_tx_half(row) ==> c.rx_bytes + row.stats.bytes <= u64::MAX
}

/// The connection keys seen so far, in first-seen order, and the merged row
/// of each.
pub open spec fn merge_state(rows: Seq<FlowRow>) -> (Seq<ConnKey>, Seq<ConnRow>)
    decreases rows.len(),
{
    if rows.len() == 0 {
        (Seq::empty(), Seq::empty())
    } else {
        let prev = merge_state(rows.drop_last());
        let row = rows.last();
        let ck = conn_key_of(row.key);
        let p = first_pos(prev.0, ck);
        if p < 0 {
            (prev.0.push(ck), prev.1.push(absorb(opened_conn(row), row)))
        } else {
            (prev.0, prev.1.update(p, absorb(prev.1[p], row)))
        }
    }
}

/// One connection row per connection key, in the order each connection was
/// first seen.
pub open spec fn merged_conns(rows: Seq<FlowRow>) -> Seq<ConnRow> {
    merge_state(rows).1
}

/// Merging `rows` never overflows a counter.
pub open spec fn merge_fits(rows: Seq<FlowRow>) -> bool
    decreases rows.len(),
{
    if rows.len() == 0 {
        true
    } else {
        let prev = merge_state(rows.drop_last());
        let row = rows.last();
        let p = first_pos(prev.0, conn_key_of(row.key));
        &&& merge_fits(rows.drop_last())
        &&& absorb_fits(if p < 0 { opened_conn(row) } else { prev.1[p] }, row)
    }
}

proof fn lemma_merge_fits_prefix(rows: Seq<FlowRow>, k: int)
    requires
        merge_fits(rows),
        0 <= k <= rows.len(),
    ensures
        merge_fits(rows.take(k)),
    decreases rows.len(),
{
    if k < rows.len() {
        assert(rows.drop_last().take(k) =~= rows.take(k));
        lemma_merge_fits_prefix(rows.drop_last(), k);
    } else {
        assert(rows.take(k) =~= rows);
    }
}

proof fn lemma_merge_state_shape(rows: Seq<FlowRow>)
    ensures
        merge_state(rows).0.len() == merge_state(rows).1.len(),
    decreases rows.len(),
{
    if rows.len() > 0 {
        lemma_merge_state_shape(rows.drop_last());
        lemma_first_pos(merge_state(rows.drop_last()).0, conn_key_of(rows.last().key));
    }
}

/// Bytes of the flows in `rows`.
pub open spec fn rows_bytes(rows: Seq<FlowRow>) -> int
    decreases rows.len(),
{
    if rows.len() == 0 { 0 } else { rows_bytes(rows.drop_last()) + rows.last().stats.bytes }
}

/// Packets of the flows in `rows`.
pub open spec fn rows_packets(rows: Seq<FlowRow>) -> int
    decreases rows.len(),
{
    if rows.len() == 0 { 0 } else { rows_packets(rows.drop_last()) + rows.last().stats.packets }
}

/// Bytes of the connections in `cs`, both directions.
pub open spec fn conns_bytes(cs: Seq<ConnRow>) -> int
    decreases cs.len(),
{
    if cs.len() == 0 { 0 } else { conns_bytes(cs.drop_last()) + cs.last().tx_bytes + cs.last().rx_bytes }
}

/// Packets of the connections in `cs`.
pub open spec fn conns_packets(cs: Seq<ConnRow>) -> int
    decreases cs.len(),
{
    if cs.len() == 0 { 0 } else { conns_packets(cs.drop_last()) + cs.last().packets }
}

proof fn lemma_conns_sums_update(cs: Seq<ConnRow>, p: int, v: ConnRow)
    requires
        0 <= p < cs.len(),
    ensures
        conns_bytes(cs.update(p, v)) == conns_bytes(cs) - cs[p].tx_bytes - cs[p].rx_bytes + v.tx_bytes
            + v.rx_bytes,
        conns_packets(cs.update(p, v)) == conns_packets(cs) - cs[p].packets + v.packets,
    decreases cs.len(),
{
    let u = cs.update(p, v);
    if p == cs.len() - 1 {
        assert(u.drop_last() =~= cs.drop_last());
    } else {
        assert(u.drop_last() =~= cs.drop_last().update(p, v));
        lemma_conns_sums_update(cs.drop_last(), p, v);
    }
}

/// Merging conserves traffic: the connections carry, in both directions
/// together, exactly the bytes and packets of the flows they were built from.
pub proof fn lemma_merge_conserves_traffic(rows: Seq<FlowRow>)
    requires
        merge_fits(rows),
    ensures
        conns_bytes(merged_conns(rows)) == rows_bytes(rows),
        conns_packets(merged_conns(rows)) == rows_packets(rows),
    decreases rows.len(),
{
    if rows.len() > 0 {
        let d = rows.drop_last();
        lemma_merge_conserves_traffic(d);
        lemma_merge_state_shape(d);
        let prev = merge_state(d);
        let row = rows.last();
        let ck = conn_key_of(row.key);
        lemma_first_pos(prev.0, ck);
        let p = first_pos(prev.0, ck);
        if p < 0 {
            let c = absorb(opened_conn(row), row);
            assert(prev.1.push(c).drop_last() =~= prev.1);
        } else {
            lemma_conns_sums_update(prev.1, p, absorb(prev.1[p], row));
        }
    }
}

/// The connection keys a merge has seen: each flow's key among them, none
/// twice.
proof fn lemma_merge_keys(rows: Seq<FlowRow>)
    ensures
        forall|a: int, b: int|
            0 <= a < b < merge_state(rows).0.len() ==> merge_state(rows).0[a] != merge_state(rows).0[b],
        forall|i: int|
            0 <= i < rows.len() ==> merge_state(rows).0.contains(conn_key_of(#[trigger] rows[i].key)),
    decreases rows.len(),
{
    if rows.len() > 0 {
        let d = rows.drop_last();
        lemma_merge_keys(d);
        let prev = merge_state(d);
        let ck = conn_key_of(rows.last().key);
        lemma_first_pos(prev.0, ck);
        let ks = merge_state(rows).0;
        assert forall|i: int| 0 <= i < rows.len() implies ks.contains(conn_key_of(#[trigger] rows[i].key)) by {
            if i < rows.len() - 1 {
                assert(d[i] == rows[i]);
                let t = choose|t: int| 0 <= t < prev.0.len() && prev.0[t] == conn_key_of(d[i].key);
                assert(ks[t] == prev.0[t]);
            } else if first_pos(prev.0, ck) >= 0 {
                assert(ks[first_pos(prev.0, ck)] == ck);
            } else {
                assert(ks[prev.0.len() as int] == ck);
            }
        }
    }
}

/// A connection is expired exactly when every flow of it is: the merged
/// row of each connection key is expired if and only if all the flows with
/// that key are.
pub proof fn lemma_merge_expired_iff_all_halves(rows: Seq<FlowRow>)
    ensures
        merge_state(rows).0.len() == merge_state(rows).1.len(),
        forall|j: int|
            0 <= j < merge_state(rows).1.len() ==> ((#[trigger] merge_state(rows).1[j]).expired <==> (
            forall|i: int|
                0 <= i < rows.len() && conn_key_of(rows[i].key) == merge_state(rows).0[j]
                    ==> rows[i].expired)),
    decreases rows.len(),
{
    lemma_merge_state_shape(rows);
    if rows.len() > 0 {
        let d = rows.drop_last();
        lemma_merge_expired_iff_all_halves(d);
        lemma_merge_keys(d);
        lemma_merge_state_shape(d);
        let prev = merge_state(d);
        let row = rows.last();
        let ck = conn_key_of(row.key);
        lemma_first_pos(prev.0, ck);
        let p = first_pos(prev.0, ck);
        let st = merge_state(rows);
        assert forall|j: int| 0 <= j < st.1.len() implies ((#[trigger] st.1[j]).expired <==> (
            forall|i: int| 0 <= i < rows.len() && conn_key_of(rows[i].key) == st.0[j] ==> rows[i].expired))
        by {
            if j < prev.1.len() && j != p {
                assert(st.1[j] == prev.1[j]);
                assert(st.0[j] == prev.0[j]);
                assert(prev.0[j] != ck) by {
                    if p >= 0 && prev.0[j] == ck {
                        assert(j > p);
                    }
                }
                if st.1[j].expired {
                    assert forall|i: int| 0 <= i < rows.len() && conn_key_of(rows[i].key) == st.0[j]
                        implies rows[i].expired by {
                        if i < rows.len() - 1 {
                            assert(d[i] == rows[i]);
                        }
                    }
                } else {
                    let w = choose|i: int| 0 <= i < d.len() && conn_key_of(d[i].key) == prev.0[j] && !d[i].expired;
                    assert(rows[w] == d[w]);
                }
            } else {
                assert(st.0[j] == ck);
                if p < 0 {
                    assert forall|i: int| 0 <= i < rows.len() - 1 implies conn_key_of(rows[i].key) != ck by {
                        assert(d[i] == rows[i]);
                        assert(prev.0.contains(conn_key_of(d[i].key)));
                    }
                    assert(rows[rows.len() - 1] == row);
                } else {
                    if st.1[j].expired {
                        assert forall|i: int| 0 <= i < rows.len() && conn_key_of(rows[i].key) == st.0[j]
                            implies rows[i].expired by {
                            if i < rows.len() - 1 {
                                assert(d[i] == rows[i]);
                            }
                        }
                    } else if !row.expired {
                        assert(rows[rows.len() - 1] == row);
                    } else {
                        let w = choose|i: int| 0 <= i < d.len() && conn_key_of(d[i].key) == prev.0[j] && !d[i].expired;
                        assert(rows[w] == d[w]);
                    }
                }
            }
        }
    }
}

fn open_conn(row: &FlowRow) -> (r: ConnRow)
    ensures
        r == opened_conn(*row),
{
    let ep = orient(&row.key, row.direction);
    ConnRow {
        proto: row.key.proto,
        local: ep.local,
        remote: ep.remote,
        tx_bytes: 0,
        tx_bps: Rate { bits: 0 },
        rx_bytes: 0,
        rx_bps: Rate { bits: 0 },
        packets: 0,
        first_seen: row.first_seen,
        last_seen: row.last_seen,
        expired: true,
        pid: None,
        process_name: None,
        app_host: None,
        last_summary: None,
        tx_key: None,
        rx_key: None,
    }
}

fn absorb_row(c: &ConnRow, row: &FlowRow) -> (r: ConnRow)
    requires
        absorb_fits(*c, *row),
    ensures
        r == absorb(*c, *row),
{
    let ep = orient(&row.key, row.direction);
    let src: Endpoint = (row.key.src_ip, row.key.src_port);
    let tx = endpoint_eq(&src, &ep.local);
    let take_pid = c.pid.is_none();
    let summary_newer = row.last_summary.is_some() && row.last_seen >= c.last_seen;
    ConnRow {
        proto: c.proto,
        local: c.local,
        remote: c.remote,
        tx_bytes: if tx { c.tx_bytes + row.stats.bytes } else { c.tx_bytes },
        tx_bps: if tx { rate_add(c.tx_bps, row.stats.bps) } else { c.tx_bps },
        rx_bytes: if tx { c.rx_bytes } else { c.rx_bytes + row.stats.bytes },
        rx_bps: if tx { c.rx_bps } else { rate_add(c.rx_bps, row.stats.bps) },
        packets: c.packets + row.stats.packets,
        first_seen: if row.first_seen < c.first_seen { row.first_seen } else { c.first_seen },
        last_seen: if row.last_seen > c.last_seen { row.last_seen } else { c.last_seen },
        expired: c.expired && row.expired,
        pid: if take_pid { row.pid } else { c.pid },
        process_name: if take_pid { copy_text(&row.process_name) } else { copy_text(&c.process_name) },
        app_host: if c.app_host.is_none() { copy_host(&row.app_host) } else { copy_host(&c.app_host) },
        last_summary: if summary_newer { copy_text(&row.last_summary) } else { copy_text(&c.last_summary) },
        tx_key: if tx { Some(row.key) } else { c.tx_key },
        rx_key: if tx { c.rx_key } else { Some(row.key) },
    }
}

/// Rows a merge accepts: merging them keeps every counter within `u64`.
pub open spec fn mergeable(rows: Seq<FlowRow>) -> bool {
    merge_fits(rows)
}

fn absorb_fits_exec(c: &ConnRow, row: &FlowRow) -> (r: bool)
    ensures
        r == absorb_fits(*c, *row),
{
    let ep = orient(&row.key, row.direction);
    let src: Endpoint = (row.key.src_ip, row.key.src_port);
    let tx = endpoint_eq(&src, &ep.local);
    let packets_fit = c.packets <= u64::MAX - row.stats.packets;
    let bytes_fit = if tx {
        c.tx_bytes <= u64::MAX - row.stats.bytes
    } else {
        c.rx_bytes <= u64::MAX - row.stats.bytes
    };
    packets_fit && bytes_fit
}

/// The connection rows of `rows` (see `merged_conns`), or `None` when the
/// rows are not mergeable.
pub fn try_merge_flow_rows(rows: &Vec<FlowRow>) -> (r: Option<Vec<ConnRow>>)
    ensures
        r is Some <==> mergeable(rows@),
        r is Some ==> r->0@ == merged_conns(rows@),
{
    let mut out: Vec<ConnRow> = Vec::new();
    let mut keys: Vec<ConnKey> = Vec::new();
    let n = rows.len();
    let mut i: usize = 0;
    proof {
        assert(rows@.take(0) =~= Seq::<FlowRow>::empty());
    }
    while i < n
        invariant
            n == rows.len(),
            i <= n,
            mergeable(rows@.take(i as int)),
            keys@ == merge_state(rows@.take(i as int)).0,
            out@ == merge_state(rows@.take(i as int)).1,
            keys.len() == out.len(),
        decreases n - i,
    {
        let row = &rows[i];
        let ghost pre = rows@.take(i as int);
        let ghost next = rows@.take(i + 1);
        proof {
            assert(next.drop_last() =~= pre);
            assert(next.last() == rows@[i as int]);
            lemma_first_pos(keys@, conn_key_of(row.key));
            assert forall|t: int| 0 <= t < pre.len() implies pre[t] == next[t] by {}
        }
        let ck = conn_key(&row.key);
        let found = find_conn(&keys, &ck);
        let fits = match found {
            Some(j) => absorb_fits_exec(&out[j], row),
            None => absorb_fits_exec(&open_conn(row), row),
        };
        if !fits {
            proof {
                if mergeable(rows@) {
                    lemma_merge_fits_prefix(rows@, i + 1);
                }
            }
            return None;
        }
        match found {
            Some(j) => {
                let c2 = absorb_row(&out[j], row);
                out.set(j, c2);
            },
            None => {
                let c0 = open_conn(row);
                let c1 = absorb_row(&c0, row);
                out.push(c1);
                keys.push(ck);
            },
        }
        proof {
            assert(merge_fits(next));
        }
        i = i + 1;
    }
    proof {
        assert(rows@.take(n as int) =~= rows@);
    }
    Some(out)
}

/// Fold the per-flow rows into one row per connection, in the order each
/// connection was first seen.
pub fn merge_flow_rows(rows: Vec<FlowRow>) -> (r: Vec<ConnRow>)
    requires
        mergeable(rows@),
    ensures
        r@ == merged_conns(rows@),
{
    match try_merge_flow_rows(&rows) {
        Some(v) => v,
        None => Vec::new(),
    }
}

/// The process sort key of a connection: attributed rows `(0, name, pid)`,
/// unattributed `(1, "", u32::MAX)`.
pub open spec fn conn_process_key(row: ConnRow) -> (u8, Seq<char>, u32) {
    match row.pid {
        Some(p) => (0u8, match row.process_name { Some(n) => n@, None => Seq::empty() }, p),
        None => (1u8, Seq::empty(), u32::MAX),
    }
}

/// Process ordering for merged rows: attributed first by name then PID,
/// unattributed last.
pub fn conn_process_sort_key(row: &ConnRow) -> (r: (u8, &str, u32))
    ensures
        (r.0, r.1@, r.2) == conn_process_key(*row),
{
    proof {
        reveal_strlit("");
    }
    match row.pid {
        Some(p) => {
            let name: &str = match &row.process_name {
                Some(n) => n.as_str(),
                None => "",
            };
            (0, name, p)
        },
        None => (1, "", u32::MAX),
    }
}

pub open spec fn order_conn_process(a: ConnRow, b: ConnRow) -> int {
    let ka = conn_process_key(a);
    let kb = conn_process_key(b);
    if ka.0 != kb.0 {
        three_way(ka.0 as int, kb.0 as int)
    } else if order_text(ka.1, kb.1) != 0 {
        order_text(ka.1, kb.1)
    } else {
        three_way(ka.2 as int, kb.2 as int)
    }
}

fn compare_conn_process(a: &ConnRow, b: &ConnRow) -> (r: i8)
    ensures
        r == order_conn_process(*a, *b),
        -1 <= r <= 1,
{
    let ka = conn_process_sort_key(a);
    let kb = conn_process_sort_key(b);
    if ka.0 != kb.0 {
        compare_u64(ka.0 as u64, kb.0 as u64)
    } else {
        let t = compare_str(ka.1, kb.1);
        if t != 0 {
            t
        } else {
            compare_u64(ka.2 as u64, kb.2 as u64)
        }
    }
}

/// Comparison of two connections on the selected column: endpoints for the
/// address and port columns, totals for the traffic columns.
pub open spec fn conn_primary(a: ConnRow, b: ConnRow, column: SortColumn) -> int {
    match column {
        SortColumn::Fixed => 0,
        SortColumn::SrcIp => order_ip(a.local.0, b.local.0),
        SortColumn::SrcPort => three_way(a.local.1 as int, b.local.1 as int),
        SortColumn::DstIp => order_ip(a.remote.0, b.remote.0),
        SortColumn::DstPort => three_way(a.remote.1 as int, b.remote.1 as int),
        SortColumn::Proto => three_way(a.proto as int, b.proto as int),
        SortColumn::Process => order_conn_process(a, b),
        SortColumn::Bps => order_rate(rate_sum(a.tx_bps, a.rx_bps), rate_sum(b.tx_bps, b.rx_bps)),
        SortColumn::Bytes => three_way(a.tx_bytes + a.rx_bytes, b.tx_bytes + b.rx_bytes),
        SortColumn::Packets => three_way(a.packets as int, b.packets as int),
        SortColumn::FirstSeen => three_way(a.first_seen as int, b.first_seen as int),
        SortColumn::LastPacket => three_way(a.last_seen as int, b.last_seen as int),
    }
}

/// Connection order: the selected column (reversed for a descending sort,
/// except `Fixed`), ties broken by first-seen ascending.
pub open spec fn conn_before(a: ConnRow, b: ConnRow, sel: (SortColumn, SortDirection)) -> bool {
    let p = conn_primary(a, b, sel.0);
    let q = if sel.0 != SortColumn::Fixed && sel.1 == SortDirection::Desc { -p } else { p };
    q < 0 || (q == 0 && a.first_seen < b.first_seen)
}

/// A connection that can be compared on `column`: when sorting by bytes,
/// its total fits in `u64`.
pub open spec fn conn_sortable(a: ConnRow, column: SortColumn) -> bool {
    column == SortColumn::Bytes ==> a.tx_bytes + a.rx_bytes <= u64::MAX
}

/// Whether a connection can be compared on `column` (see `conn_sortable`).
pub fn conn_is_sortable(a: &ConnRow, column: SortColumn) -> (r: bool)
    ensures
        r == conn_sortable(*a, column),
{
    match column {
        SortColumn::Bytes => a.tx_bytes <= u64::MAX - a.rx_bytes,
        _ => true,
    }
}

fn conn_primary_exec(a: &ConnRow, b: &ConnRow, column: SortColumn) -> (r: i8)
    requires
        conn_sortable(*a, column),
        conn_sortable(*b, column),
    ensures
        r == conn_primary(*a, *b, column),
        -1 <= r <= 1,
{
    match column {
        SortColumn::Fixed => 0,
        SortColumn::SrcIp => compare_ip(&a.local.0, &b.local.0),
        SortColumn::SrcPort => compare_u64(a.local.1 as u64, b.local.1 as u64),
        SortColumn::DstIp => compare_ip(&a.remote.0, &b.remote.0),
        SortColumn::DstPort => compare_u64(a.remote.1 as u64, b.remote.1 as u64),
        SortColumn::Proto => compare_u64(a.proto as u64, b.proto as u64),
        SortColumn::Process => compare_conn_process(a, b),
        SortColumn::Bps => compare_rate(&a.total_bps(), &b.total_bps()),
        SortColumn::Bytes => compare_u64(a.total_bytes(), b.total_bytes()),
        SortColumn::Packets => compare_u64(a.packets, b.packets),
        SortColumn::FirstSeen => compare_u64(a.first_seen, b.first_seen),
        SortColumn::LastPacket => compare_u64(a.last_seen, b.last_seen),
    }
}

impl SortedBy<(SortColumn, SortDirection)> for ConnRow {
    open spec fn goes_before(a: Self, b: Self, c: (SortColumn, SortDirection)) -> bool {
        conn_before(a, b, c)
    }

    open spec fn admits(a: Self, c: (SortColumn, SortDirection)) -> bool {
        conn_sortable(a, c.0)
    }

    fn before(a: &Self, b: &Self, c: &(SortColumn, SortDirection)) -> (r: bool) {
        let p = conn_primary_exec(a, b, c.0);
        let q: i8 = if c.0 != SortColumn::Fixed && c.1 == SortDirection::Desc { -p } else { p };
        q < 0 || (q == 0 && a.first_seen < b.first_seen)
    }
}

/// Stable sort of merged connection rows by the dashboard's sort selection,
/// read on the merged values: local/remote for src/dst, totals for the
/// traffic columns, the widened moments for first/last seen.
pub fn sort_conns(conns: &mut [ConnRow], column: SortColumn, direction: SortDirection)
    requires
        forall|j: int| 0 <= j < old(conns)@.len() ==> conn_sortable(#[trigger] old(conns)@[j], column),
    ensures
        final(conns)@ == stable_sorted(old(conns)@, (column, direction)),
{
    stable_sort(conns, &(column, direction));
}

proof fn lemma_order_conn_process_triple(a: ConnRow, b: ConnRow, d: ConnRow)
    ensures
        order_conn_process(a, b) == -order_conn_process(b, a),
        order_conn_process(a, b) <= 0 && order_conn_process(b, d) <= 0 ==> order_conn_process(a, d) <= 0,
{
    let (ka, kb, kd) = (conn_process_key(a), conn_process_key(b), conn_process_key(d));
    lemma_order_text_antisymmetric(ka.1, kb.1);
    lemma_order_text_antisymmetric(kb.1, kd.1);
    lemma_order_text_antisymmetric(ka.1, kd.1);
    lemma_order_text_transitive(ka.1, kb.1, kd.1);
    lemma_order_text_transitive(kb.1, kd.1, ka.1);
    lemma_order_text_transitive(kd.1, ka.1, kb.1);
}

/// The selected column's comparison of two connections, reversed for a
/// descending sort (except `Fixed`).
pub open spec fn conn_signed(sel: (SortColumn, SortDirection)) -> spec_fn(ConnRow, ConnRow) -> int {
    |a: ConnRow, b: ConnRow|
        if sel.0 != SortColumn::Fixed && sel.1 == SortDirection::Desc {
            -conn_primary(a, b, sel.0)
        } else {
            conn_primary(a, b, sel.0)
        }
}

proof fn lemma_conn_signed_preorder(sel: (SortColumn, SortDirection))
    ensures
        total_preorder(conn_signed(sel)),
{
    let f = conn_signed(sel);
    assert forall|a: ConnRow, b: ConnRow| #[trigger] f(a, b) == -f(b, a) by {
        lemma_order_conn_process_triple(a, b, b);
    }
    assert forall|a: ConnRow, b: ConnRow, d: ConnRow| #![trigger f(a, b), f(b, d)]
        f(a, b) <= 0 && f(b, d) <= 0 implies f(a, d) <= 0 by {
        lemma_order_conn_process_triple(a, b, d);
        lemma_order_conn_process_triple(d, b, a);
    }
}

/// A sorted connection table is in order: no connection goes before one
/// placed earlier (by the selected column on the merged values, ties by
/// first-seen); under `Fixed` the connections run oldest first.
pub proof fn lemma_conn_table_sorted(conns: Seq<ConnRow>, sel: (SortColumn, SortDirection))
    ensures
        forall|i: int, j: int| 0 <= i < j < stable_sorted(conns, sel).len() ==> !conn_before(
            #[trigger] stable_sorted(conns, sel)[j],
            #[trigger] stable_sorted(conns, sel)[i],
            sel,
        ),
        sel.0 == SortColumn::Fixed ==> forall|i: int, j: int| 0 <= i < j < stable_sorted(conns, sel).len()
            ==> (#[trigger] stable_sorted(conns, sel)[i]).first_seen <= (#[trigger] stable_sorted(conns, sel)[j]).first_seen,
{
    let key = |c: ConnRow| c.first_seen as int;
    lemma_conn_signed_preorder(sel);
    assert forall|a: ConnRow, b: ConnRow| #[trigger] ConnRow::goes_before(a, b, sel) == tie_broken(conn_signed(sel), key, a, b) by {}
    lemma_tie_broken_strict_weak::<ConnRow, (SortColumn, SortDirection)>(sel, conn_signed(sel), key);
    lemma_stable_sorted_is_sorted(conns, sel);
    let s = stable_sorted(conns, sel);
    assert forall|i: int, j: int| 0 <= i < j < s.len() implies !conn_before(#[trigger] s[j], #[trigger] s[i], sel) by {
        assert(!ConnRow::goes_before(s[j], s[i], sel));
    }
}

/// Two connections are placed in the order the selection asks for: the
/// selected field of the merged row (local endpoint for the source
/// columns, remote for the destination ones, totals for the traffic ones)
/// runs in the selected direction, equal ones oldest first; addresses IPv4
/// before IPv6 then by value; processes attributed first, by name then PID.
pub open spec fn conn_placed(a: ConnRow, b: ConnRow, sel: (SortColumn, SortDirection)) -> bool {
            let (fa, fb) = (a.first_seen as int, b.first_seen as int);
            &&& sel.0 == SortColumn::Fixed ==> fa <= fb
            &&& sel.0 == SortColumn::SrcIp ==> ip_placed(a.local.0, b.local.0, sel.1)
            &&& sel.0 == SortColumn::SrcPort ==> placed_in_order(a.local.1 as int, b.local.1 as int, fa, fb, sel.1)
            &&& sel.0 == SortColumn::DstIp ==> ip_placed(a.remote.0, b.remote.0, sel.1)
            &&& sel.0 == SortColumn::DstPort ==> placed_in_order(a.remote.1 as int, b.remote.1 as int, fa, fb, sel.1)
            &&& sel.0 == SortColumn::Proto ==> placed_in_order(a.proto as int, b.proto as int, fa, fb, sel.1)
            &&& sel.0 == SortColumn::Process ==> process_placed(a.pid, name_text(a.process_name), b.pid, name_text(b.process_name), sel.1)
            &&& sel.0 == SortColumn::Bps ==> placed_in_order(
                rate_rank(rate_sum(a.tx_bps, a.rx_bps)),
                rate_rank(rate_sum(b.tx_bps, b.rx_bps)),
                fa,
                fb,
                sel.1,
            )
            &&& sel.0 == SortColumn::Bytes ==> placed_in_order(a.tx_bytes + a.rx_bytes, b.tx_bytes + b.rx_bytes, fa, fb, sel.1)
            &&& sel.0 == SortColumn::Packets ==> placed_in_order(a.packets as int, b.packets as int, fa, fb, sel.1)
            &&& sel.0 == SortColumn::FirstSeen ==> placed_in_order(fa, fb, fa, fb, sel.1)
            &&& sel.0 == SortColumn::LastPacket ==> placed_in_order(a.last_seen as int, b.last_seen as int, fa, fb, sel.1)
        }

/// What a sorted connection table looks like column by column: every
/// connection and any one placed after it are in the selected order (see
/// `conn_placed`), so sorting by Process ascending puts every attributed
/// connection before every unattributed one.
pub proof fn lemma_conn_table_columns(conns: Seq<ConnRow>, sel: (SortColumn, SortDirection))
    ensures
        forall|i: int, j: int| 0 <= i < j < stable_sorted(conns, sel).len() ==> conn_placed(
            #[trigger] stable_sorted(conns, sel)[i],
            #[trigger] stable_sorted(conns, sel)[j],
            sel,
        ),
{
    lemma_conn_table_sorted(conns, sel);
    let s = stable_sorted(conns, sel);
    assert forall|i: int, j: int| 0 <= i < j < s.len() implies conn_placed(#[trigger] s[i], #[trigger] s[j], sel) by {
        let a = s[i];
        let b = s[j];
        assert(!conn_before(b, a, sel));
        lemma_order_text_antisymmetric(conn_process_key(a).1, conn_process_key(b).1);
    }
}

/// Flow `t` of `rows` belongs to connection `k`.
pub open spec fn in_conn(rows: Seq<FlowRow>, t: int, k: ConnKey) -> bool {
    0 <= t < rows.len() && conn_key_of(rows[t].key) == k
}

/// Bytes of the flows of connection `k` sent from its local end (`tx`) or
/// received at it (`!tx`); with `packets`, the packets of every flow of it.
pub open spec fn half_total(rows: Seq<FlowRow>, k: ConnKey, tx: bool, packets: bool) -> int
    decreases rows.len(),
{
    if rows.len() == 0 {
        0
    } else {
        let r = rows.last();
        half_total(rows.drop_last(), k, tx, packets) + if conn_key_of(r.key) != k {
            0
        } else if packets {
            r.stats.packets as int
        } else if is_tx_half(r) == tx {
            r.stats.bytes as int
        } else {
            0
        }
    }
}

/// What a merged row says of its connection `k` among `rows`: it was first
/// seen at the earliest first moment of its flows and last seen at the
/// latest last moment; its process is that of the first attributed flow
/// (none when no flow is attributed); its sent and received flows are the
/// last flows of it sent from and received at the local end (none when
/// there is no such flow).
pub open spec fn conn_summary(rows: Seq<FlowRow>, k: ConnKey, c: ConnRow) -> bool {
    &&& exists|w: int| #[trigger] in_conn(rows, w, k) && c.first_seen == rows[w].first_seen
    &&& forall|t: int| #[trigger] in_conn(rows, t, k) ==> c.first_seen <= rows[t].first_seen
    &&& exists|w: int| #[trigger] in_conn(rows, w, k) && c.last_seen == rows[w].last_seen
    &&& forall|t: int| #[trigger] in_conn(rows, t, k) ==> rows[t].last_seen <= c.last_seen
    &&& c.pid is None ==> forall|t: int| #[trigger] in_conn(rows, t, k) ==> rows[t].pid is None
    &&& c.pid is Some ==> exists|w: int|
        #[trigger] in_conn(rows, w, k) && rows[w].pid == c.pid && rows[w].process_name == c.process_name && forall|t: int|
            #[trigger] in_conn(rows, t, k) && t < w ==> rows[t].pid is None
    &&& match c.tx_key {
        Some(f) => exists|w: int|
            #[trigger] in_conn(rows, w, k) && rows[w].key == f && is_tx_half(rows[w]) && forall|t: int|
                #[trigger] in_conn(rows, t, k) && t > w ==> !is_tx_half(rows[t]),
        None => forall|t: int| #[trigger] in_conn(rows, t, k) ==> !is_tx_half(rows[t]),
    }
    &&& match c.rx_key {
        Some(f) => exists|w: int|
            #[trigger] in_conn(rows, w, k) && rows[w].key == f && !is_tx_half(rows[w]) && forall|t: int|
                #[trigger] in_conn(rows, t, k) && t > w ==> is_tx_half(rows[t]),
        None => forall|t: int| #[trigger] in_conn(rows, t, k) ==> is_tx_half(rows[t]),
    }
}

proof fn lemma_in_conn_step(rows: Seq<FlowRow>)
    requires
        rows.len() > 0,
    ensures
        forall|t: int, k: ConnKey| #[trigger] in_conn(rows, t, k) <==> (in_conn(rows.drop_last(), t, k) || (t
            == rows.len() - 1 && conn_key_of(rows.last().key) == k)),
        forall|t: int| 0 <= t < rows.len() - 1 ==> #[trigger] rows[t] == rows.drop_last()[t],
{
}

proof fn lemma_summary_other(rows: Seq<FlowRow>, k: ConnKey, c: ConnRow)
    requires
        rows.len() > 0,
        conn_key_of(rows.last().key) != k,
        conn_summary(rows.drop_last(), k, c),
    ensures
        conn_summary(rows, k, c),
{
    let d = rows.drop_last();
    lemma_in_conn_step(rows);
    assert forall|t: int| #[trigger] in_conn(rows, t, k) implies in_conn(d, t, k) && rows[t] == d[t] by {}
    let w1 = choose|w: int| #[trigger] in_conn(d, w, k) && c.first_seen == d[w].first_seen;
    assert(in_conn(rows, w1, k));
    let w2 = choose|w: int| #[trigger] in_conn(d, w, k) && c.last_seen == d[w].last_seen;
    assert(in_conn(rows, w2, k));
    if c.pid is Some {
        let w = choose|w: int|
            #[trigger] in_conn(d, w, k) && d[w].pid == c.pid && d[w].process_name == c.process_name && forall|t: int|
                #[trigger] in_conn(d, t, k) && t < w ==> d[t].pid is None;
        assert(in_conn(rows, w, k));
    }
    if let Some(f) = c.tx_key {
        let w = choose|w: int|
            #[trigger] in_conn(d, w, k) && d[w].key == f && is_tx_half(d[w]) && forall|t: int|
                #[trigger] in_conn(d, t, k) && t > w ==> !is_tx_half(d[t]);
        assert(in_conn(rows, w, k));
    }
    if let Some(f) = c.rx_key {
        let w = choose|w: int|
            #[trigger] in_conn(d, w, k) && d[w].key == f && !is_tx_half(d[w]) && forall|t: int|
                #[trigger] in_conn(d, t, k) && t > w ==> is_tx_half(d[t]);
        assert(in_conn(rows, w, k));
    }
}

proof fn lemma_summary_same(rows: Seq<FlowRow>, k: ConnKey, c: ConnRow)
    requires
        rows.len() > 0,
        conn_key_of(rows.last().key) == k,
        conn_summary(rows.drop_last(), k, c),
    ensures
        conn_summary(rows, k, absorb(c, rows.last())),
{
    let d = rows.drop_last();
    let row = rows.last();
    let n = rows.len() - 1;
    let a = absorb(c, row);
    lemma_in_conn_step(rows);
    assert(rows[n] == row);
    assert(in_conn(rows, n, k));
    assert forall|t: int| #[trigger] in_conn(d, t, k) implies in_conn(rows, t, k) && rows[t] == d[t] by {}
    let w1 = choose|w: int| #[trigger] in_conn(d, w, k) && c.first_seen == d[w].first_seen;
    assert(in_conn(rows, w1, k));
    let w2 = choose|w: int| #[trigger] in_conn(d, w, k) && c.last_seen == d[w].last_seen;
    assert(in_conn(rows, w2, k));
    if c.pid is Some {
        let w = choose|w: int|
            #[trigger] in_conn(d, w, k) && d[w].pid == c.pid && d[w].process_name == c.process_name && forall|t: int|
                #[trigger] in_conn(d, t, k) && t < w ==> d[t].pid is None;
        assert(in_conn(rows, w, k));
        assert forall|t: int| #[trigger] in_conn(rows, t, k) && t < w implies rows[t].pid is None by {
            assert(in_conn(d, t, k));
        }
    }
    if is_tx_half(row) {
        assert forall|t: int| #[trigger] in_conn(rows, t, k) && t > n implies !is_tx_half(rows[t]) by {}
        if let Some(f) = c.rx_key {
            let w = choose|w: int|
                #[trigger] in_conn(d, w, k) && d[w].key == f && !is_tx_half(d[w]) && forall|t: int|
                    #[trigger] in_conn(d, t, k) && t > w ==> is_tx_half(d[t]);
            assert(in_conn(rows, w, k));
            assert forall|t: int| #[trigger] in_conn(rows, t, k) && t > w implies is_tx_half(rows[t]) by {
                if t < n {
                    assert(in_conn(d, t, k));
                }
            }
        }
    } else {
        assert forall|t: int| #[trigger] in_conn(rows, t, k) && t > n implies is_tx_half(rows[t]) by {}
        if let Some(f) = c.tx_key {
            let w = choose|w: int|
                #[trigger] in_conn(d, w, k) && d[w].key == f && is_tx_half(d[w]) && forall|t: int|
                    #[trigger] in_conn(d, t, k) && t > w ==> !is_tx_half(d[t]);
            assert(in_conn(rows, w, k));
            assert forall|t: int| #[trigger] in_conn(rows, t, k) && t > w implies !is_tx_half(rows[t]) by {
                if t < n {
                    assert(in_conn(d, t, k));
                }
            }
        }
    }
}

proof fn lemma_summary_new(rows: Seq<FlowRow>, k: ConnKey)
    requires
        rows.len() > 0,
        conn_key_of(rows.last().key) == k,
        forall|t: int| 0 <= t < rows.len() - 1 ==> conn_key_of(#[trigger] rows[t].key) != k,
    ensures
        conn_summary(rows, k, absorb(opened_conn(rows.last()), rows.last())),
        forall|tx: bool, packets: bool| #[trigger] half_total(rows.drop_last(), k, tx, packets) == 0,
{
    let n = rows.len() - 1;
    let row = rows.last();
    lemma_in_conn_step(rows);
    assert(rows[n] == row);
    assert(in_conn(rows, n, k));
    assert forall|t: int| #[trigger] in_conn(rows, t, k) implies t == n by {}
    assert forall|tx: bool, packets: bool| #[trigger] half_total(rows.drop_last(), k, tx, packets) == 0 by {
        lemma_half_total_none(rows.drop_last(), k, tx, packets);
    }
}

proof fn lemma_half_total_none(rows: Seq<FlowRow>, k: ConnKey, tx: bool, packets: bool)
    requires
        forall|t: int| 0 <= t < rows.len() ==> conn_key_of(#[trigger] rows[t].key) != k,
    ensures
        half_total(rows, k, tx, packets) == 0,
    decreases rows.len(),
{
    if rows.len() > 0 {
        let d = rows.drop_last();
        assert forall|t: int| 0 <= t < d.len() implies conn_key_of(#[trigger] d[t].key) != k by {
            assert(d[t] == rows[t]);
        }
        lemma_half_total_none(d, k, tx, packets);
        assert(rows[rows.len() - 1] == rows.last());
    }
}

/// What each merged connection row says of its own flows: sent bytes are
/// the bytes of its flows sent from the local end, received bytes those of
/// its flows received there, packets those of all its flows; first and
/// last seen are the earliest and latest of its flows' moments; its process
/// is that of its first attributed flow; and its sent and received flows
/// are its last flows in each direction (see `conn_summary`).
pub proof fn lemma_merge_per_connection(rows: Seq<FlowRow>)
    ensures
        merge_state(rows).0.len() == merge_state(rows).1.len(),
        forall|j: int| 0 <= j < merge_state(rows).1.len() ==> conn_summary(
            rows,
            merge_state(rows).0[j],
            #[trigger] merge_state(rows).1[j],
        ),
        merge_fits(rows) ==> forall|j: int| 0 <= j < merge_state(rows).1.len() ==> {
            let c = #[trigger] merge_state(rows).1[j];
            let k = merge_state(rows).0[j];
            &&& c.tx_bytes == half_total(rows, k, true, false)
            &&& c.rx_bytes == half_total(rows, k, false, false)
            &&& c.packets == half_total(rows, k, true, true)
        },
    decreases rows.len(),
{
    lemma_merge_state_shape(rows);
    if rows.len() > 0 {
        let d = rows.drop_last();
        lemma_merge_per_connection(d);
        lemma_merge_keys(d);
        lemma_merge_state_shape(d);
        let prev = merge_state(d);
        let row = rows.last();
        let ck = conn_key_of(row.key);
        lemma_first_pos(prev.0, ck);
        let p = first_pos(prev.0, ck);
        let st = merge_state(rows);
        if p < 0 {
            assert forall|t: int| 0 <= t < rows.len() - 1 implies conn_key_of(#[trigger] rows[t].key) != ck by {
                assert(d[t] == rows[t]);
                assert(prev.0.contains(conn_key_of(d[t].key)));
            }
            lemma_summary_new(rows, ck);
        }
        assert forall|j: int| 0 <= j < st.1.len() implies conn_summary(rows, st.0[j], #[trigger] st.1[j]) by {
            if j < prev.1.len() && j != p {
                assert(st.1[j] == prev.1[j]);
                assert(st.0[j] == prev.0[j]);
                assert(prev.0[j] != ck) by {
                    if p >= 0 && prev.0[j] == ck {
                        assert(j > p);
                    }
                }
                lemma_summary_other(rows, st.0[j], prev.1[j]);
            } else if p >= 0 {
                assert(j == p);
                assert(st.0[j] == ck);
                lemma_summary_same(rows, ck, prev.1[p]);
            } else {
                assert(st.0[j] == ck);
            }
        }
        if merge_fits(rows) {
            assert forall|j: int| 0 <= j < st.1.len() implies {
                let c = #[trigger] st.1[j];
                let k = st.0[j];
                &&& c.tx_bytes == half_total(rows, k, true, false)
                &&& c.rx_bytes == half_total(rows, k, false, false)
                &&& c.packets == half_total(rows, k, true, true)
            } by {
                if j < prev.1.len() && j != p {
                    assert(st.1[j] == prev.1[j]);
                    assert(st.0[j] == prev.0[j]);
                    assert(prev.0[j] != ck) by {
                        if p >= 0 && prev.0[j] == ck {
                            assert(j > p);
                        }
                    }
                } else if p >= 0 {
                    assert(j == p);
                } else {
                    assert(half_total(d, ck, true, false) == 0);
                    assert(half_total(d, ck, false, false) == 0);
                    assert(half_total(d, ck, true, true) == 0);
                }
            }
        }
    }
}

} // verus!
