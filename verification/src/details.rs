//! The rows of the details overlay for one flow or one merged connection:
//! endpoints, flow facts, traffic history and the owning process, shared by
//! the dashboard and the processes tree.

use vstd::prelude::*;
use crate::common::{ConnKey, conn_key, conn_key_eq, conn_key_of, orient, oriented, proto_name, proto_text};
use crate::flow::{AppKind, Direction, Endpoint, FlowKey, Rate, TrafficStats, endpoint_eq};
use crate::ratesum::{rate_sum, rate_add};
use crate::format::{ago_text, clock_secs, instant_le, instant_not_after, bytes_text, clock_text, elapsed_text, format_bytes, format_clock, format_duration_since,
    group_thousands, humanize_duration, humanize_text, port_label, port_text, span_from, span_millis, span_secs,
    with_thousands};
use crate::text::{dec, push_decimal, push_str_text};
use crate::widgets::{DetailRow, string_views};
use crate::bps::{bps_text, format_bps};

verus! {

/// A flow's traffic over the last minute: one byte count per second in a
/// ring, `head` being the slot written next (so the oldest), plus the bytes
/// of the second in progress.
#[derive(Debug, Clone, Copy)]
pub struct Timeline {
    pub buckets: [u64; 60],
    pub head: u8,
    pub current_bucket_bytes: u64,
}

/// The timeline oldest first, without the oldest slot and with the second
/// in progress appended: sixty samples, the newest last.
pub open spec fn timeline_samples(tl: Timeline) -> Seq<u64> {
    Seq::new(59, |i: int| tl.buckets@[(tl.head as int + i + 1) % 60]).push(tl.current_bucket_bytes)
}

/// Rotate a flow's timeline into `buf`, newest sample on the right (see
/// `timeline_samples`).
pub fn fill_timeline_buf(buf: &mut Vec<u64>, tl: &Timeline)
    ensures
        final(buf)@ == timeline_samples(*tl),
{
    let mut out: Vec<u64> = Vec::new();
    let head = tl.head as usize;
    let mut i: usize = 1;
    while i < 60
        invariant
            1 <= i <= 60,
            head == tl.head,
            out@ == Seq::new((i - 1) as nat, |j: int| tl.buckets@[(tl.head as int + j + 1) % 60]),
        decreases 60 - i,
    {
        let idx = (head + i) % 60;
        out.push(tl.buckets[idx]);
        proof {
            assert(out@ =~= Seq::new(i as nat, |j: int| tl.buckets@[(tl.head as int + j + 1) % 60]));
        }
        i = i + 1;
    }
    out.push(tl.current_bucket_bytes);
    *buf = out;
}

/// Result of a reverse-DNS lookup of an address.
#[derive(Debug)]
pub enum RdnsStatus {
    Resolved(String),
    Pending,
    NxDomain,
    Failed,
    Private,
}

/// The host text of an address: `(disabled)` when lookups are off, the
/// name once resolved, else the lookup's state in brackets, `(pending)`
/// before any lookup started.
pub open spec fn host_text(dns_enabled: bool, status: Option<RdnsStatus>) -> Seq<char> {
    if !dns_enabled {
        "(disabled)"@
    } else {
        match status {
            Some(RdnsStatus::Resolved(h)) => h@,
            Some(RdnsStatus::Pending) => "(resolving\u{2026})"@,
            Some(RdnsStatus::NxDomain) => "(no PTR)"@,
            Some(RdnsStatus::Failed) => "(lookup failed)"@,
            Some(RdnsStatus::Private) => "(private network)"@,
            None => "(pending)"@,
        }
    }
}

pub open spec fn opt_status(s: Option<&RdnsStatus>) -> Option<RdnsStatus> {
    match s {
        Some(v) => Some(*v),
        None => None,
    }
}

/// Render an address's reverse-DNS state (see `host_text`).
pub fn hostname_label(dns_enabled: bool, status: Option<&RdnsStatus>) -> (r: String)
    ensures
        r@ == host_text(dns_enabled, opt_status(status)),
{
    if !dns_enabled {
        return "(disabled)".to_string();
    }
    match status {
        Some(RdnsStatus::Resolved(h)) => h.clone(),
        Some(RdnsStatus::Pending) => "(resolving\u{2026})".to_string(),
        Some(RdnsStatus::NxDomain) => "(no PTR)".to_string(),
        Some(RdnsStatus::Failed) => "(lookup failed)".to_string(),
        Some(RdnsStatus::Private) => "(private network)".to_string(),
        None => "(pending)".to_string(),
    }
}

/// What the overlay shows of a process.
#[derive(Debug)]
pub struct ProcessInfo {
    pub name: String,
    pub ppid: Option<u32>,
    pub user: Option<String>,
    pub alive: bool,
    /// Path of the executable, as displayed.
    pub exe: Option<String>,
    pub cmdline: Vec<String>,
}

/// A process's aggregate traffic as the overlay shows it: its rate and its
/// connection count.
#[derive(Debug)]
pub struct ProcessTotals {
    pub bps: Rate,
    pub conn_count: u64,
}

/// One side of a flow as the overlay shows it: the address text, whether
/// reverse lookups are on and the address's lookup state (its host row, see
/// `hostname_label`), and its kind.
#[derive(Debug)]
pub struct EndpointInfo {
    pub addr: String,
    pub dns_enabled: bool,
    pub rdns: Option<RdnsStatus>,
    pub kind: String,
}

/// A details row as text.
pub enum RowView {
    Single(Seq<char>, Seq<char>),
    Pair(Seq<char>, Seq<char>, Seq<char>, Seq<char>),
    Wrapped(Seq<char>, Seq<char>),
    Spark(Seq<char>, Seq<u64>),
    Section(Seq<char>),
    Blank,
}

pub open spec fn row_view(r: DetailRow) -> RowView {
    match r {
        DetailRow::Single { label, value } => RowView::Single(label@, value@),
        DetailRow::Pair { label_a, value_a, label_b, value_b } => RowView::Pair(label_a@, value_a@, label_b@, value_b@),
        DetailRow::Wrapped { label, value } => RowView::Wrapped(label@, value@),
        DetailRow::Sparkline { label, data } => RowView::Spark(label@, data@),
        DetailRow::SectionHeader { title } => RowView::Section(title@),
        DetailRow::Blank => RowView::Blank,
    }
}

pub open spec fn rows_view(rs: Seq<DetailRow>) -> Seq<RowView> {
    rs.map_values(|r: DetailRow| row_view(r))
}

fn push_row<'a>(rows: &mut Vec<DetailRow<'a>>, r: DetailRow<'a>)
    ensures
        rows_view(final(rows)@) == rows_view(old(rows)@).push(row_view(r)),
{
    let ghost before = rows@;
    rows.push(r);
    proof {
        assert(rows_view(rows@) =~= rows_view(before).push(row_view(r)));
    }
}

/// The text shown for a missing value.
pub open spec fn dash() -> Seq<char> {
    seq!['\u{2014}']
}

fn dash_string() -> (r: String)
    ensures
        r@ == dash(),
{
    let mut s = String::new();
    s.push('\u{2014}');
    s
}

/// The words of a command line joined by single spaces.
pub open spec fn joined(ws: Seq<Seq<char>>) -> Seq<char>
    decreases ws.len(),
{
    if ws.len() == 0 {
        Seq::empty()
    } else if ws.len() == 1 {
        ws[0]
    } else {
        joined(ws.drop_last()) + seq![' '] + ws.last()
    }
}

pub fn join_words(v: &Vec<String>) -> (r: String)
    ensures
        r@ == joined(string_views(v@)),
{
    let mut out = String::new();
    let mut i: usize = 0;
    while i < v.len()
        invariant
            i <= v.len(),
            out@ == joined(string_views(v@.take(i as int))),
        decreases v.len() - i,
    {
        proof {
            let w = string_views(v@.take(i + 1));
            assert(w.drop_last() =~= string_views(v@.take(i as int)));
            assert(w.last() == v@[i as int]@);
        }
        if i > 0 {
            out.push(' ');
        }
        push_str_text(&mut out, v[i].as_str());
        i = i + 1;
    }
    proof {
        assert(v@.take(v.len() as int) =~= v@);
    }
    out
}

/// The process rows: name and parent, pid and user, status and the
/// process's rate, its connection count, then the executable and the
/// command line on wrapping rows; a single notice when the flow is not
/// attributed to a known process.
pub open spec fn process_rows(pid: Option<u32>, info: Option<ProcessInfo>, totals: Option<ProcessTotals>) -> Seq<RowView> {
    match (pid, info) {
        (Some(p), Some(i)) => seq![
            RowView::Pair("name"@, i.name@, "parent"@, match i.ppid { Some(pp) => dec(pp as nat), None => dash() }),
            RowView::Pair("pid"@, dec(p as nat), "user"@, match i.user { Some(u) => u@, None => dash() }),
            RowView::Pair("status"@, if i.alive { "alive"@ } else { "exited"@ }, "proc bps"@, match totals {
                Some(t) => bps_text(t.bps),
                None => dash(),
            }),
            RowView::Single("total conns"@, match totals { Some(t) => dec(t.conn_count as nat), None => dash() }),
            RowView::Wrapped("exe"@, match i.exe { Some(e) => e@, None => dash() }),
            RowView::Wrapped("cmd"@, if i.cmdline.len() == 0 { dash() } else { joined(string_views(i.cmdline@)) }),
        ],
        _ => seq![RowView::Single("status"@, "Not attributed (process exited before snapshot, or socket missed)"@)],
    }
}

pub open spec fn opt_info(i: Option<&ProcessInfo>) -> Option<ProcessInfo> {
    match i {
        Some(v) => Some(*v),
        None => None,
    }
}

pub open spec fn opt_totals(t: Option<&ProcessTotals>) -> Option<ProcessTotals> {
    match t {
        Some(v) => Some(*v),
        None => None,
    }
}

fn u64_text(n: u64) -> (r: String)
    ensures
        r@ == dec(n as nat),
{
    let mut s = String::new();
    push_decimal(&mut s, n);
    s
}

/// Append the process rows (see `process_rows`) for the flow's process.
pub fn push_process_section<'a>(
    rows: &mut Vec<DetailRow<'a>>,
    pid: Option<u32>,
    info: Option<&ProcessInfo>,
    totals: Option<&ProcessTotals>,
)
    ensures
        rows_view(final(rows)@) == rows_view(old(rows)@) + process_rows(pid, opt_info(info), opt_totals(totals)),
{
    let ghost start = rows_view(rows@);
    match (pid, info) {
        (Some(p), Some(i)) => {
            let parent = match i.ppid {
                Some(pp) => u64_text(pp as u64),
                None => dash_string(),
            };
            push_row(rows, DetailRow::Pair { label_a: "name", value_a: i.name.clone(), label_b: "parent", value_b: parent });
            let user = match &i.user {
                Some(u) => u.clone(),
                None => dash_string(),
            };
            push_row(rows, DetailRow::Pair { label_a: "pid", value_a: u64_text(p as u64), label_b: "user", value_b: user });
            let status = if i.alive { "alive".to_string() } else { "exited".to_string() };
            let bps = match totals {
                Some(t) => format_bps(t.bps),
                None => dash_string(),
            };
            push_row(rows, DetailRow::Pair { label_a: "status", value_a: status, label_b: "proc bps", value_b: bps });
            let conns = match totals {
                Some(t) => u64_text(t.conn_count),
                None => dash_string(),
            };
            push_row(rows, DetailRow::Single { label: "total conns", value: conns });
            let exe = match &i.exe {
                Some(e) => e.clone(),
                None => dash_string(),
            };
            push_row(rows, DetailRow::Wrapped { label: "exe", value: exe });
            let cmd = if i.cmdline.len() == 0 { dash_string() } else { join_words(&i.cmdline) };
            push_row(rows, DetailRow::Wrapped { label: "cmd", value: cmd });
            proof {
                assert(rows_view(rows@) =~= start + process_rows(pid, opt_info(info), opt_totals(totals)));
            }
        },
        _ => {
            push_row(
                rows,
                DetailRow::Single {
                    label: "status",
                    value: "Not attributed (process exited before snapshot, or socket missed)".to_string(),
                },
            );
            proof {
                assert(rows_view(rows@) =~= start + process_rows(pid, opt_info(info), opt_totals(totals)));
            }
        },
    }
}

/// A moment as the overlay shows it when the clocks read `now_inst` and
/// `now_sys` for its wall-clock time and `now_ago` for how long ago it was.
pub open spec fn moment_shown(
    t: std::time::Instant,
    now_inst: std::time::Instant,
    now_sys: std::time::SystemTime,
    now_ago: std::time::Instant,
) -> Seq<char> {
    clock_text(clock_secs(now_inst, now_sys, t)) + seq![' ', ' ', '('] + ago_text(now_ago, t) + seq![' ', 'a', 'g', 'o', ')']
}

/// `text` is the overlay's text of the moment `t`: its wall-clock time, then
/// how long ago it was, as read from the clocks at some current moments.
pub open spec fn moment_text(text: Seq<char>, t: std::time::Instant) -> bool {
    exists|now_inst: std::time::Instant, now_sys: std::time::SystemTime, now_ago: std::time::Instant|
        text == moment_shown(t, now_inst, now_sys, now_ago)
}

/// The duration row's text: the span from the first moment to the last
/// (see `humanize_duration`); nothing without a last moment.
pub open spec fn span_shown(first: std::time::Instant, last: Option<std::time::Instant>) -> Seq<char> {
    match last {
        Some(ls) => humanize_text(span_secs(span_from(ls, first)) as nat, span_millis(span_from(ls, first)) as nat),
        None => Seq::empty(),
    }
}

fn moment_label(t: std::time::Instant) -> (r: String)
    ensures
        moment_text(r@, t),
{
    let clock = format_clock(t);
    let ago = format_duration_since(t);
    let mut out = String::new();
    push_str_text(&mut out, clock.as_str());
    out.push(' ');
    out.push(' ');
    out.push('(');
    push_str_text(&mut out, ago.as_str());
    out.push(' ');
    out.push('a');
    out.push('g');
    out.push('o');
    out.push(')');
    proof {
        let (ni, ns) = choose|ni: std::time::Instant, ns: std::time::SystemTime|
            clock@ == clock_text(clock_secs(ni, ns, t));
        let na = choose|na: std::time::Instant| ago@ == ago_text(na, t);
        assert(out@ =~= moment_shown(t, ni, ns, na));
    }
    out
}

/// `PROTO (number)`.
pub open spec fn protocol_text(p: u8) -> Seq<char> {
    proto_text(p) + seq![' ', '('] + dec(p as nat) + seq![')']
}

fn protocol_label(p: u8) -> (r: String)
    ensures
        r@ == protocol_text(p),
{
    let mut out = String::new();
    push_str_text(&mut out, proto_name(p));
    out.push(' ');
    out.push('(');
    push_decimal(&mut out, p as u64);
    out.push(')');
    out
}

/// `BYTES · N packets`, the packet count grouped by thousands.
pub open spec fn totals_text(bytes: nat, packets: nat) -> Seq<char> {
    bytes_text(bytes) + seq![' ', '\u{b7}', ' '] + group_thousands(dec(packets)) + " packets"@
}

fn totals_label(bytes: u64, packets: u64) -> (r: String)
    ensures
        r@ == totals_text(bytes as nat, packets as nat),
{
    let mut out = format_bytes(bytes);
    out.push(' ');
    out.push('\u{b7}');
    out.push(' ');
    let t = with_thousands(packets);
    push_str_text(&mut out, t.as_str());
    push_str_text(&mut out, " packets");
    out
}

/// Everything the overlay shows of a single flow, gathered by the caller.
pub struct FlowDetailsInput<'a> {
    pub key: FlowKey,
    pub direction: Direction,
    pub stats: &'a TrafficStats,
    pub first_seen: std::time::Instant,
    pub last_seen: Option<std::time::Instant>,
    pub last_summary: Option<&'a str>,
    /// Application-layer host found by inspection, with its kind.
    pub app_host: Option<(AppKind, &'a str)>,
    pub timeline: Option<&'a Timeline>,
    pub pid: Option<u32>,
    pub src: EndpointInfo,
    pub dst: EndpointInfo,
    /// The owning process, when it is known.
    pub process: Option<&'a ProcessInfo>,
    pub process_totals: Option<&'a ProcessTotals>,
}

/// The endpoint rows: addresses, reverse-lookup host texts, ports with
/// their service names, and kinds, side by side under the given labels.
pub open spec fn endpoint_rows(la: Seq<char>, lb: Seq<char>, a: EndpointInfo, b: EndpointInfo, pa: u16, pb: u16, proto: u8)
    -> Seq<RowView>
{
    seq![
        RowView::Section("Endpoints"@),
        RowView::Pair(la, a.addr@, lb, b.addr@),
        RowView::Pair("host"@, host_text(a.dns_enabled, a.rdns), "host"@, host_text(b.dns_enabled, b.rdns)),
        RowView::Pair("port"@, port_text(pa, proto), "port"@, port_text(pb, proto)),
        RowView::Pair("type"@, a.kind@, "type"@, b.kind@),
        RowView::Blank,
    ]
}

/// The closing rows of the flow section: the host found by inspection and
/// the last protocol summary, when known.
pub open spec fn extra_rows(app_host: Option<(AppKind, Seq<char>)>, last_summary: Option<Seq<char>>) -> Seq<RowView> {
    (match app_host {
        Some((k, h)) => seq![RowView::Single(k.text(), h)],
        None => Seq::empty(),
    }) + (match last_summary {
        Some(s) => seq![RowView::Single("last"@, s)],
        None => Seq::empty(),
    })
}

pub open spec fn host_view(h: Option<(AppKind, &str)>) -> Option<(AppKind, Seq<char>)> {
    match h {
        Some((k, s)) => Some((k, s@)),
        None => None,
    }
}

pub open spec fn text_view(s: Option<&str>) -> Option<Seq<char>> {
    match s {
        Some(v) => Some(v@),
        None => None,
    }
}

/// The rows of the flow overlay, given the texts of its first-seen and
/// last-packet moments and of its duration.
pub open spec fn flow_rows(i: FlowDetailsInput, history: Seq<u64>, first: Seq<char>, last: Seq<char>, span: Seq<char>)
    -> Seq<RowView>
{
    endpoint_rows("src"@, "dst"@, i.src, i.dst, i.key.src_port, i.key.dst_port, i.key.proto)
        + seq![
        RowView::Section("Flow"@),
        RowView::Single("protocol"@, protocol_text(i.key.proto)),
        RowView::Single("direction"@, i.direction.text()),
        RowView::Single("first seen"@, first),
    ] + (if i.last_seen is Some {
        seq![RowView::Single("last packet"@, last), RowView::Single("duration"@, span)]
    } else {
        Seq::empty()
    }) + seq![
        RowView::Single("total"@, totals_text(i.stats.bytes as nat, i.stats.packets as nat)),
        RowView::Single("rate"@, bps_text(i.stats.bps)),
    ] + (if i.timeline is Some {
        seq![RowView::Spark("history"@, history)]
    } else {
        Seq::empty()
    }) + extra_rows(host_view(i.app_host), text_view(i.last_summary)) + seq![RowView::Blank, RowView::Section("Process"@)]
        + process_rows(i.pid, opt_info(i.process), opt_totals(i.process_totals))
}

fn push_endpoint_rows<'a>(rows: &mut Vec<DetailRow<'a>>, la: &'a str, lb: &'a str, a: &EndpointInfo, b: &EndpointInfo, pa: u16, pb: u16, proto: u8)
    ensures
        rows_view(final(rows)@) == rows_view(old(rows)@) + endpoint_rows(la@, lb@, *a, *b, pa, pb, proto),
{
    let ghost start = rows_view(rows@);
    push_row(rows, DetailRow::SectionHeader { title: "Endpoints" });
    push_row(rows, DetailRow::Pair { label_a: la, value_a: a.addr.clone(), label_b: lb, value_b: b.addr.clone() });
    push_row(
        rows,
        DetailRow::Pair {
            label_a: "host",
            value_a: hostname_label(a.dns_enabled, a.rdns.as_ref()),
            label_b: "host",
            value_b: hostname_label(b.dns_enabled, b.rdns.as_ref()),
        },
    );
    push_row(rows, DetailRow::Pair { label_a: "port", value_a: port_label(pa, proto), label_b: "port", value_b: port_label(pb, proto) });
    push_row(rows, DetailRow::Pair { label_a: "type", value_a: a.kind.clone(), label_b: "type", value_b: b.kind.clone() });
    push_row(rows, DetailRow::Blank);
    proof {
        assert(rows_view(rows@) =~= start + endpoint_rows(la@, lb@, *a, *b, pa, pb, proto));
    }
}

fn push_extra_rows<'a>(rows: &mut Vec<DetailRow<'a>>, app_host: Option<(AppKind, &str)>, last_summary: Option<&str>)
    ensures
        rows_view(final(rows)@) == rows_view(old(rows)@) + extra_rows(host_view(app_host), text_view(last_summary)),
{
    let ghost start = rows_view(rows@);
    if let Some((kind, host)) = app_host {
        push_row(rows, DetailRow::Single { label: kind.label(), value: host.to_string() });
    }
    if let Some(s) = last_summary {
        push_row(rows, DetailRow::Single { label: "last", value: s.to_string() });
    }
    proof {
        assert(rows_view(rows@) =~= start + extra_rows(host_view(app_host), text_view(last_summary)));
    }
}

/// Build the rows of the flow overlay: the Endpoints section, the Flow
/// section (protocol, direction, moments, totals, rate, history, host and
/// summary when known), and the Process section. `timeline_buf` receives
/// the flow's history for the sparkline.
#[verifier::rlimit(40)]
pub fn flow_details_rows<'a>(input: &'a FlowDetailsInput<'a>, timeline_buf: &'a mut Vec<u64>) -> (r: Vec<DetailRow<'a>>)
    ensures
        input.timeline matches Some(tl) ==> final(timeline_buf)@ == timeline_samples(*tl),
        exists|first: Seq<char>, last: Seq<char>|
            moment_text(first, input.first_seen) && (input.last_seen matches Some(ls) ==> moment_text(last, ls)) && rows_view(r@) == flow_rows(
                *input,
                final(timeline_buf)@,
                first,
                last,
                span_shown(input.first_seen, input.last_seen),
            ),
{
    let mut rows: Vec<DetailRow<'a>> = Vec::new();
    push_endpoint_rows(&mut rows, "src", "dst", &input.src, &input.dst, input.key.src_port, input.key.dst_port, input.key.proto);
    push_row(&mut rows, DetailRow::SectionHeader { title: "Flow" });
    push_row(&mut rows, DetailRow::Single { label: "protocol", value: protocol_label(input.key.proto) });
    push_row(&mut rows, DetailRow::Single { label: "direction", value: input.direction.label().to_string() });
    let first = moment_label(input.first_seen);
    let ghost first_v = first@;
    push_row(&mut rows, DetailRow::Single { label: "first seen", value: first });
    let ghost mut last_v = first_v;
    let ghost span_v = span_shown(input.first_seen, input.last_seen);
    if let Some(ls) = input.last_seen {
        let last = moment_label(ls);
        proof {
            last_v = last@;
        }
        push_row(&mut rows, DetailRow::Single { label: "last packet", value: last });
        let span = humanize_duration(ls.saturating_duration_since(input.first_seen));
        push_row(&mut rows, DetailRow::Single { label: "duration", value: span });
    }
    push_row(&mut rows, DetailRow::Single { label: "total", value: totals_label(input.stats.bytes, input.stats.packets) });
    push_row(&mut rows, DetailRow::Single { label: "rate", value: format_bps(input.stats.bps) });
    let shared: &'a Vec<u64> = match input.timeline {
        Some(tl) => {
            fill_timeline_buf(timeline_buf, tl);
            timeline_buf
        },
        None => timeline_buf,
    };
    if input.timeline.is_some() {
        push_row(&mut rows, DetailRow::Sparkline { label: "history", data: shared.as_slice() });
    }
    push_extra_rows(&mut rows, input.app_host, input.last_summary);
    push_row(&mut rows, DetailRow::Blank);
    push_row(&mut rows, DetailRow::SectionHeader { title: "Process" });
    push_process_section(&mut rows, input.pid, input.process, input.process_totals);
    proof {
        assert(rows_view(rows@) =~= flow_rows(*input, shared@, first_v, last_v, span_v));
    }
    rows
}

/// Everything the overlay shows of a merged connection, gathered by the
/// caller (see `fold_conn_flows`).
pub struct ConnDetailsInput<'a> {
    pub local: Endpoint,
    pub remote: Endpoint,
    pub proto: u8,
    pub first_seen: std::time::Instant,
    pub last_seen: Option<std::time::Instant>,
    pub tx_bytes: u64,
    pub tx_bps: Rate,
    pub rx_bytes: u64,
    pub rx_bps: Rate,
    pub packets: u64,
    pub tx_timeline: Option<&'a Timeline>,
    pub rx_timeline: Option<&'a Timeline>,
    pub app_host: Option<(AppKind, &'a str)>,
    pub last_summary: Option<&'a str>,
    pub pid: Option<u32>,
    pub local_info: EndpointInfo,
    pub remote_info: EndpointInfo,
    pub process: Option<&'a ProcessInfo>,
    pub process_totals: Option<&'a ProcessTotals>,
}

/// `BYTES · RATE`.
pub open spec fn direction_text(bytes: nat, rate: Seq<char>) -> Seq<char> {
    bytes_text(bytes) + seq![' ', '\u{b7}', ' '] + rate
}

fn direction_label(bytes: u64, rate: Rate) -> (r: String)
    ensures
        r@ == direction_text(bytes as nat, bps_text(rate)),
{
    let mut out = format_bytes(bytes);
    out.push(' ');
    out.push('\u{b7}');
    out.push(' ');
    let text = format_bps(rate);
    push_str_text(&mut out, text.as_str());
    out
}

/// The rows of the connection overlay, given the texts of its moments and
/// duration: local and remote endpoints, then the traffic split into sent
/// and received with one history per direction seen.
pub open spec fn conn_rows(
    i: ConnDetailsInput,
    tx_history: Seq<u64>,
    rx_history: Seq<u64>,
    first: Seq<char>,
    last: Seq<char>,
    span: Seq<char>,
) -> Seq<RowView> {
    endpoint_rows("local"@, "remote"@, i.local_info, i.remote_info, i.local.1, i.remote.1, i.proto) + seq![
        RowView::Section("Flow"@),
        RowView::Single("protocol"@, protocol_text(i.proto)),
        RowView::Single("first seen"@, first),
    ] + (if i.last_seen is Some {
        seq![RowView::Single("last packet"@, last), RowView::Single("duration"@, span)]
    } else {
        Seq::empty()
    }) + seq![
        RowView::Single("\u{2191} tx"@, direction_text(i.tx_bytes as nat, bps_text(i.tx_bps))),
        RowView::Single("\u{2193} rx"@, direction_text(i.rx_bytes as nat, bps_text(i.rx_bps))),
        RowView::Single("total"@, totals_text((i.tx_bytes + i.rx_bytes) as nat, i.packets as nat)),
    ] + (if i.tx_timeline is Some {
        seq![RowView::Spark("\u{2191} history"@, tx_history)]
    } else {
        Seq::empty()
    }) + (if i.rx_timeline is Some {
        seq![RowView::Spark("\u{2193} history"@, rx_history)]
    } else {
        Seq::empty()
    }) + extra_rows(host_view(i.app_host), text_view(i.last_summary)) + seq![RowView::Blank, RowView::Section("Process"@)]
        + process_rows(i.pid, opt_info(i.process), opt_totals(i.process_totals))
}

/// Build the rows of the connection overlay (see `conn_rows`); `tx_buf` and
/// `rx_buf` receive the two directions' histories.
#[verifier::rlimit(40)]
pub fn conn_details_rows<'a>(
    input: &'a ConnDetailsInput<'a>,
    tx_buf: &'a mut Vec<u64>,
    rx_buf: &'a mut Vec<u64>,
) -> (r: Vec<DetailRow<'a>>)
    requires
        input.tx_bytes + input.rx_bytes <= u64::MAX,
    ensures
        input.tx_timeline matches Some(tl) ==> final(tx_buf)@ == timeline_samples(*tl),
        input.rx_timeline matches Some(tl) ==> final(rx_buf)@ == timeline_samples(*tl),
        exists|first: Seq<char>, last: Seq<char>|
            moment_text(first, input.first_seen) && (input.last_seen matches Some(ls) ==> moment_text(last, ls)) && rows_view(r@) == conn_rows(
                *input,
                final(tx_buf)@,
                final(rx_buf)@,
                first,
                last,
                span_shown(input.first_seen, input.last_seen),
            ),
{
    let mut rows: Vec<DetailRow<'a>> = Vec::new();
    push_endpoint_rows(
        &mut rows,
        "local",
        "remote",
        &input.local_info,
        &input.remote_info,
        input.local.1,
        input.remote.1,
        input.proto,
    );
    push_row(&mut rows, DetailRow::SectionHeader { title: "Flow" });
    push_row(&mut rows, DetailRow::Single { label: "protocol", value: protocol_label(input.proto) });
    let first = moment_label(input.first_seen);
    let ghost first_v = first@;
    push_row(&mut rows, DetailRow::Single { label: "first seen", value: first });
    let ghost mut last_v = first_v;
    let ghost span_v = span_shown(input.first_seen, input.last_seen);
    if let Some(ls) = input.last_seen {
        let last = moment_label(ls);
        proof {
            last_v = last@;
        }
        push_row(&mut rows, DetailRow::Single { label: "last packet", value: last });
        let span = humanize_duration(ls.saturating_duration_since(input.first_seen));
        push_row(&mut rows, DetailRow::Single { label: "duration", value: span });
    }
    push_row(&mut rows, DetailRow::Single { label: "\u{2191} tx", value: direction_label(input.tx_bytes, input.tx_bps) });
    push_row(&mut rows, DetailRow::Single { label: "\u{2193} rx", value: direction_label(input.rx_bytes, input.rx_bps) });
    push_row(
        &mut rows,
        DetailRow::Single { label: "total", value: totals_label(input.tx_bytes + input.rx_bytes, input.packets) },
    );
    let tx_shared: &'a Vec<u64> = match input.tx_timeline {
        Some(tl) => {
            fill_timeline_buf(tx_buf, tl);
            tx_buf
        },
        None => tx_buf,
    };
    if input.tx_timeline.is_some() {
        push_row(&mut rows, DetailRow::Sparkline { label: "\u{2191} history", data: tx_shared.as_slice() });
    }
    let rx_shared: &'a Vec<u64> = match input.rx_timeline {
        Some(tl) => {
            fill_timeline_buf(rx_buf, tl);
            rx_buf
        },
        None => rx_buf,
    };
    if input.rx_timeline.is_some() {
        push_row(&mut rows, DetailRow::Sparkline { label: "\u{2193} history", data: rx_shared.as_slice() });
    }
    push_extra_rows(&mut rows, input.app_host, input.last_summary);
    push_row(&mut rows, DetailRow::Blank);
    push_row(&mut rows, DetailRow::SectionHeader { title: "Process" });
    push_process_section(&mut rows, input.pid, input.process, input.process_totals);
    proof {
        assert(rows_view(rows@) =~= conn_rows(*input, tx_shared@, rx_shared@, first_v, last_v, span_v));
    }
    rows
}

/// One live flow as the connection overlay reads it.
pub struct OverlayFlow {
    pub key: FlowKey,
    pub stats: TrafficStats,
    pub last_summary: Option<String>,
    pub app_host: Option<(AppKind, String)>,
    pub first_seen: std::time::Instant,
    pub last_seen: std::time::Instant,
    pub timeline: Timeline,
    pub direction: Direction,
    pub pid: Option<u32>,
}

/// The two directions of one connection rolled up from the live flows:
/// endpoints from the first flow seen, traffic split by direction, the
/// earliest first moment and latest last moment, the latest history of each
/// direction, and the first process, host and summary found. Moments,
/// histories, host and summary are positions in the flow list.
#[derive(Debug, Clone, Copy, PartialEq, Eq)]
pub struct ConnFold {
    pub endpoints: Option<(Endpoint, Endpoint)>,
    pub tx_bytes: u64,
    pub tx_bps: Rate,
    pub rx_bytes: u64,
    pub rx_bps: Rate,
    pub packets: u64,
    pub first: Option<usize>,
    pub last: Option<usize>,
    pub tx_timeline: Option<usize>,
    pub rx_timeline: Option<usize>,
    pub pid: Option<u32>,
    pub app_host: Option<usize>,
    pub last_summary: Option<usize>,
}

pub open spec fn empty_fold() -> ConnFold {
    ConnFold {
        endpoints: None,
        tx_bytes: 0,
        tx_bps: Rate { bits: 0 },
        rx_bytes: 0,
        rx_bps: Rate { bits: 0 },
        packets: 0,
        first: None,
        last: None,
        tx_timeline: None,
        rx_timeline: None,
        pid: None,
        app_host: None,
        last_summary: None,
    }
}

/// The fold after flow `n` of `flows` (one of the connection's) is taken in.
pub open spec fn fold_step(c: ConnFold, flows: Seq<OverlayFlow>, n: int) -> ConnFold {
    let f = flows[n];
    let ep = oriented(f.key, f.direction);
    let tx = f.key.src() == ep.local;
    ConnFold {
        endpoints: if c.endpoints is None { Some((ep.local, ep.remote)) } else { c.endpoints },
        tx_bytes: if tx { (c.tx_bytes + f.stats.bytes) as u64 } else { c.tx_bytes },
        tx_bps: if tx { rate_sum(c.tx_bps, f.stats.bps) } else { c.tx_bps },
        rx_bytes: if tx { c.rx_bytes } else { (c.rx_bytes + f.stats.bytes) as u64 },
        rx_bps: if tx { c.rx_bps } else { rate_sum(c.rx_bps, f.stats.bps) },
        packets: (c.packets + f.stats.packets) as u64,
        first: match c.first {
            Some(j) => if instant_not_after(flows[j as int].first_seen, f.first_seen) { Some(j) } else { Some(n as usize) },
            None => Some(n as usize),
        },
        last: match c.last {
            Some(j) => if instant_not_after(flows[j as int].last_seen, f.last_seen) { Some(n as usize) } else { Some(j) },
            None => Some(n as usize),
        },
        tx_timeline: if tx { Some(n as usize) } else { c.tx_timeline },
        rx_timeline: if tx { c.rx_timeline } else { Some(n as usize) },
        pid: if c.pid is None { f.pid } else { c.pid },
        app_host: if c.app_host is None && f.app_host is Some { Some(n as usize) } else { c.app_host },
        last_summary: if c.last_summary is None && f.last_summary is Some { Some(n as usize) } else { c.last_summary },
    }
}

/// Taking flow `n` in keeps every counter within `u64`.
pub open spec fn fold_step_fits(c: ConnFold, flows: Seq<OverlayFlow>, n: int) -> bool {
    let f = flows[n];
    let tx = f.key.src() == oriented(f.key, f.direction).local;
    &&& c.packets + f.stats.packets <= u64::MAX
    &&& tx ==> c.tx_bytes + f.stats.bytes <= u64::MAX
    &&& !tx ==> c.rx_bytes + f.stats.bytes <= u64::MAX
}

/// The fold of the first `n` flows of `flows`, taking in only those of the
/// connection `ck`.
pub open spec fn conn_fold(flows: Seq<OverlayFlow>, ck: ConnKey, n: int) -> ConnFold
    decreases n,
{
    if n <= 0 {
        empty_fold()
    } else {
        let prev = conn_fold(flows, ck, n - 1);
        if conn_key_of(flows[n - 1].key) == ck { fold_step(prev, flows, n - 1) } else { prev }
    }
}

/// Folding the first `n` flows never overflows a counter.
pub open spec fn conn_fold_fits(flows: Seq<OverlayFlow>, ck: ConnKey, n: int) -> bool
    decreases n,
{
    if n <= 0 {
        true
    } else {
        &&& conn_fold_fits(flows, ck, n - 1)
        &&& conn_key_of(flows[n - 1].key) == ck ==> fold_step_fits(conn_fold(flows, ck, n - 1), flows, n - 1)
    }
}

proof fn lemma_conn_fold_fits_prefix(flows: Seq<OverlayFlow>, ck: ConnKey, i: int, n: int)
    requires
        0 <= i <= n,
        conn_fold_fits(flows, ck, n),
    ensures
        conn_fold_fits(flows, ck, i),
    decreases n - i,
{
    if i < n {
        lemma_conn_fold_fits_prefix(flows, ck, i, n - 1);
    }
}

/// Every position a fold holds lies below `n`, and a fold with no
/// endpoints has taken in no flow.
pub open spec fn fold_positions_ok(c: ConnFold, n: nat) -> bool {
    &&& c.first matches Some(j) ==> j < n
    &&& c.last matches Some(j) ==> j < n
    &&& c.tx_timeline matches Some(j) ==> j < n
    &&& c.rx_timeline matches Some(j) ==> j < n
    &&& c.app_host matches Some(j) ==> j < n
    &&& c.last_summary matches Some(j) ==> j < n
    &&& c.endpoints is Some <==> c.first is Some
    &&& c.endpoints is Some <==> c.last is Some
}

/// Fold the live flows of the connection `target` belongs to (see
/// `conn_fold`).
pub fn fold_conn_flows(target: &FlowKey, flows: &Vec<OverlayFlow>) -> (r: ConnFold)
    requires
        conn_fold_fits(flows@, conn_key_of(*target), flows@.len() as int),
    ensures
        r == conn_fold(flows@, conn_key_of(*target), flows@.len() as int),
        fold_positions_ok(r, flows@.len()),
{
    let ck = conn_key(target);
    let mut c = ConnFold {
        endpoints: None,
        tx_bytes: 0,
        tx_bps: Rate { bits: 0 },
        rx_bytes: 0,
        rx_bps: Rate { bits: 0 },
        packets: 0,
        first: None,
        last: None,
        tx_timeline: None,
        rx_timeline: None,
        pid: None,
        app_host: None,
        last_summary: None,
    };
    let mut n: usize = 0;
    while n < flows.len()
        invariant
            ck == conn_key_of(*target),
            n <= flows.len(),
            conn_fold_fits(flows@, ck, flows@.len() as int),
            c == conn_fold(flows@, ck, n as int),
            fold_positions_ok(c, n as nat),
        decreases flows.len() - n,
    {
        let f = &flows[n];
        proof {
            lemma_conn_fold_fits_prefix(flows@, ck, n + 1, flows@.len() as int);
        }
        if conn_key_eq(&conn_key(&f.key), &ck) {
            let ep = orient(&f.key, f.direction);
            let src: Endpoint = (f.key.src_ip, f.key.src_port);
            let tx = endpoint_eq(&src, &ep.local);
            if c.endpoints.is_none() {
                c.endpoints = Some((ep.local, ep.remote));
            }
            c.packets = c.packets + f.stats.packets;
            if tx {
                c.tx_bytes = c.tx_bytes + f.stats.bytes;
                c.tx_bps = rate_add(c.tx_bps, f.stats.bps);
                c.tx_timeline = Some(n);
            } else {
                c.rx_bytes = c.rx_bytes + f.stats.bytes;
                c.rx_bps = rate_add(c.rx_bps, f.stats.bps);
                c.rx_timeline = Some(n);
            }
            c.first = match c.first {
                Some(j) => if instant_le(&flows[j].first_seen, &f.first_seen) { Some(j) } else { Some(n) },
                None => Some(n),
            };
            c.last = match c.last {
                Some(j) => if instant_le(&flows[j].last_seen, &f.last_seen) { Some(n) } else { Some(j) },
                None => Some(n),
            };
            if c.pid.is_none() {
                c.pid = f.pid;
            }
            if c.app_host.is_none() && f.app_host.is_some() {
                c.app_host = Some(n);
            }
            if c.last_summary.is_none() && f.last_summary.is_some() {
                c.last_summary = Some(n);
            }
        }
        n = n + 1;
    }
    c
}

/// The flow was sent from its connection's local end (the outbound half).
pub open spec fn sent_from_local(f: OverlayFlow) -> bool {
    f.key.src() == oriented(f.key, f.direction).local
}

/// Total bytes (`which == 0`) or packets (`which == 1`) of the flows among
/// the first `n` that belong to connection `ck` and were sent from the
/// local end (`sent`) or received at it (`!sent`); packets count both.
pub open spec fn conn_total(flows: Seq<OverlayFlow>, ck: ConnKey, n: int, sent: bool, which: int) -> int
    decreases n,
{
    if n <= 0 {
        0
    } else {
        let f = flows[n - 1];
        let counted = conn_key_of(f.key) == ck && (which == 1 || sent_from_local(f) == sent);
        conn_total(flows, ck, n - 1, sent, which) + if !counted {
            0
        } else if which == 0 {
            f.stats.bytes as int
        } else {
            f.stats.packets as int
        }
    }
}

/// How the overlay splits a connection into its two directions: the sent
/// history comes from the last of the connection's flows sent from the
/// local end, the received history from the last one received at it (none
/// when there is no such flow); every position the fold keeps names a flow
/// of the connection; and the sent and received bytes and the packets are
/// the totals over those flows.
pub proof fn lemma_conn_fold_split(flows: Seq<OverlayFlow>, ck: ConnKey, n: int)
    requires
        0 <= n <= flows.len(),
        flows.len() <= usize::MAX,
    ensures
        match conn_fold(flows, ck, n).tx_timeline {
            Some(j) => 0 <= j < n && conn_key_of(flows[j as int].key) == ck && sent_from_local(flows[j as int])
                && forall|t: int| j < t < n && #[trigger] conn_key_of(flows[t].key) == ck ==> !sent_from_local(flows[t]),
            None => forall|t: int| 0 <= t < n && #[trigger] conn_key_of(flows[t].key) == ck ==> !sent_from_local(flows[t]),
        },
        match conn_fold(flows, ck, n).rx_timeline {
            Some(j) => 0 <= j < n && conn_key_of(flows[j as int].key) == ck && !sent_from_local(flows[j as int])
                && forall|t: int| j < t < n && #[trigger] conn_key_of(flows[t].key) == ck ==> sent_from_local(flows[t]),
            None => forall|t: int| 0 <= t < n && #[trigger] conn_key_of(flows[t].key) == ck ==> sent_from_local(flows[t]),
        },
        conn_fold(flows, ck, n).first matches Some(j) ==> 0 <= j < n && conn_key_of(flows[j as int].key) == ck,
        conn_fold(flows, ck, n).last matches Some(j) ==> 0 <= j < n && conn_key_of(flows[j as int].key) == ck,
        conn_fold(flows, ck, n).app_host matches Some(j) ==> 0 <= j < n && conn_key_of(flows[j as int].key) == ck
            && flows[j as int].app_host is Some,
        conn_fold(flows, ck, n).last_summary matches Some(j) ==> 0 <= j < n && conn_key_of(flows[j as int].key) == ck
            && flows[j as int].last_summary is Some,
        conn_fold(flows, ck, n).first matches Some(j) ==> forall|t: int|
            j < t < n && #[trigger] conn_key_of(flows[t].key) == ck ==> instant_not_after(
                flows[j as int].first_seen,
                flows[t].first_seen,
            ),
        conn_fold(flows, ck, n).last matches Some(j) ==> forall|t: int|
            j < t < n && #[trigger] conn_key_of(flows[t].key) == ck ==> !instant_not_after(
                flows[j as int].last_seen,
                flows[t].last_seen,
            ),
        conn_fold(flows, ck, n).first is None ==> forall|t: int| 0 <= t < n ==> #[trigger] conn_key_of(flows[t].key) != ck,
        match conn_fold(flows, ck, n).endpoints {
            Some((l, r)) => exists|w: int|
                0 <= w < n && #[trigger] conn_key_of(flows[w].key) == ck && oriented(flows[w].key, flows[w].direction).local == l
                    && oriented(flows[w].key, flows[w].direction).remote == r && forall|t: int|
                    0 <= t < w ==> #[trigger] conn_key_of(flows[t].key) != ck,
            None => forall|t: int| 0 <= t < n ==> #[trigger] conn_key_of(flows[t].key) != ck,
        },
        conn_fold(flows, ck, n).pid is None ==> forall|t: int| 0 <= t < n && #[trigger] conn_key_of(flows[t].key) == ck ==> flows[t].pid is None,
        conn_fold(flows, ck, n).pid is Some ==> exists|w: int|
            0 <= w < n && #[trigger] conn_key_of(flows[w].key) == ck && flows[w].pid == conn_fold(flows, ck, n).pid
                && forall|t: int| 0 <= t < w && #[trigger] conn_key_of(flows[t].key) == ck ==> flows[t].pid is None,
        match conn_fold(flows, ck, n).app_host {
            Some(j) => forall|t: int| 0 <= t < j && #[trigger] conn_key_of(flows[t].key) == ck ==> flows[t].app_host is None,
            None => forall|t: int| 0 <= t < n && #[trigger] conn_key_of(flows[t].key) == ck ==> flows[t].app_host is None,
        },
        match conn_fold(flows, ck, n).last_summary {
            Some(j) => forall|t: int| 0 <= t < j && #[trigger] conn_key_of(flows[t].key) == ck ==> flows[t].last_summary is None,
            None => forall|t: int| 0 <= t < n && #[trigger] conn_key_of(flows[t].key) == ck ==> flows[t].last_summary is None,
        },
        conn_fold_fits(flows, ck, n) ==> conn_fold(flows, ck, n).tx_bytes == conn_total(flows, ck, n, true, 0),
        conn_fold_fits(flows, ck, n) ==> conn_fold(flows, ck, n).rx_bytes == conn_total(flows, ck, n, false, 0),
        conn_fold_fits(flows, ck, n) ==> conn_fold(flows, ck, n).packets == conn_total(flows, ck, n, true, 1),
    decreases n,
{
    if n > 0 {
        lemma_conn_fold_split(flows, ck, n - 1);
        let prev = conn_fold(flows, ck, n - 1);
        let c = conn_fold(flows, ck, n);
        let f = flows[n - 1];
        let tx = sent_from_local(f);
        if conn_fold_fits(flows, ck, n) {
            lemma_conn_fold_fits_prefix(flows, ck, n - 1, n);
        }
        if conn_key_of(f.key) == ck {
            assert(c == fold_step(prev, flows, n - 1));
            if tx {
                assert(c.tx_timeline == Some((n - 1) as usize));
                assert(c.rx_timeline == prev.rx_timeline);
                match prev.rx_timeline {
                    Some(j) => {
                        assert forall|t: int| j < t < n && #[trigger] conn_key_of(flows[t].key) == ck implies sent_from_local(
                            flows[t],
                        ) by {
                            if t < n - 1 {
                            }
                        }
                    },
                    None => {
                        assert forall|t: int| 0 <= t < n && #[trigger] conn_key_of(flows[t].key) == ck implies sent_from_local(
                            flows[t],
                        ) by {
                            if t < n - 1 {
                            }
                        }
                    },
                }
            } else {
                assert(c.rx_timeline == Some((n - 1) as usize));
                assert(c.tx_timeline == prev.tx_timeline);
                match prev.tx_timeline {
                    Some(j) => {
                        assert forall|t: int| j < t < n && #[trigger] conn_key_of(flows[t].key) == ck implies !sent_from_local(
                            flows[t],
                        ) by {
                            if t < n - 1 {
                            }
                        }
                    },
                    None => {
                        assert forall|t: int| 0 <= t < n && #[trigger] conn_key_of(flows[t].key) == ck implies !sent_from_local(
                            flows[t],
                        ) by {
                            if t < n - 1 {
                            }
                        }
                    },
                }
            }
        } else {
            assert(c == prev);
            match prev.tx_timeline {
                Some(j) => {
                    assert forall|t: int| j < t < n && #[trigger] conn_key_of(flows[t].key) == ck implies !sent_from_local(
                        flows[t],
                    ) by {
                        if t < n - 1 {
                        }
                    }
                },
                None => {
                    assert forall|t: int| 0 <= t < n && #[trigger] conn_key_of(flows[t].key) == ck implies !sent_from_local(
                        flows[t],
                    ) by {
                        if t < n - 1 {
                        }
                    }
                },
            }
            match prev.rx_timeline {
                Some(j) => {
                    assert forall|t: int| j < t < n && #[trigger] conn_key_of(flows[t].key) == ck implies sent_from_local(
                        flows[t],
                    ) by {
                        if t < n - 1 {
                        }
                    }
                },
                None => {
                    assert forall|t: int| 0 <= t < n && #[trigger] conn_key_of(flows[t].key) == ck implies sent_from_local(
                        flows[t],
                    ) by {
                        if t < n - 1 {
                        }
                    }
                },
            }
        }
    }
}

/// Whether `fold_conn_flows` can fold the connection of `target` without a
/// counter leaving `u64` (tells exactly when `conn_fold_fits` holds).
pub fn conn_fold_is_ready(target: &FlowKey, flows: &Vec<OverlayFlow>) -> (r: bool)
    ensures
        r == conn_fold_fits(flows@, conn_key_of(*target), flows@.len() as int),
{
    let ck = conn_key(target);
    let mut tx: u64 = 0;
    let mut rx: u64 = 0;
    let mut packets: u64 = 0;
    let mut n: usize = 0;
    while n < flows.len()
        invariant
            ck == conn_key_of(*target),
            n <= flows.len(),
            conn_fold_fits(flows@, ck, n as int),
            tx == conn_fold(flows@, ck, n as int).tx_bytes,
            rx == conn_fold(flows@, ck, n as int).rx_bytes,
            packets == conn_fold(flows@, ck, n as int).packets,
        decreases flows.len() - n,
    {
        let f = &flows[n];
        if conn_key_eq(&conn_key(&f.key), &ck) {
            let ep = orient(&f.key, f.direction);
            let src: Endpoint = (f.key.src_ip, f.key.src_port);
            let is_tx = endpoint_eq(&src, &ep.local);
            match packets.checked_add(f.stats.packets) {
                Some(p) => packets = p,
                None => {
                    proof {
                        if conn_fold_fits(flows@, ck, flows@.len() as int) {
                            lemma_conn_fold_fits_prefix(flows@, ck, n + 1, flows@.len() as int);
                        }
                    }
                    return false;
                },
            }
            if is_tx {
                match tx.checked_add(f.stats.bytes) {
                    Some(t) => tx = t,
                    None => {
                        proof {
                            if conn_fold_fits(flows@, ck, flows@.len() as int) {
                                lemma_conn_fold_fits_prefix(flows@, ck, n + 1, flows@.len() as int);
                            }
                        }
                        return false;
                    },
                }
            } else {
                match rx.checked_add(f.stats.bytes) {
                    Some(t) => rx = t,
                    None => {
                        proof {
                            if conn_fold_fits(flows@, ck, flows@.len() as int) {
                                lemma_conn_fold_fits_prefix(flows@, ck, n + 1, flows@.len() as int);
                            }
                        }
                        return false;
                    },
                }
            }
        }
        n = n + 1;
    }
    true
}

/// The app-layer host of a flow, borrowed.
pub open spec fn borrowed_host(h: Option<(AppKind, String)>) -> Option<(AppKind, Seq<char>)> {
    match h {
        Some((k, s)) => Some((k, s@)),
        None => None,
    }
}

pub open spec fn string_view(s: Option<String>) -> Option<Seq<char>> {
    match s {
        Some(v) => Some(v@),
        None => None,
    }
}

/// The overlay input of a folded connection: its endpoints, traffic and
/// rates, the moments, histories, host and summary of the flows the fold
/// points at, and the endpoint texts the caller rendered; `None` when no
/// flow of the connection is left.
pub fn conn_details_input<'a>(
    fold: &ConnFold,
    flows: &'a Vec<OverlayFlow>,
    proto: u8,
    local_info: EndpointInfo,
    remote_info: EndpointInfo,
    process: Option<&'a ProcessInfo>,
    process_totals: Option<&'a ProcessTotals>,
) -> (r: Option<ConnDetailsInput<'a>>)
    requires
        fold_positions_ok(*fold, flows@.len()),
    ensures
        fold.endpoints is None ==> r is None,
        fold.endpoints matches Some((l, m)) ==> r matches Some(i) && {
            &&& i.local == l
            &&& i.remote == m
            &&& i.proto == proto
            &&& i.first_seen == flows@[fold.first->0 as int].first_seen
            &&& i.last_seen == Some(flows@[fold.last->0 as int].last_seen)
            &&& i.tx_bytes == fold.tx_bytes
            &&& i.rx_bytes == fold.rx_bytes
            &&& i.packets == fold.packets
            &&& (match fold.tx_timeline {
                Some(j) => i.tx_timeline == Some(&flows@[j as int].timeline),
                None => i.tx_timeline is None,
            })
            &&& (match fold.rx_timeline {
                Some(j) => i.rx_timeline == Some(&flows@[j as int].timeline),
                None => i.rx_timeline is None,
            })
            &&& host_view(i.app_host) == (match fold.app_host {
                Some(j) => borrowed_host(flows@[j as int].app_host),
                None => None,
            })
            &&& text_view(i.last_summary) == (match fold.last_summary {
                Some(j) => string_view(flows@[j as int].last_summary),
                None => None,
            })
            &&& i.pid == fold.pid
            &&& i.local_info == local_info
            &&& i.remote_info == remote_info
            &&& i.tx_bps == fold.tx_bps
            &&& i.rx_bps == fold.rx_bps
            &&& i.process == process
            &&& i.process_totals == process_totals
        },
{
    let (local, remote) = match fold.endpoints {
        Some(e) => e,
        None => {
            return None;
        },
    };
    let first = match fold.first {
        Some(j) => j,
        None => {
            return None;
        },
    };
    let last = match fold.last {
        Some(j) => j,
        None => {
            return None;
        },
    };
    let tx_timeline = match fold.tx_timeline {
        Some(j) => Some(&flows[j].timeline),
        None => None,
    };
    let rx_timeline = match fold.rx_timeline {
        Some(j) => Some(&flows[j].timeline),
        None => None,
    };
    let app_host = match fold.app_host {
        Some(j) => match &flows[j].app_host {
            Some((k, h)) => Some((*k, h.as_str())),
            None => None,
        },
        None => None,
    };
    let last_summary = match fold.last_summary {
        Some(j) => match &flows[j].last_summary {
            Some(s) => Some(s.as_str()),
            None => None,
        },
        None => None,
    };
    Some(ConnDetailsInput {
        local,
        remote,
        proto,
        first_seen: flows[first].first_seen,
        last_seen: Some(flows[last].last_seen),
        tx_bytes: fold.tx_bytes,
        tx_bps: fold.tx_bps,
        rx_bytes: fold.rx_bytes,
        rx_bps: fold.rx_bps,
        packets: fold.packets,
        tx_timeline,
        rx_timeline,
        app_host,
        last_summary,
        pid: fold.pid,
        local_info,
        remote_info,
        process,
        process_totals,
    })
}

/// Position of the first live flow with key `target`, if any.
pub fn find_flow(target: &FlowKey, flows: &Vec<OverlayFlow>) -> (r: Option<usize>)
    ensures
        match r {
            Some(j) => j < flows.len() && flows@[j as int].key == *target && forall|t: int|
                0 <= t < j ==> flows@[t].key != *target,
            None => forall|t: int| 0 <= t < flows.len() ==> flows@[t].key != *target,
        },
{
    let mut j: usize = 0;
    while j < flows.len()
        invariant
            j <= flows.len(),
            forall|t: int| 0 <= t < j ==> flows@[t].key != *target,
        decreases flows.len() - j,
    {
        if crate::flow::flow_key_eq(&flows[j].key, target) {
            return Some(j);
        }
        j = j + 1;
    }
    None
}

/// Which overlay is shown.
#[derive(Debug, Clone, Copy, PartialEq, Eq, Structural)]
pub enum OverlayKind {
    Flow,
    Connection,
}

pub open spec fn overlay_title_text(kind: OverlayKind, paused: bool) -> Seq<char> {
    match (kind, paused) {
        (OverlayKind::Flow, true) => "Flow details (paused)"@,
        (OverlayKind::Flow, false) => "Flow details (live)"@,
        (OverlayKind::Connection, true) => "Connection details (paused)"@,
        (OverlayKind::Connection, false) => "Connection details (live)"@,
    }
}

/// Title of the details overlay: which overlay, and whether what it shows
/// is frozen or live.
pub fn overlay_title(kind: OverlayKind, paused: bool) -> (r: &'static str)
    ensures
        r@ == overlay_title_text(kind, paused),
{
    match (kind, paused) {
        (OverlayKind::Flow, true) => "Flow details (paused)",
        (OverlayKind::Flow, false) => "Flow details (live)",
        (OverlayKind::Connection, true) => "Connection details (paused)",
        (OverlayKind::Connection, false) => "Connection details (live)",
    }
}

} // verus!
