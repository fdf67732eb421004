//! The texts of the screens' tables: header titles with the sort arrow, the
//! cells of flow, connection and process rows, the process tree's command
//! column, and the help overlay's key column.

use vstd::prelude::*;
use crate::common::{IP_COL_WIDTH, SortDirection, ellipsize_middle, ellipsized, proto_name, proto_text, sort_arrow};
use crate::conn::ConnRow;
use crate::dashboard::{FlowRow, SortColumn, process_label, process_text, opt_string_view, format_process, opt_str_view};
use crate::format::{bytes_text, count_text, elapsed_text, format_bytes, format_count, format_elapsed};
use crate::processes::{ChildRow, FrozenProcessRow, ProcSortColumn};
use crate::text::{chars_of, dec, push_chars, push_decimal};
use crate::widgets::{HelpEntry, wrap_cmd, wrapped_text, string_views};
use crate::bps::{bps_text, format_bps};
use crate::flow::Rate;

verus! {

/// The arrow marking the sort direction.
pub open spec fn arrow_text(d: SortDirection) -> Seq<char> {
    match d {
        SortDirection::Asc => "\u{25b2}"@,
        SortDirection::Desc => "\u{25bc}"@,
    }
}

/// A header title: the label, followed by the direction arrow when the
/// table is sorted by this column.
pub open spec fn title_text(label: Seq<char>, is_sorted: bool, d: SortDirection) -> Seq<char> {
    if is_sorted { label + seq![' '] + arrow_text(d) } else { label }
}

fn push_text(out: &mut String, s: &str)
    ensures
        final(out)@ == old(out)@ + s@,
{
    let cs = chars_of(s);
    push_chars(out, &cs);
}

/// The text of a sortable header cell (see `title_text`).
pub fn header_title(label: &str, is_sorted: bool, direction: SortDirection) -> (r: String)
    ensures
        r@ == title_text(label@, is_sorted, direction),
{
    let mut out = String::new();
    push_text(&mut out, label);
    if is_sorted {
        out.push(' ');
        push_text(&mut out, sort_arrow(direction));
    }
    out
}

fn push_string(v: &mut Vec<String>, s: String)
    ensures
        string_views(final(v)@) == string_views(old(v)@).push(s@),
{
    let ghost before = v@;
    v.push(s);
    proof {
        assert(string_views(v@) =~= string_views(before).push(s@));
    }
}

/// The flow table's header: one title per sortable column (the sorted one
/// marked), then `info`.
pub open spec fn flow_titles(c: SortColumn, d: SortDirection) -> Seq<Seq<char>> {
    seq![
        title_text("src ip"@, c == SortColumn::SrcIp, d),
        title_text("sport"@, c == SortColumn::SrcPort, d),
        title_text("dst ip"@, c == SortColumn::DstIp, d),
        title_text("dport"@, c == SortColumn::DstPort, d),
        title_text("proto"@, c == SortColumn::Proto, d),
        title_text("process"@, c == SortColumn::Process, d),
        title_text("bps"@, c == SortColumn::Bps, d),
        title_text("bytes"@, c == SortColumn::Bytes, d),
        title_text("pkts"@, c == SortColumn::Packets, d),
        title_text("first seen"@, c == SortColumn::FirstSeen, d),
        title_text("last pkt"@, c == SortColumn::LastPacket, d),
        "info"@,
    ]
}

/// Titles of the flow table's header (see `flow_titles`).
pub fn flow_header_titles(column: SortColumn, direction: SortDirection) -> (r: Vec<String>)
    ensures
        string_views(r@) == flow_titles(column, direction),
{
    let mut v: Vec<String> = Vec::new();
    push_string(&mut v, header_title("src ip", column == SortColumn::SrcIp, direction));
    push_string(&mut v, header_title("sport", column == SortColumn::SrcPort, direction));
    push_string(&mut v, header_title("dst ip", column == SortColumn::DstIp, direction));
    push_string(&mut v, header_title("dport", column == SortColumn::DstPort, direction));
    push_string(&mut v, header_title("proto", column == SortColumn::Proto, direction));
    push_string(&mut v, header_title("process", column == SortColumn::Process, direction));
    push_string(&mut v, header_title("bps", column == SortColumn::Bps, direction));
    push_string(&mut v, header_title("bytes", column == SortColumn::Bytes, direction));
    push_string(&mut v, header_title("pkts", column == SortColumn::Packets, direction));
    push_string(&mut v, header_title("first seen", column == SortColumn::FirstSeen, direction));
    push_string(&mut v, header_title("last pkt", column == SortColumn::LastPacket, direction));
    push_string(&mut v, "info".to_string());
    proof {
        assert(string_views(v@) =~= flow_titles(column, direction));
    }
    v
}

/// The connection table's header: local and remote where the flow table
/// has source and destination, the two directions unmarked, and `total`
/// marked when sorting by either bandwidth column.
pub open spec fn conn_titles(c: SortColumn, d: SortDirection) -> Seq<Seq<char>> {
    seq![
        title_text("local"@, c == SortColumn::SrcIp, d),
        title_text("lport"@, c == SortColumn::SrcPort, d),
        title_text("remote"@, c == SortColumn::DstIp, d),
        title_text("rport"@, c == SortColumn::DstPort, d),
        title_text("proto"@, c == SortColumn::Proto, d),
        title_text("process"@, c == SortColumn::Process, d),
        "\u{2191} tx"@,
        "\u{2193} rx"@,
        title_text("total"@, c == SortColumn::Bytes || c == SortColumn::Bps, d),
        title_text("pkts"@, c == SortColumn::Packets, d),
        title_text("first seen"@, c == SortColumn::FirstSeen, d),
        title_text("last pkt"@, c == SortColumn::LastPacket, d),
    ]
}

/// Titles of the connection table's header (see `conn_titles`).
pub fn conn_header_titles(column: SortColumn, direction: SortDirection) -> (r: Vec<String>)
    ensures
        string_views(r@) == conn_titles(column, direction),
{
    let mut v: Vec<String> = Vec::new();
    push_string(&mut v, header_title("local", column == SortColumn::SrcIp, direction));
    push_string(&mut v, header_title("lport", column == SortColumn::SrcPort, direction));
    push_string(&mut v, header_title("remote", column == SortColumn::DstIp, direction));
    push_string(&mut v, header_title("rport", column == SortColumn::DstPort, direction));
    push_string(&mut v, header_title("proto", column == SortColumn::Proto, direction));
    push_string(&mut v, header_title("process", column == SortColumn::Process, direction));
    push_string(&mut v, "\u{2191} tx".to_string());
    push_string(&mut v, "\u{2193} rx".to_string());
    push_string(
        &mut v,
        header_title("total", column == SortColumn::Bytes || column == SortColumn::Bps, direction),
    );
    push_string(&mut v, header_title("pkts", column == SortColumn::Packets, direction));
    push_string(&mut v, header_title("first seen", column == SortColumn::FirstSeen, direction));
    push_string(&mut v, header_title("last pkt", column == SortColumn::LastPacket, direction));
    proof {
        assert(string_views(v@) =~= conn_titles(column, direction));
    }
    v
}

/// The processes table's header: the sorted column marked, none while the
/// order is `Fixed`; status and command are not sortable.
pub open spec fn proc_titles(c: ProcSortColumn, d: SortDirection) -> Seq<Seq<char>> {
    let sorted = |x: ProcSortColumn| c == x && c != ProcSortColumn::Fixed;
    seq![
        Seq::empty(),
        title_text("pid"@, sorted(ProcSortColumn::Pid), d),
        title_text("name"@, sorted(ProcSortColumn::Name), d),
        title_text("conns"@, sorted(ProcSortColumn::ConnCount), d),
        title_text("bps"@, sorted(ProcSortColumn::Bps), d),
        title_text("bytes"@, sorted(ProcSortColumn::Bytes), d),
        title_text("user"@, sorted(ProcSortColumn::User), d),
        "status"@,
        "cmd"@,
    ]
}

/// Titles of the processes table's header (see `proc_titles`).
pub fn proc_header_titles(column: ProcSortColumn, direction: SortDirection) -> (r: Vec<String>)
    ensures
        string_views(r@) == proc_titles(column, direction),
{
    let fixed = column == ProcSortColumn::Fixed;
    let mut v: Vec<String> = Vec::new();
    push_string(&mut v, String::new());
    push_string(&mut v, header_title("pid", !fixed && column == ProcSortColumn::Pid, direction));
    push_string(&mut v, header_title("name", !fixed && column == ProcSortColumn::Name, direction));
    push_string(&mut v, header_title("conns", !fixed && column == ProcSortColumn::ConnCount, direction));
    push_string(&mut v, header_title("bps", !fixed && column == ProcSortColumn::Bps, direction));
    push_string(&mut v, header_title("bytes", !fixed && column == ProcSortColumn::Bytes, direction));
    push_string(&mut v, header_title("user", !fixed && column == ProcSortColumn::User, direction));
    push_string(&mut v, "status".to_string());
    push_string(&mut v, "cmd".to_string());
    proof {
        assert(string_views(v@) =~= proc_titles(column, direction));
    }
    v
}

/// Nanoseconds per second and per millisecond of the app's tick clock.
pub const TICKS_PER_SEC: u64 = 1_000_000_000;

pub const TICKS_PER_MILLI: u64 = 1_000_000;

/// How long before `now` the moment `t` was, as the tables show it (zero
/// when `t` is not before `now`); moments are nanosecond ticks.
pub open spec fn ago_text(now: u64, t: u64) -> Seq<char> {
    let e: nat = if now >= t { (now - t) as nat } else { 0 };
    elapsed_text(e / 1_000_000_000, (e % 1_000_000_000) / 1_000_000)
}

/// Render how long before `now` the moment `t` was (see `ago_text`).
pub fn format_ago(now: u64, t: u64) -> (r: String)
    ensures
        r@ == ago_text(now, t),
{
    let e = now.saturating_sub(t);
    format_elapsed(e / TICKS_PER_SEC, ((e % TICKS_PER_SEC) / TICKS_PER_MILLI) as u32)
}

pub open spec fn opt_text(s: Option<String>) -> Seq<char> {
    match s {
        Some(t) => t@,
        None => Seq::empty(),
    }
}

/// The cells of a flow row: source and destination (as labelled by the
/// caller) with their ports, protocol, process, rate, bytes, packets, ages
/// of first and last packet, and the last protocol summary.
pub open spec fn flow_cells(r: FlowRow, now: u64, src: Seq<char>, dst: Seq<char>) -> Seq<Seq<char>> {
    seq![
        src,
        dec(r.key.src_port as nat),
        dst,
        dec(r.key.dst_port as nat),
        proto_text(r.key.proto),
        process_text(r.pid, opt_string_view(r.process_name)),
        bps_text(r.stats.bps),
        bytes_text(r.stats.bytes as nat),
        dec(r.stats.packets as nat),
        ago_text(now, r.first_seen),
        ago_text(now, r.last_seen),
        opt_text(r.last_summary),
    ]
}

fn u64_text(n: u64) -> (r: String)
    ensures
        r@ == dec(n as nat),
{
    let mut s = String::new();
    push_decimal(&mut s, n);
    s
}

/// The cells of a flow row (see `flow_cells`).
pub fn flow_row_cells(r: &FlowRow, now: u64, src: String, dst: String) -> (cells: Vec<String>)
    ensures
        string_views(cells@) == flow_cells(*r, now, src@, dst@),
{
    let ghost (sv, dv) = (src@, dst@);
    let mut v: Vec<String> = Vec::new();
    push_string(&mut v, src);
    push_string(&mut v, u64_text(r.key.src_port as u64));
    push_string(&mut v, dst);
    push_string(&mut v, u64_text(r.key.dst_port as u64));
    push_string(&mut v, proto_name(r.key.proto).to_string());
    push_string(&mut v, process_label(r));
    push_string(&mut v, format_bps(r.stats.bps));
    push_string(&mut v, format_bytes(r.stats.bytes));
    push_string(&mut v, u64_text(r.stats.packets));
    push_string(&mut v, format_ago(now, r.first_seen));
    push_string(&mut v, format_ago(now, r.last_seen));
    let info = match &r.last_summary {
        Some(s) => s.clone(),
        None => String::new(),
    };
    push_string(&mut v, info);
    proof {
        assert(string_views(v@) =~= flow_cells(*r, now, sv, dv));
    }
    v
}

/// The cells of a connection row: local and remote (as labelled by the
/// caller) with their ports, protocol, process, bytes sent, received and in
/// total, packets, and ages of first and last packet.
pub open spec fn conn_cells(c: ConnRow, now: u64, local: Seq<char>, remote: Seq<char>) -> Seq<Seq<char>> {
    seq![
        local,
        dec(c.local.1 as nat),
        remote,
        dec(c.remote.1 as nat),
        proto_text(c.proto),
        process_text(c.pid, opt_string_view(c.process_name)),
        bytes_text(c.tx_bytes as nat),
        bytes_text(c.rx_bytes as nat),
        bytes_text((c.tx_bytes + c.rx_bytes) as nat),
        dec(c.packets as nat),
        ago_text(now, c.first_seen),
        ago_text(now, c.last_seen),
    ]
}

/// The cells of a connection row (see `conn_cells`).
pub fn conn_row_cells(c: &ConnRow, now: u64, local: String, remote: String) -> (cells: Vec<String>)
    requires
        c.tx_bytes + c.rx_bytes <= u64::MAX,
    ensures
        string_views(cells@) == conn_cells(*c, now, local@, remote@),
{
    let ghost (lv, rv) = (local@, remote@);
    let mut v: Vec<String> = Vec::new();
    push_string(&mut v, local);
    push_string(&mut v, u64_text(c.local.1 as u64));
    push_string(&mut v, remote);
    push_string(&mut v, u64_text(c.remote.1 as u64));
    push_string(&mut v, proto_name(c.proto).to_string());
    let name: Option<&str> = match &c.process_name {
        Some(n) => Some(n.as_str()),
        None => None,
    };
    proof {
        assert(opt_str_view(name) == opt_string_view(c.process_name));
    }
    push_string(&mut v, format_process(c.pid, name));
    push_string(&mut v, format_bytes(c.tx_bytes));
    push_string(&mut v, format_bytes(c.rx_bytes));
    push_string(&mut v, format_bytes(c.total_bytes()));
    push_string(&mut v, u64_text(c.packets));
    push_string(&mut v, format_ago(now, c.first_seen));
    push_string(&mut v, format_ago(now, c.last_seen));
    proof {
        assert(string_views(v@) =~= conn_cells(*c, now, lv, rv));
    }
    v
}

/// Width of the process tree's command column: what is left of the area
/// after the borders, the separators and the fixed columns, at least 20.
pub open spec fn cmd_width_of(area_width: u16) -> nat {
    let rest: int = area_width - 135;
    if rest > 20 { rest as nat } else { 20 }
}

/// Width of the process tree's command column (see `cmd_width_of`).
pub fn tree_cmd_width(area_width: u16) -> (r: usize)
    ensures
        r == cmd_width_of(area_width),
{
    let rest = area_width.saturating_sub(2 + 8 + 125);
    if rest > 20 { rest as usize } else { 20 }
}

/// The texts of a process line of the tree.
pub struct ProcessCells {
    /// `▾` when the children are shown, `▸` otherwise.
    pub marker: String,
    pub pid: String,
    pub name: String,
    pub conns: String,
    pub bps: String,
    pub bytes: String,
    pub user: String,
    /// `✓ alive` or `✗ dead`.
    pub status: String,
    /// The command line, one line per entry.
    pub cmd: Vec<String>,
    /// Height of the row in lines.
    pub height: u16,
}

/// The lines of the command cell: in wrap mode with a command, the command
/// word-wrapped at the column width; else the command on one line.
pub open spec fn cmd_lines(cmd: Seq<char>, wrap: bool, width: nat) -> Seq<Seq<char>> {
    if wrap && cmd.len() > 0 { wrapped_text(cmd, width) } else { seq![cmd] }
}

/// The row height of a command cell: its line count (capped at the largest
/// `u16`), at least one.
pub open spec fn cmd_height(lines: nat) -> u16 {
    if lines == 0 { 1 } else if lines > 0xffff { 0xffff } else { lines as u16 }
}

/// The texts of a process line (see `ProcessCells`).
pub fn process_cells(parent: &FrozenProcessRow, expanded: bool, wrap: bool, cmd_width: usize) -> (r: ProcessCells)
    ensures
        r.marker@ == (if expanded { "\u{25be}"@ } else { "\u{25b8}"@ }),
        r.pid@ == dec(parent.pid as nat),
        r.name@ == parent.name@,
        r.conns@ == dec(parent.agg.conn_count as nat),
        r.bps@ == bps_text(parent.agg.bps),
        r.bytes@ == bytes_text(parent.agg.bytes as nat),
        r.user@ == (match parent.user { Some(u) => u@, None => Seq::<char>::empty() }),
        r.status@ == (if parent.alive { "\u{2713} alive"@ } else { "\u{2717} dead"@ }),
        string_views(r.cmd@) == cmd_lines(parent.cmd@, wrap, cmd_width as nat),
        r.height == cmd_height(r.cmd@.len()),
{
    let (cmd, height) = if wrap && parent.cmd.unicode_len() > 0 {
        let lines = wrap_cmd(parent.cmd.as_str(), cmd_width);
        let n = lines.len();
        let h: u16 = if n == 0 { 1 } else if n > 0xffff { 0xffff } else { n as u16 };
        (lines, h)
    } else {
        let mut one: Vec<String> = Vec::new();
        one.push(parent.cmd.clone());
        proof {
            assert(string_views(one@) =~= seq![parent.cmd@]);
        }
        (one, 1u16)
    };
    ProcessCells {
        marker: if expanded { "\u{25be}".to_string() } else { "\u{25b8}".to_string() },
        pid: u64_text(parent.pid as u64),
        name: parent.name.clone(),
        conns: u64_text(parent.agg.conn_count),
        bps: format_bps(parent.agg.bps),
        bytes: format_bytes(parent.agg.bytes),
        user: match &parent.user {
            Some(u) => u.clone(),
            None => String::new(),
        },
        status: if parent.alive { "\u{2713} alive".to_string() } else { "\u{2717} dead".to_string() },
        cmd,
        height,
    }
}

/// The rate and byte total of a child line: a flow's own, a merged
/// connection's sums.
pub open spec fn child_traffic(c: ChildRow) -> (Rate, u64) {
    match c {
        ChildRow::Flow { stats, .. } => (stats.bps, stats.bytes),
        ChildRow::Conn { bps, bytes, .. } => (bps, bytes),
    }
}

/// The rate and byte texts of a child line (see `child_traffic`).
pub fn child_traffic_cells(c: &ChildRow) -> (r: (String, String))
    ensures
        r.0@ == bps_text(child_traffic(*c).0),
        r.1@ == bytes_text(child_traffic(*c).1 as nat),
{
    match c {
        ChildRow::Flow { stats, .. } => (format_bps(stats.bps), format_bytes(stats.bytes)),
        ChildRow::Conn { bps, bytes, .. } => (format_bps(*bps), format_bytes(*bytes)),
    }
}

/// The endpoint text of a child line: protocol, then the two ends (as
/// labelled by the caller) joined by `→` for a flow or `⇄` for a merged
/// connection, and the far end's port.
pub open spec fn child_text(c: ChildRow, a: Seq<char>, b: Seq<char>) -> Seq<char> {
    match c {
        ChildRow::Flow { key, .. } => seq![' ', ' ', '\u{2514}', ' '] + proto_text(key.proto) + seq![' '] + a
            + seq![' ', '\u{2192}', ' '] + b + seq![':'] + dec(key.dst_port as nat),
        ChildRow::Conn { proto, remote, .. } => seq![' ', ' ', '\u{2514}', ' '] + proto_text(proto) + seq![' '] + a
            + seq![' ', '\u{21c4}', ' '] + b + seq![':'] + dec(remote.1 as nat),
    }
}

/// The endpoint text of a child line (see `child_text`); `a` and `b` label
/// the source and destination of a flow, or the local and remote ends of a
/// connection.
pub fn child_endpoint_text(c: &ChildRow, a: &str, b: &str) -> (r: String)
    ensures
        r@ == child_text(*c, a@, b@),
{
    let mut out = String::new();
    out.push(' ');
    out.push(' ');
    out.push('\u{2514}');
    out.push(' ');
    match c {
        ChildRow::Flow { key, .. } => {
            push_text(&mut out, proto_name(key.proto));
            out.push(' ');
            push_text(&mut out, a);
            out.push(' ');
            out.push('\u{2192}');
            out.push(' ');
            push_text(&mut out, b);
            out.push(':');
            push_decimal(&mut out, key.dst_port as u64);
        },
        ChildRow::Conn { proto, remote, .. } => {
            push_text(&mut out, proto_name(*proto));
            out.push(' ');
            push_text(&mut out, a);
            out.push(' ');
            out.push('\u{21c4}');
            out.push(' ');
            push_text(&mut out, b);
            out.push(':');
            push_decimal(&mut out, remote.1 as u64);
        },
    }
    proof {
        assert(out@ =~= child_text(*c, a@, b@));
    }
    out
}

/// Width of the help overlay's key column: the longest key, in characters.
pub open spec fn key_column(entries: Seq<HelpEntry>) -> nat
    decreases entries.len(),
{
    if entries.len() == 0 {
        0
    } else {
        let rest = key_column(entries.drop_last());
        let w = entries.last().key@.len();
        if w > rest { w } else { rest }
    }
}

/// The key column of the help overlay (see `key_column`).
pub fn help_key_column(entries: &[HelpEntry]) -> (r: usize)
    ensures
        r == key_column(entries@),
{
    let mut w: usize = 0;
    let mut i: usize = 0;
    while i < entries.len()
        invariant
            i <= entries.len(),
            w == key_column(entries@.take(i as int)),
        decreases entries.len() - i,
    {
        proof {
            assert(entries@.take(i + 1).drop_last() =~= entries@.take(i as int));
        }
        let n = entries[i].key.unicode_len();
        if n > w {
            w = n;
        }
        i = i + 1;
    }
    proof {
        assert(entries@.take(entries.len() as int) =~= entries@);
    }
    w
}

/// Gap between a help entry's key and its description: the key padded to
/// the key column, plus three spaces.
pub fn help_gap(key_col: usize, key: &str) -> (r: usize)
    requires
        key_col < usize::MAX - 3,
    ensures
        r == (if key@.len() < key_col { key_col - key@.len() } else { 0 }) + 3,
{
    key_col.saturating_sub(key.unicode_len()) + 3
}

pub open spec fn iface_text(iface: Option<&str>) -> Seq<char> {
    match iface {
        Some(s) => s@,
        None => seq!['?'],
    }
}

/// The dashboard header's context: the rates sent and received, active and
/// total flow counts, the interface, then the packet drops when there were
/// any and a pause mark.
pub open spec fn dashboard_context_text(tx: Rate, rx: Rate, active: nat, expired: nat, dropped: nat,
    iface: Seq<char>, paused: bool) -> Seq<char>
{
    seq!['\u{2191}', ' '] + bps_text(tx) + seq![' ', ' ', '\u{2193}', ' '] + bps_text(rx) + seq![' ', ' ', '\u{b7}', ' ', ' ']
        + count_text(active) + " active \u{b7} "@ + count_text(active + expired) + " total  \u{b7}  "@ + iface
        + (if dropped > 0 { "  \u{b7}  drops "@ + count_text(dropped) } else { Seq::empty() })
        + (if paused { "  \u{b7}  PAUSED"@ } else { Seq::empty() })
}

/// The dashboard header's context (see `dashboard_context_text`).
pub fn dashboard_context(
    tx: Rate,
    rx: Rate,
    active: u64,
    expired: u64,
    dropped: u64,
    iface: Option<&str>,
    paused: bool,
) -> (r: String)
    requires
        active + expired <= u64::MAX,
    ensures
        r@ == dashboard_context_text(tx, rx, active as nat, expired as nat, dropped as nat, iface_text(iface), paused),
{
    let mut out = String::new();
    out.push('\u{2191}');
    out.push(' ');
    let tx_text = format_bps(tx);
    push_text(&mut out, tx_text.as_str());
    out.push(' ');
    out.push(' ');
    out.push('\u{2193}');
    out.push(' ');
    let rx_text = format_bps(rx);
    push_text(&mut out, rx_text.as_str());
    push_text(&mut out, "  \u{b7}  ");
    let a = format_count(active);
    push_text(&mut out, a.as_str());
    push_text(&mut out, " active \u{b7} ");
    let t = format_count(active + expired);
    push_text(&mut out, t.as_str());
    push_text(&mut out, " total  \u{b7}  ");
    match iface {
        Some(s) => push_text(&mut out, s),
        None => out.push('?'),
    }
    if dropped > 0 {
        push_text(&mut out, "  \u{b7}  drops ");
        let d = format_count(dropped);
        push_text(&mut out, d.as_str());
    }
    if paused {
        push_text(&mut out, "  \u{b7}  PAUSED");
    }
    proof {
        reveal_strlit("  \u{b7}  ");
        assert(out@ =~= dashboard_context_text(tx, rx, active as nat, expired as nat, dropped as nat,
            iface_text(iface), paused));
    }
    out
}

/// The processes header's context: the interface, the process count and a
/// pause mark.
pub open spec fn processes_context_text(iface: Seq<char>, procs: nat, paused: bool) -> Seq<char> {
    "iface: "@ + iface + " \u{b7} procs: "@ + dec(procs) + (if paused { " \u{b7} PAUSED"@ } else { Seq::empty() })
}

/// The processes header's context (see `processes_context_text`).
pub fn processes_context(iface: Option<&str>, procs: usize, paused: bool) -> (r: String)
    ensures
        r@ == processes_context_text(iface_text(iface), procs as nat, paused),
{
    let mut out = String::new();
    push_text(&mut out, "iface: ");
    match iface {
        Some(s) => push_text(&mut out, s),
        None => out.push('?'),
    }
    push_text(&mut out, " \u{b7} procs: ");
    push_decimal(&mut out, procs as u64);
    if paused {
        push_text(&mut out, " \u{b7} PAUSED");
    }
    out
}

/// The picker header's context: the interface count.
pub fn picker_context(count: usize) -> (r: String)
    ensures
        r@ == dec(count as nat) + " interfaces"@,
{
    let mut out = String::new();
    push_decimal(&mut out, count as u64);
    push_text(&mut out, " interfaces");
    out
}

/// The cursor kept on a table of `len` rows: at most the last row (the
/// first when the table is empty).
pub fn clamp_selected(selected: usize, len: usize) -> (r: usize)
    ensures
        r == (if len == 0 { 0 } else if selected < len { selected } else { (len - 1) as usize }),
{
    let last = len.saturating_sub(1);
    if selected < last { selected } else { last }
}

/// The label of an address in a table: the host name (middle-ellipsized to
/// the address column) when names are shown and one is known, else the
/// address itself.
pub open spec fn ip_label_text(names_mode: bool, addr: Seq<char>, host: Option<Seq<char>>) -> Seq<char> {
    if !names_mode {
        addr
    } else {
        match host {
            Some(h) => ellipsized(h, IP_COL_WIDTH as nat),
            None => addr,
        }
    }
}

/// Label an address for a table (see `ip_label_text`); `addr` is the
/// address as text and `host` its resolved name, if any.
pub fn ip_label(names_mode: bool, addr: String, host: Option<&str>) -> (r: String)
    ensures
        r@ == ip_label_text(names_mode, addr@, opt_str_view(host)),
{
    if !names_mode {
        return addr;
    }
    match host {
        Some(h) => ellipsize_middle(h, IP_COL_WIDTH),
        None => addr,
    }
}

/// The picker's error line: ` error: MESSAGE`, or nothing.
pub fn error_line(last_error: &Option<String>) -> (r: String)
    ensures
        r@ == (match last_error {
            Some(m) => " error: "@ + m@,
            None => Seq::<char>::empty(),
        }),
{
    let mut out = String::new();
    if let Some(m) = last_error {
        push_text(&mut out, " error: ");
        push_text(&mut out, m.as_str());
    }
    out
}

/// What the filter panel of the picker shows.
pub struct FilterPanel {
    pub title: &'static str,
    pub body: String,
    /// The body ends with the typing cursor.
    pub cursor: bool,
    /// The body is the placeholder for an empty filter.
    pub placeholder: bool,
}

/// The filter panel: while editing, the filter followed by the cursor;
/// otherwise the filter, or a placeholder when there is none.
pub fn filter_panel(editing: bool, filter: &str) -> (r: FilterPanel)
    ensures
        r.title@ == (if editing { "BPF filter (editing)"@ } else {
            "BPF filter (press 'f' to edit, e.g. `tcp port 443`)"@
        }),
        r.cursor == editing,
        r.placeholder == (!editing && filter@.len() == 0),
        r.body@ == (if r.placeholder { "(none \u{2014} capturing all traffic)"@ } else { filter@ }),
{
    let title = if editing { "BPF filter (editing)" } else { "BPF filter (press 'f' to edit, e.g. `tcp port 443`)" };
    let placeholder = !editing && filter.unicode_len() == 0;
    let body = if placeholder { "(none \u{2014} capturing all traffic)".to_string() } else { filter.to_string() };
    FilterPanel { title, body, cursor: editing, placeholder }
}

/// A help entry as its two texts: the key and what it does.
pub open spec fn entry_texts(e: HelpEntry) -> (Seq<char>, Seq<char>) {
    (e.key@, e.description@)
}

/// The help overlay of the dashboard.
pub open spec fn dashboard_help_texts() -> Seq<(Seq<char>, Seq<char>)> {
    seq![
        ("?"@, "toggle this help"@),
        ("q / Ctrl-C"@, "quit"@),
        ("esc / b"@, "back to interface picker"@),
        ("enter"@, "show flow details overlay"@),
        ("n"@, "toggle hostname/IP in src and dst columns"@),
        ("e"@, "show/hide expired (idle) flows"@),
        ("a"@, "aggregate flows into connections (\u{2191} tx / \u{2193} rx)"@),
        ("space"@, "toggle pause (display-only freeze)"@),
        ("j / \u{2193}"@, "select next"@),
        ("k / \u{2191}"@, "select previous"@),
        ("s"@, "cycle sort column (fixed \u{2192} src ip \u{2192} \u{2026} \u{2192} last pkt)"@),
        ("S"@, "toggle sort direction (asc/desc)"@),
        ("p"@, "open processes view"@),
    ]
}

/// The help overlay of the dashboard. (see `dashboard_help_texts`).
pub fn dashboard_help_entries() -> (r: Vec<HelpEntry<'static>>)
    ensures
        r@.map_values(|e: HelpEntry<'static>| entry_texts(e)) == dashboard_help_texts(),
{
    let mut v: Vec<HelpEntry<'static>> = Vec::new();
    v.push(HelpEntry::new("?", "toggle this help"));
    v.push(HelpEntry::new("q / Ctrl-C", "quit"));
    v.push(HelpEntry::new("esc / b", "back to interface picker"));
    v.push(HelpEntry::new("enter", "show flow details overlay"));
    v.push(HelpEntry::new("n", "toggle hostname/IP in src and dst columns"));
    v.push(HelpEntry::new("e", "show/hide expired (idle) flows"));
    v.push(HelpEntry::new("a", "aggregate flows into connections (\u{2191} tx / \u{2193} rx)"));
    v.push(HelpEntry::new("space", "toggle pause (display-only freeze)"));
    v.push(HelpEntry::new("j / \u{2193}", "select next"));
    v.push(HelpEntry::new("k / \u{2191}", "select previous"));
    v.push(HelpEntry::new("s", "cycle sort column (fixed \u{2192} src ip \u{2192} \u{2026} \u{2192} last pkt)"));
    v.push(HelpEntry::new("S", "toggle sort direction (asc/desc)"));
    v.push(HelpEntry::new("p", "open processes view"));
    proof {
        assert(v@.map_values(|e: HelpEntry<'static>| entry_texts(e)) =~= dashboard_help_texts());
    }
    v
}

/// The help overlay of the interface picker.
pub open spec fn picker_help_texts() -> Seq<(Seq<char>, Seq<char>)> {
    seq![
        ("?"@, "toggle this help"@),
        ("q / Ctrl-C"@, "quit"@),
        ("j / \u{2193}"@, "select next interface"@),
        ("k / \u{2191}"@, "select previous interface"@),
        ("enter"@, "open dashboard for selected interface"@),
        ("f / /"@, "edit BPF filter"@),
        ("r"@, "rescan interfaces"@),
    ]
}

/// The help overlay of the interface picker. (see `picker_help_texts`).
pub fn picker_help_entries() -> (r: Vec<HelpEntry<'static>>)
    ensures
        r@.map_values(|e: HelpEntry<'static>| entry_texts(e)) == picker_help_texts(),
{
    let mut v: Vec<HelpEntry<'static>> = Vec::new();
    v.push(HelpEntry::new("?", "toggle this help"));
    v.push(HelpEntry::new("q / Ctrl-C", "quit"));
    v.push(HelpEntry::new("j / \u{2193}", "select next interface"));
    v.push(HelpEntry::new("k / \u{2191}", "select previous interface"));
    v.push(HelpEntry::new("enter", "open dashboard for selected interface"));
    v.push(HelpEntry::new("f / /", "edit BPF filter"));
    v.push(HelpEntry::new("r", "rescan interfaces"));
    proof {
        assert(v@.map_values(|e: HelpEntry<'static>| entry_texts(e)) =~= picker_help_texts());
    }
    v
}

/// The help overlay of the processes screen.
pub open spec fn processes_help_texts() -> Seq<(Seq<char>, Seq<char>)> {
    seq![
        ("?"@, "toggle this help"@),
        ("q / Ctrl-C"@, "quit"@),
        ("esc / b"@, "back to dashboard"@),
        ("space"@, "toggle pause (display-only freeze)"@),
        ("j / \u{2193}"@, "select next"@),
        ("k / \u{2191}"@, "select previous"@),
        ("enter"@, "parent: expand/collapse \u{b7} child: show details"@),
        ("n"@, "toggle hostname/IP in child rows"@),
        ("e"@, "show/hide expired (idle) flow children"@),
        ("a"@, "aggregate flows into connections (\u{2191} tx / \u{2193} rx)"@),
        ("s"@, "cycle sort column (fixed \u{2192} pid \u{2192} \u{2026} \u{2192} user)"@),
        ("S"@, "toggle sort direction (asc/desc)"@),
        ("w"@, "wrap long cmdline strings"@),
    ]
}

/// The help overlay of the processes screen. (see `processes_help_texts`).
pub fn processes_help_entries() -> (r: Vec<HelpEntry<'static>>)
    ensures
        r@.map_values(|e: HelpEntry<'static>| entry_texts(e)) == processes_help_texts(),
{
    let mut v: Vec<HelpEntry<'static>> = Vec::new();
    v.push(HelpEntry::new("?", "toggle this help"));
    v.push(HelpEntry::new("q / Ctrl-C", "quit"));
    v.push(HelpEntry::new("esc / b", "back to dashboard"));
    v.push(HelpEntry::new("space", "toggle pause (display-only freeze)"));
    v.push(HelpEntry::new("j / \u{2193}", "select next"));
    v.push(HelpEntry::new("k / \u{2191}", "select previous"));
    v.push(HelpEntry::new("enter", "parent: expand/collapse \u{b7} child: show details"));
    v.push(HelpEntry::new("n", "toggle hostname/IP in child rows"));
    v.push(HelpEntry::new("e", "show/hide expired (idle) flow children"));
    v.push(HelpEntry::new("a", "aggregate flows into connections (\u{2191} tx / \u{2193} rx)"));
    v.push(HelpEntry::new("s", "cycle sort column (fixed \u{2192} pid \u{2192} \u{2026} \u{2192} user)"));
    v.push(HelpEntry::new("S", "toggle sort direction (asc/desc)"));
    v.push(HelpEntry::new("w", "wrap long cmdline strings"));
    proof {
        assert(v@.map_values(|e: HelpEntry<'static>| entry_texts(e)) =~= processes_help_texts());
    }
    v
}

} // verus!
