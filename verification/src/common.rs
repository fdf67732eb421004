//! Cross-screen helpers shared by the dashboard, picker and processes screens.

use vstd::prelude::*;
use crate::flow::{Direction, Endpoint, FlowKey, endpoint_eq, endpoint_le, endpoint_less_eq};
use crate::format::{IPPROTO_ICMP, IPPROTO_TCP, IPPROTO_UDP};
use crate::text::chars_of;

verus! {

/// Sort direction shared by every sortable table.
#[derive(Debug, Clone, Copy, PartialEq, Eq, Structural)]
pub enum SortDirection {
    Asc,
    Desc,
}

/// `x` comes no later than `y` in direction `d`: not larger when
/// ascending, not smaller when descending.
pub open spec fn no_later(x: int, y: int, d: SortDirection) -> bool {
    match d {
        SortDirection::Asc => x <= y,
        SortDirection::Desc => y <= x,
    }
}

/// A sort key at position `i` and one at a later position `j` are in
/// direction `d`, and equal keys keep their tie-break order (`ti <= tj`).
pub open spec fn placed_in_order(x: int, y: int, ti: int, tj: int, d: SortDirection) -> bool {
    &&& no_later(x, y, d)
    &&& x == y ==> ti <= tj
}

/// The text of an optional name, empty when there is none.
pub open spec fn name_text(n: Option<String>) -> Seq<char> {
    match n {
        Some(s) => s@,
        None => Seq::empty(),
    }
}

impl SortDirection {
    /// The opposite direction.
    pub open spec fn flipped(self) -> SortDirection {
        match self {
            SortDirection::Asc => SortDirection::Desc,
            SortDirection::Desc => SortDirection::Asc,
        }
    }

    pub fn toggle(self) -> (r: Self)
        ensures
            r == self.flipped(),
    {
        match self {
            SortDirection::Asc => SortDirection::Desc,
            SortDirection::Desc => SortDirection::Asc,
        }
    }
}

/// Toggling twice gives back the direction one started from, and a toggle
/// always changes the direction.
pub proof fn lemma_toggle_involution(d: SortDirection)
    ensures
        d.flipped().flipped() == d,
        d.flipped() != d,
{
}
impl Default for SortDirection {
    fn default() -> (r: SortDirection)
        ensures
            r == SortDirection::Asc,
    {
        SortDirection::Asc
    }
}

/// Glyph marking the sorted column in a table header.
pub fn sort_arrow(direction: SortDirection) -> (r: &'static str)
    ensures
        r@ == (match direction {
            SortDirection::Asc => "\u{25b2}"@,
            SortDirection::Desc => "\u{25bc}"@,
        }),
{
    match direction {
        SortDirection::Asc => "\u{25b2}",
        SortDirection::Desc => "\u{25bc}",
    }
}

/// Short name of an IP protocol number.
pub open spec fn proto_text(p: u8) -> Seq<char> {
    if p == IPPROTO_TCP {
        "TCP"@
    } else if p == IPPROTO_UDP {
        "UDP"@
    } else if p == IPPROTO_ICMP {
        "ICMP"@
    } else {
        "?"@
    }
}

/// Map an IP protocol number to a short human-readable name.
pub fn proto_name(p: u8) -> (r: &'static str)
    ensures
        r@ == proto_text(p),
{
    if p == IPPROTO_TCP {
        "TCP"
    } else if p == IPPROTO_UDP {
        "UDP"
    } else if p == IPPROTO_ICMP {
        "ICMP"
    } else {
        "?"
    }
}

/// Width budget for address/hostname columns.
pub const IP_COL_WIDTH: usize = 28;

/// The horizontal ellipsis that replaces the middle of a long name.
pub open spec fn ellipsis() -> char {
    '\u{2026}'
}

/// Length of the tail kept by `ellipsize_middle` when `max >= 2`: at least as
/// long as the head.
pub open spec fn ellipsis_tail_len(max: nat) -> nat {
    (((max - 1) as nat) / 2 + ((max - 1) as nat) % 2) as nat
}

pub open spec fn ellipsis_head_len(max: nat) -> nat {
    ((max - 1) as nat - ellipsis_tail_len(max)) as nat
}

/// `s` fitted into `max` characters: unchanged if it fits, a lone ellipsis
/// if `max <= 1`, else its first and last characters around an ellipsis.
pub open spec fn ellipsized(s: Seq<char>, max: nat) -> Seq<char> {
    if s.len() <= max {
        s
    } else if max <= 1 {
        seq![ellipsis()]
    } else {
        s.take(ellipsis_head_len(max) as int) + seq![ellipsis()]
            + s.skip(s.len() - ellipsis_tail_len(max))
    }
}

/// Middle-ellipsize `s` so it fits `max` chars, keeping the first leading
/// label and the tail.
pub fn ellipsize_middle(s: &str, max: usize) -> (r: String)
    ensures
        r@ == ellipsized(s@, max as nat),
{
    let cs = chars_of(s);
    let count = cs.len();
    let mut out = String::new();
    if count <= max {
        let mut i: usize = 0;
        while i < count
            invariant
                cs@ == s@,
                count == cs.len(),
                i <= count,
                out@ == cs@.take(i as int),
            decreases count - i,
        {
            proof {
                assert(cs@.take(i + 1) =~= cs@.take(i as int).push(cs@[i as int]));
            }
            out.push(cs[i]);
            i = i + 1;
        }
        proof {
            assert(cs@.take(count as int) =~= cs@);
        }
        return out;
    }
    if max <= 1 {
        out.push('\u{2026}');
        proof {
            assert(out@ =~= ellipsized(s@, max as nat));
        }
        return out;
    }
    let budget = max - 1;
    let tail_len = budget / 2 + budget % 2;
    let head_len = budget - tail_len;
    let mut i: usize = 0;
    while i < head_len
        invariant
            cs@ == s@,
            count == cs.len(),
            head_len < count,
            i <= head_len,
            out@ == cs@.take(i as int),
        decreases head_len - i,
    {
        proof {
            assert(cs@.take(i + 1) =~= cs@.take(i as int).push(cs@[i as int]));
        }
        out.push(cs[i]);
        i = i + 1;
    }
    out.push('\u{2026}');
    let start = count - tail_len;
    let mut j: usize = start;
    while j < count
        invariant
            cs@ == s@,
            count == cs.len(),
            start <= j <= count,
            out@ == cs@.take(head_len as int) + seq!['\u{2026}'] + cs@.subrange(start as int, j as int),
        decreases count - j,
    {
        proof {
            assert(cs@.subrange(start as int, j + 1) =~= cs@.subrange(start as int, j as int).push(cs@[j as int]));
        }
        out.push(cs[j]);
        j = j + 1;
    }
    proof {
        assert(cs@.subrange(start as int, count as int) =~= cs@.skip(start as int));
        assert(out@ =~= ellipsized(s@, max as nat));
    }
    out
}

/// An ellipsized name fits its budget: it is the original when that fits,
/// else exactly `max` characters (one when `max` is 0); when it is shortened
/// with room for more than the ellipsis, it starts with the original's first
/// characters followed by the ellipsis, and the tail kept is at least as long
/// as that head.
pub proof fn lemma_ellipsized_fits(s: Seq<char>, max: nat)
    ensures
        s.len() <= max ==> ellipsized(s, max) == s,
        s.len() > max && max >= 1 ==> ellipsized(s, max).len() == max,
        s.len() > max && max == 0 ==> ellipsized(s, max).len() == 1,
        s.len() > max && max >= 2 ==> ellipsis_tail_len(max) >= ellipsis_head_len(max)
            && ellipsized(s, max).take(ellipsis_head_len(max) as int) == s.take(ellipsis_head_len(max) as int)
            && ellipsized(s, max)[ellipsis_head_len(max) as int] == ellipsis()
            && ellipsized(s, max).skip(ellipsis_head_len(max) as int + 1) == s.skip(s.len() - ellipsis_tail_len(max)),
{
    if s.len() > max && max >= 2 {
        let r = ellipsized(s, max);
        let h = ellipsis_head_len(max) as int;
        assert(r.take(h) =~= s.take(h));
        assert(r.skip(h + 1) =~= s.skip(s.len() - ellipsis_tail_len(max)));
    }
}

/// Canonical identity shared by a flow and its reverse: the two endpoints
/// ordered low to high.
#[derive(Debug, Clone, Copy, PartialEq, Eq, Hash)]
pub struct ConnKey {
    pub proto: u8,
    pub lo: Endpoint,
    pub hi: Endpoint,
}

pub open spec fn conn_key_of(k: FlowKey) -> ConnKey {
    if endpoint_le(k.src(), k.dst()) {
        ConnKey { proto: k.proto, lo: k.src(), hi: k.dst() }
    } else {
        ConnKey { proto: k.proto, lo: k.dst(), hi: k.src() }
    }
}

/// Group key pairing a flow with its reverse.
pub fn conn_key(k: &FlowKey) -> (r: ConnKey)
    ensures
        r == conn_key_of(*k),
{
    let a: Endpoint = (k.src_ip, k.src_port);
    let b: Endpoint = (k.dst_ip, k.dst_port);
    if endpoint_less_eq(&a, &b) {
        ConnKey { proto: k.proto, lo: a, hi: b }
    } else {
        ConnKey { proto: k.proto, lo: b, hi: a }
    }
}

pub fn conn_key_eq(a: &ConnKey, b: &ConnKey) -> (r: bool)
    ensures
        r == (*a == *b),
{
    a.proto == b.proto && endpoint_eq(&a.lo, &b.lo) && endpoint_eq(&a.hi, &b.hi)
}

proof fn lemma_endpoint_order_total(a: Endpoint, b: Endpoint)
    ensures
        endpoint_le(a, b) || endpoint_le(b, a),
        endpoint_le(a, b) && endpoint_le(b, a) ==> a == b,
{
}

/// A flow and its reverse share their connection key, and two flows share a
/// key only if they are the same flow or each other's reverse.
pub proof fn lemma_conn_key_pairs_reverse(k1: FlowKey, k2: FlowKey)
    ensures
        conn_key_of(k1) == conn_key_of(k1.reversed()),
        conn_key_of(k1) == conn_key_of(k2) ==> k2 == k1 || k2 == k1.reversed(),
        conn_key_of(k1).lo == k1.src() || conn_key_of(k1).lo == k1.dst(),
        endpoint_le(conn_key_of(k1).lo, conn_key_of(k1).hi),
{
    lemma_endpoint_order_total(k1.src(), k1.dst());
    lemma_endpoint_order_total(k2.src(), k2.dst());
}

/// A flow's endpoints oriented as `(local, remote)`.
#[derive(Debug, Clone, Copy, PartialEq, Eq)]
pub struct Endpoints {
    pub local: Endpoint,
    pub remote: Endpoint,
}

pub open spec fn oriented(k: FlowKey, dir: Direction) -> Endpoints {
    match dir {
        Direction::Outbound => Endpoints { local: k.src(), remote: k.dst() },
        Direction::Inbound => Endpoints { local: k.dst(), remote: k.src() },
        _ => Endpoints { local: conn_key_of(k).lo, remote: conn_key_of(k).hi },
    }
}

/// Orient one flow's endpoints for display: the source is local for an
/// outbound flow, the destination for an inbound one; otherwise the
/// canonical lower endpoint stands as local.
pub fn orient(k: &FlowKey, dir: Direction) -> (r: Endpoints)
    ensures
        r == oriented(*k, dir),
{
    match dir {
        Direction::Outbound => Endpoints { local: (k.src_ip, k.src_port), remote: (k.dst_ip, k.dst_port) },
        Direction::Inbound => Endpoints { local: (k.dst_ip, k.dst_port), remote: (k.src_ip, k.src_port) },
        _ => {
            let ck = conn_key(k);
            Endpoints { local: ck.lo, remote: ck.hi }
        },
    }
}

/// The two halves of one connection orient to the same local and remote
/// endpoints when one is outbound and the other inbound, and also when
/// neither side is known to be local.
pub proof fn lemma_orient_halves_agree(k: FlowKey)
    ensures
        oriented(k, Direction::Outbound) == oriented(k.reversed(), Direction::Inbound),
        oriented(k, Direction::Unknown) == oriented(k.reversed(), Direction::Unknown),
        oriented(k, Direction::Local) == oriented(k.reversed(), Direction::Local),
        oriented(k, Direction::Unknown).local == conn_key_of(k).lo,
{
    lemma_conn_key_pairs_reverse(k, k);
}

} // verus!
