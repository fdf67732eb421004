//! Three-way comparisons of the values tables are sorted by: integers,
//! addresses and text. A comparison is `-1` (less), `0` (equal) or `1`.

use vstd::prelude::*;
use crate::flow::{IpAddress, Rate, rate_rank, ip_lt};
use crate::common::SortDirection;
use crate::text::chars_of;

verus! {

pub open spec fn three_way(a: int, b: int) -> int {
    if a < b {
        -1
    } else if a > b {
        1
    } else {
        0
    }
}

pub fn compare_u64(a: u64, b: u64) -> (r: i8)
    ensures
        r == three_way(a as int, b as int),
        -1 <= r <= 1,
{
    if a < b {
        -1
    } else if a > b {
        1
    } else {
        0
    }
}

pub fn compare_i64(a: i64, b: i64) -> (r: i8)
    ensures
        r == three_way(a as int, b as int),
        -1 <= r <= 1,
{
    if a < b {
        -1
    } else if a > b {
        1
    } else {
        0
    }
}

/// Address order: IPv4 before IPv6, then by value.
pub open spec fn order_ip(a: IpAddress, b: IpAddress) -> int {
    if a.v6 != b.v6 {
        if b.v6 { -1 } else { 1 }
    } else {
        three_way(a.bits as int, b.bits as int)
    }
}

pub fn compare_ip(a: &IpAddress, b: &IpAddress) -> (r: i8)
    ensures
        r == order_ip(*a, *b),
        -1 <= r <= 1,
{
    if a.v6 != b.v6 {
        if b.v6 { -1 } else { 1 }
    } else if a.bits < b.bits {
        -1
    } else if a.bits > b.bits {
        1
    } else {
        0
    }
}

/// Rate order: by value (see `rate_rank`).
pub open spec fn order_rate(a: Rate, b: Rate) -> int {
    three_way(rate_rank(a), rate_rank(b))
}

pub fn compare_rate(a: &Rate, b: &Rate) -> (r: i8)
    ensures
        r == order_rate(*a, *b),
        -1 <= r <= 1,
{
    compare_i64(a.rank(), b.rank())
}

/// Text order: lexicographic by character code, a proper prefix first (the
/// order of `str`, whose UTF-8 bytes sort as their code points do).
pub open spec fn order_text(a: Seq<char>, b: Seq<char>) -> int
    decreases a.len(),
{
    if a.len() == 0 {
        if b.len() == 0 { 0 } else { -1 }
    } else if b.len() == 0 {
        1
    } else if (a[0] as u32) < (b[0] as u32) {
        -1
    } else if (a[0] as u32) > (b[0] as u32) {
        1
    } else {
        order_text(a.drop_first(), b.drop_first())
    }
}

/// A text comparison is always -1, 0 or 1.
pub proof fn lemma_order_text_range(a: Seq<char>, b: Seq<char>)
    ensures
        -1 <= order_text(a, b) <= 1,
    decreases a.len(),
{
    if a.len() > 0 && b.len() > 0 {
        lemma_order_text_range(a.drop_first(), b.drop_first());
    }
}

/// Text comparison is antisymmetric.
/// An address at one position and one at a later position are in direction
/// `d` (IPv4 before IPv6, then by value).
pub open spec fn ip_placed(a: IpAddress, b: IpAddress, d: SortDirection) -> bool {
    match d {
        SortDirection::Asc => !ip_lt(b, a),
        SortDirection::Desc => !ip_lt(a, b),
    }
}

/// Process attribution at one position (`pi`, named `ni`) and at a later
/// one (`pj`, `nj`) are in direction `d`: ascending, attributed rows come
/// before unattributed ones and attributed rows run by name, then PID;
/// descending, the reverse.
pub open spec fn process_placed(pi: Option<u32>, ni: Seq<char>, pj: Option<u32>, nj: Seq<char>, d: SortDirection) -> bool {
    match d {
        SortDirection::Asc => {
            &&& pj is Some ==> pi is Some
            &&& pi is Some && pj is Some ==> order_text(ni, nj) < 0 || (order_text(ni, nj) == 0 && pi->0 <= pj->0)
        },
        SortDirection::Desc => {
            &&& pi is Some ==> pj is Some
            &&& pi is Some && pj is Some ==> order_text(nj, ni) < 0 || (order_text(nj, ni) == 0 && pj->0 <= pi->0)
        },
    }
}

pub proof fn lemma_order_text_antisymmetric(a: Seq<char>, b: Seq<char>)
    ensures
        order_text(a, b) == -order_text(b, a),
    decreases a.len(),
{
    if a.len() > 0 && b.len() > 0 {
        lemma_order_text_antisymmetric(a.drop_first(), b.drop_first());
    }
}

/// Text comparison orders texts transitively.
pub proof fn lemma_order_text_transitive(a: Seq<char>, b: Seq<char>, c: Seq<char>)
    ensures
        order_text(a, b) <= 0 && order_text(b, c) <= 0 ==> order_text(a, c) <= 0,
    decreases a.len(),
{
    if a.len() > 0 && b.len() > 0 && c.len() > 0 {
        lemma_order_text_transitive(a.drop_first(), b.drop_first(), c.drop_first());
    }
}

/// Three-way comparison of integers is antisymmetric and transitive.
pub proof fn lemma_three_way_order(x: int, y: int, z: int)
    ensures
        three_way(x, y) == -three_way(y, x),
        three_way(x, y) <= 0 && three_way(y, z) <= 0 ==> three_way(x, z) <= 0,
{
}

pub fn compare_str(a: &str, b: &str) -> (r: i8)
    ensures
        r == order_text(a@, b@),
        -1 <= r <= 1,
{
    proof {
        lemma_order_text_range(a@, b@);
    }
    let av = chars_of(a);
    let bv = chars_of(b);
    let mut i: usize = 0;
    proof {
        assert(a@.skip(0) =~= a@);
        assert(b@.skip(0) =~= b@);
    }
    while i < av.len() && i < bv.len()
        invariant
            av@ == a@,
            bv@ == b@,
            i <= av.len(),
            i <= bv.len(),
            order_text(a@, b@) == order_text(a@.skip(i as int), b@.skip(i as int)),
        decreases av.len() - i,
    {
        let x = av[i] as u32;
        let y = bv[i] as u32;
        proof {
            assert(a@.skip(i as int)[0] == av@[i as int]);
            assert(b@.skip(i as int)[0] == bv@[i as int]);
        }
        if x < y {
            return -1;
        }
        if x > y {
            return 1;
        }
        proof {
            assert(a@.skip(i as int).drop_first() =~= a@.skip(i + 1));
            assert(b@.skip(i as int).drop_first() =~= b@.skip(i + 1));
        }
        i = i + 1;
    }
    proof {
        assert(a@.skip(i as int).len() == a@.len() - i);
    }
    if i < av.len() {
        1
    } else if i < bv.len() {
        -1
    } else {
        0
    }
}

} // verus!
