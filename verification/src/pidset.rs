//! The set of expanded processes of the processes tree, a `FxHashSet` of
//! PIDs from `rustc_hash`, behind contracts over the PIDs it holds.

use vstd::prelude::*;
use std::collections::HashSet;
use rustc_hash::FxBuildHasher;

verus! {

/// `rustc_hash::FxBuildHasher`, the hasher builder of `FxHashSet`.
#[verifier::external_type_specification]
#[verifier::external_body]
pub struct ExFxBuildHasher(FxBuildHasher);

/// The PIDs held by an `FxHashSet<u32>`.
pub uninterp spec fn held_pids(s: HashSet<u32, FxBuildHasher>) -> Set<u32>;

/// `FxHashSet::<u32>::default()` (`HashSet::default`): a new set holding no
/// PID.
#[verifier::external_body]
pub(crate) fn pid_set_new() -> (s: HashSet<u32, FxBuildHasher>)
    ensures
        held_pids(s) == Set::<u32>::empty(),
{
    HashSet::default()
}

/// `HashSet::contains`: whether the set holds `pid`.
#[verifier::external_body]
pub(crate) fn pid_set_contains(s: &HashSet<u32, FxBuildHasher>, pid: u32) -> (r: bool)
    ensures
        r == held_pids(*s).contains(pid),
{
    s.contains(&pid)
}

/// `HashSet::insert`: the set afterwards holds `pid` besides what it held;
/// the result says whether `pid` was absent before.
#[verifier::external_body]
pub(crate) fn pid_set_insert(s: &mut HashSet<u32, FxBuildHasher>, pid: u32) -> (r: bool)
    ensures
        held_pids(*final(s)) == held_pids(*old(s)).insert(pid),
        r == !held_pids(*old(s)).contains(pid),
{
    s.insert(pid)
}

/// `HashSet::remove`: the set afterwards holds what it held but `pid`; the
/// result says whether `pid` was there.
#[verifier::external_body]
pub(crate) fn pid_set_remove(s: &mut HashSet<u32, FxBuildHasher>, pid: u32) -> (r: bool)
    ensures
        held_pids(*final(s)) == held_pids(*old(s)).remove(pid),
        r == held_pids(*old(s)).contains(pid),
{
    s.remove(&pid)
}

} // verus!
