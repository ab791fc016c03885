//! The `bevy::platform` hash set that a voxel map keeps of its known cells,
//! declared for Verus, with the few operations the map uses.

use vstd::prelude::*;
use bevy::platform::collections::HashSet;
use bevy::platform::hash::FixedHasher;

verus! {

#[verifier::external_type_specification]
#[verifier::external_body]
pub struct ExFixedHasher(FixedHasher);

#[verifier::external_type_specification]
#[verifier::external_body]
#[verifier::reject_recursive_types(T)]
#[verifier::reject_recursive_types(S)]
pub struct ExHashSet<T, S>(HashSet<T, S>);

/// The flat cell indices that a set of known cells holds.
pub uninterp spec fn held_indices(set: HashSet<u32, FixedHasher>) -> Set<u32>;

/// `HashSet::default` of `bevy::platform`: claimed to hold no index.
#[verifier::external_body]
pub(crate) fn index_set_new() -> (s: HashSet<u32, FixedHasher>)
    ensures
        held_indices(s) == Set::<u32>::empty(),
{
    HashSet::default()
}

/// `HashSet::insert` of `bevy::platform`: claimed to add `v` to the held
/// indices, leaving the others, and to report whether `v` was absent.
#[verifier::external_body]
pub(crate) fn index_set_insert(s: &mut HashSet<u32, FixedHasher>, v: u32) -> (fresh: bool)
    ensures
        held_indices(*final(s)) == held_indices(*old(s)).insert(v),
        fresh == !held_indices(*old(s)).contains(v),
{
    s.insert(v)
}

/// `HashSet::remove` of `bevy::platform`: claimed to drop `v` from the held
/// indices, leaving the others, and to report whether `v` was present.
#[verifier::external_body]
pub(crate) fn index_set_remove(s: &mut HashSet<u32, FixedHasher>, v: u32) -> (was: bool)
    ensures
        held_indices(*final(s)) == held_indices(*old(s)).remove(v),
        was == held_indices(*old(s)).contains(v),
{
    s.remove(&v)
}

/// `HashSet::iter` of `bevy::platform`, copied out: claimed to hand out each
/// held index exactly once. The order is the hash table's and is left open.
#[verifier::external_body]
pub(crate) fn index_set_elements(s: &HashSet<u32, FixedHasher>) -> (v: Vec<u32>)
    ensures
        v@.no_duplicates(),
        v@.to_set() == held_indices(*s),
{
    s.iter().copied().collect()
}

/// `Clone::clone` of the `bevy::platform` hash set: claimed to hold the
/// same indices.
#[verifier::external_body]
pub(crate) fn index_set_clone(s: &HashSet<u32, FixedHasher>) -> (c: HashSet<u32, FixedHasher>)
    ensures
        held_indices(c) == held_indices(*s),
{
    s.clone()
}

} // verus!
