//! The concurrent map and set types the spine and the fence graph keep,
//! and the operations on the transaction sets.

use vstd::prelude::*;
use dashmap::{DashMap, DashSet};
use rustc_hash::FxBuildHasher;

verus! {

#[verifier::external_type_specification]
#[verifier::external_body]
#[verifier::reject_recursive_types(K)]
#[verifier::reject_recursive_types(V)]
#[verifier::reject_recursive_types(S)]
pub struct ExDashMap<K, V, S>(DashMap<K, V, S>);

#[verifier::external_type_specification]
#[verifier::external_body]
#[verifier::reject_recursive_types(K)]
#[verifier::reject_recursive_types(S)]
pub struct ExDashSet<K, S>(DashSet<K, S>);

#[verifier::external_type_specification]
#[verifier::external_body]
pub struct ExFxBuildHasher(FxBuildHasher);

/// The transactions a set holds.
pub uninterp spec fn tx_members(s: DashSet<usize>) -> Set<usize>;

/// `DashSet::new`: an empty set.
#[verifier::external_body]
pub(crate) fn tx_set_new() -> (r: DashSet<usize>)
    ensures
        tx_members(r).len() == 0,
        tx_members(r).finite(),
{
    DashSet::new()
}

/// `DashSet::insert`.
#[verifier::external_body]
pub(crate) fn tx_set_insert(s: &mut DashSet<usize>, x: usize)
    ensures
        tx_members(*final(s)) == tx_members(*old(s)).insert(x),
{
    s.insert(x);
}

/// `DashSet::contains`.
#[verifier::external_body]
pub(crate) fn tx_set_contains(s: &DashSet<usize>, x: usize) -> (r: bool)
    ensures
        r == tx_members(*s).contains(x),
{
    s.contains(&x)
}

/// `DashSet::remove`.
#[verifier::external_body]
pub(crate) fn tx_set_remove(s: &mut DashSet<usize>, x: usize)
    ensures
        tx_members(*final(s)) == tx_members(*old(s)).remove(x),
{
    s.remove(&x);
}

} // verus!
