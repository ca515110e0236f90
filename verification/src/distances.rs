//! The map from nodes to their distances.

use std::collections::BTreeMap;
use vstd::prelude::*;

verus! {

/// A map without distances.
pub fn no_distances() -> (r: BTreeMap<u128, u8>)
    ensures
        r@ == Map::<u128, u8>::empty(),
        r@.dom().finite(),
{
    broadcast use {vstd::std_specs::btree::group_btree_axioms, vstd::laws_cmp::group_laws_cmp};

    BTreeMap::new()
}

/// The recorded distance of `key`, or the largest 8-bit number where none
/// is recorded.
pub fn distance_or_max(distances: &BTreeMap<u128, u8>, key: u128) -> (r: u8)
    ensures
        r == if distances@.contains_key(key) {
            distances@[key]
        } else {
            u8::MAX
        },
{
    broadcast use {vstd::std_specs::btree::group_btree_axioms, vstd::laws_cmp::group_laws_cmp};

    match distances.get(&key) {
        Some(d) => *d,
        None => u8::MAX,
    }
}

/// The recorded distance of `key`, if one is recorded.
pub fn distance_of(distances: &BTreeMap<u128, u8>, key: u128) -> (r: Option<u8>)
    ensures
        r == if distances@.contains_key(key) {
            Some(distances@[key])
        } else {
            None
        },
{
    broadcast use {vstd::std_specs::btree::group_btree_axioms, vstd::laws_cmp::group_laws_cmp};

    match distances.get(&key) {
        Some(d) => Some(*d),
        None => None,
    }
}

/// Records `distance` for `key`.
pub fn record(distances: &mut BTreeMap<u128, u8>, key: u128, distance: u8)
    ensures
        final(distances)@ == old(distances)@.insert(key, distance),
        final(distances)@.dom().finite(),
{
    broadcast use {vstd::std_specs::btree::group_btree_axioms, vstd::laws_cmp::group_laws_cmp};

    distances.insert(key, distance);
}

} // verus!
