//! Ordered maps keyed by 128-bit numbers.

use std::collections::BTreeMap;
use vstd::prelude::*;

verus! {

/// A map without entries.
pub fn empty_map<V>() -> (r: BTreeMap<u128, V>)
    ensures
        r@ == Map::<u128, V>::empty(),
{
    BTreeMap::new()
}

/// What the map holds for `key`, if anything.
pub fn lookup<V>(map: &BTreeMap<u128, V>, key: u128) -> (r: Option<&V>)
    ensures
        match r {
            Some(v) => map@.contains_key(key) && map@[key] == *v,
            None => !map@.contains_key(key),
        },
{
    broadcast use {vstd::std_specs::btree::group_btree_axioms, vstd::laws_cmp::group_laws_cmp};

    map.get(&key)
}

/// Takes out of the map what it holds for `key`, if anything.
pub fn take<V>(map: &mut BTreeMap<u128, V>, key: u128) -> (r: Option<V>)
    ensures
        final(map)@ == old(map)@.remove(key),
        match r {
            Some(v) => old(map)@.contains_key(key) && old(map)@[key] == v,
            None => !old(map)@.contains_key(key),
        },
{
    broadcast use {vstd::std_specs::btree::group_btree_axioms, vstd::laws_cmp::group_laws_cmp};

    map.remove(&key)
}

/// Puts `value` into the map for `key`.
pub fn put<V>(map: &mut BTreeMap<u128, V>, key: u128, value: V)
    ensures
        final(map)@ == old(map)@.insert(key, value),
{
    broadcast use {vstd::std_specs::btree::group_btree_axioms, vstd::laws_cmp::group_laws_cmp};

    map.insert(key, value);
}

} // verus!
