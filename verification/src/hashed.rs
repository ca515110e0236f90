//! Hash maps and hash sets keyed by 128-bit values, with the fast hasher of
//! `rustc_hash`. What is stated of them here is taken on trust from the
//! documentation of `std::collections` and the source of `rustc_hash`.

use rustc_hash::{FxHashMap, FxHashSet};
use vstd::prelude::*;

verus! {

/// `rustc_hash::FxBuildHasher`: a hasher without state, which hashes equal
/// keys alike.
#[verifier::external_type_specification]
#[verifier::external_body]
pub struct ExFxBuildHasher(rustc_hash::FxBuildHasher);

/// Whether `entries` holds each entry of `map` once, and nothing else.
pub open spec fn entries_of<V>(entries: Seq<(u128, &V)>, map: Map<u128, V>) -> bool {
    &&& forall|i: int|
        0 <= i < entries.len() ==> map.contains_key((#[trigger] entries[i]).0) && map[entries[i].0]
            == *entries[i].1
    &&& forall|i: int, j: int|
        0 <= i < j < entries.len() ==> (#[trigger] entries[i]).0 != (#[trigger] entries[j]).0
    &&& forall|k: u128|
        map.contains_key(k) ==> exists|i: int| 0 <= i < entries.len() && (#[trigger] entries[i]).0 == k
}

/// Whether `elements` holds each element of `set` once, and nothing else.
pub open spec fn elements_of(elements: Seq<u128>, set: Set<u128>) -> bool {
    &&& forall|i: int| 0 <= i < elements.len() ==> set.contains(#[trigger] elements[i])
    &&& forall|i: int, j: int|
        0 <= i < j < elements.len() ==> #[trigger] elements[i] != #[trigger] elements[j]
    &&& forall|k: u128|
        set.contains(k) ==> exists|i: int| 0 <= i < elements.len() && #[trigger] elements[i] == k
}

/// The map without entries.
pub open spec fn no_entries<V>() -> Map<u128, V> {
    Map::empty()
}

/// `FxHashMap::default`: a map without entries.
#[verifier::external_body]
pub(crate) fn map_new<V>() -> (map: FxHashMap<u128, V>)
    ensures
        map@ == no_entries::<V>(),
{
    FxHashMap::default()
}

/// `HashMap::insert`: afterwards the map holds `value` for `key`, and for
/// every other key what it held.
#[verifier::external_body]
pub(crate) fn map_insert<V>(m: &mut FxHashMap<u128, V>, key: u128, value: V)
    ensures
        final(m)@ == old(m)@.insert(key, value),
{
    m.insert(key, value);
}

/// `HashMap::remove`: hands out what the map held for `key`, if anything,
/// and afterwards the map holds nothing for `key`.
#[verifier::external_body]
pub(crate) fn map_remove<V>(m: &mut FxHashMap<u128, V>, key: u128) -> (r: Option<V>)
    ensures
        final(m)@ == old(m)@.remove(key),
        r == if old(m)@.contains_key(key) {
            Some(old(m)@[key])
        } else {
            None::<V>
        },
{
    m.remove(&key)
}

/// `HashMap::iter`, collected: every entry of the map once, in an order
/// that is not stated.
#[verifier::external_body]
pub(crate) fn map_entries<'a, V>(m: &'a FxHashMap<u128, V>) -> (r: Vec<(u128, &'a V)>)
    ensures
        entries_of(r@, m@),
{
    m.iter().map(|(k, v)| (*k, v)).collect()
}

/// `FxHashSet::default`: a set without elements.
#[verifier::external_body]
pub(crate) fn set_new() -> (s: FxHashSet<u128>)
    ensures
        s@ == Set::<u128>::empty(),
{
    FxHashSet::default()
}

/// `HashSet::insert`: afterwards the set holds `value` and what it held.
#[verifier::external_body]
pub(crate) fn set_insert(s: &mut FxHashSet<u128>, value: u128)
    ensures
        final(s)@ == old(s)@.insert(value),
{
    s.insert(value);
}

/// `HashSet::iter`, collected: every element of the set once, in an order
/// that is not stated.
#[verifier::external_body]
pub(crate) fn set_elements(s: &FxHashSet<u128>) -> (r: Vec<u128>)
    ensures
        elements_of(r@, s@),
{
    s.iter().copied().collect()
}

} // verus!
