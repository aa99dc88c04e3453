//! Hash maps and sets with the Fx hasher, as the verified code sees them.
//!
//! `rustc_hash::FxHashMap` and `rustc_hash::FxHashSet` are the map and the
//! set of `std::collections` with `rustc_hash::FxHasher` for hasher. A map
//! is known by the `Map` of its entries and a set by the `Set` of its items.
//! None of the functions in this file is proved: each makes one call on such
//! a collection and states what the documentation of `std` says of the call.
//! Nothing is said of the order in which a collection hands out what it
//! holds.

use rustc_hash::{FxHashMap, FxHashSet, FxHasher};
use std::hash::{BuildHasherDefault, Hash};
use vstd::prelude::*;
use vstd::std_specs::hash::obeys_key_model;

verus! {

/// `rustc_hash::FxHasher`, carried through and never looked into.
#[verifier::external_type_specification]
#[verifier::external_body]
pub struct ExFxHasher(FxHasher);

/// `std::hash::BuildHasherDefault`, carried through and never looked into.
#[verifier::external_type_specification]
#[verifier::external_body]
#[verifier::reject_recursive_types(H)]
pub struct ExBuildHasherDefault<H>(BuildHasherDefault<H>);

/// `HashMap::insert`: afterwards the map holds `value` under `key` and is
/// otherwise as before; the value that `key` had, if any, is returned.
#[verifier::external_body]
pub(crate) fn map_insert<K: Eq + Hash, V>(
    map: &mut FxHashMap<K, V>,
    key: K,
    value: V,
) -> (previous: Option<V>)
    requires
        obeys_key_model::<K>(),
    ensures
        final(map)@ == old(map)@.insert(key, value),
        previous == if old(map)@.contains_key(key) {
            Some(old(map)@[key])
        } else {
            None
        },
{
    map.insert(key, value)
}

/// `HashMap::get`: the value under `key`, if the map has one.
#[verifier::external_body]
pub(crate) fn map_get<'a, K: Eq + Hash, V>(
    map: &'a FxHashMap<K, V>,
    key: &K,
) -> (found: Option<&'a V>)
    requires
        obeys_key_model::<K>(),
    ensures
        found == if map@.contains_key(*key) {
            Some(&map@[*key])
        } else {
            None
        },
{
    map.get(key)
}

/// `HashMap::get_mut`, for a key that the map has: the place of the value
/// under `key`. What the caller leaves there is what the map holds under
/// `key` afterwards.
#[verifier::external_body]
pub(crate) fn map_get_mut<'a, K: Eq + Hash, V>(
    map: &'a mut FxHashMap<K, V>,
    key: &K,
) -> (place: &'a mut V)
    requires
        obeys_key_model::<K>(),
        old(map)@.contains_key(*key),
    ensures
        *place == old(map)@[*key],
        final(map)@ == old(map)@.insert(*key, *final(place)),
{
    map.get_mut(key).unwrap()
}

/// `HashMap::remove`: afterwards the map has nothing under `key` and is
/// otherwise as before; the value that `key` had, if any, is returned.
#[verifier::external_body]
pub(crate) fn map_remove<K: Eq + Hash, V>(
    map: &mut FxHashMap<K, V>,
    key: &K,
) -> (removed: Option<V>)
    requires
        obeys_key_model::<K>(),
    ensures
        final(map)@ == old(map)@.remove(*key),
        removed == if old(map)@.contains_key(*key) {
            Some(old(map)@[*key])
        } else {
            None
        },
{
    map.remove(key)
}

/// `HashMap::len`: the number of entries, of which a map has finitely many.
#[verifier::external_body]
pub(crate) fn map_len<K: Eq + Hash, V>(map: &FxHashMap<K, V>) -> (count: usize)
    requires
        obeys_key_model::<K>(),
    ensures
        count == map@.len(),
{
    map.len()
}

/// `HashMap::keys`, collected: every key once, in the order in which the map
/// happens to hand them out.
#[verifier::external_body]
pub(crate) fn map_keys<K: Eq + Hash + Copy, V>(map: &FxHashMap<K, V>) -> (keys: Vec<K>)
    requires
        obeys_key_model::<K>(),
    ensures
        keys@.no_duplicates(),
        keys@.to_set() == map@.dom(),
{
    map.keys().copied().collect()
}

/// `HashSet::insert`: afterwards the set holds `item`; the result tells
/// whether it was new.
#[verifier::external_body]
pub(crate) fn set_insert<K: Eq + Hash>(set: &mut FxHashSet<K>, item: K) -> (fresh: bool)
    requires
        obeys_key_model::<K>(),
    ensures
        final(set)@ == old(set)@.insert(item),
        fresh == !old(set)@.contains(item),
{
    set.insert(item)
}

/// `HashSet::remove`: afterwards the set does not hold `item`; the result
/// tells whether it did.
#[verifier::external_body]
pub(crate) fn set_remove<K: Eq + Hash>(set: &mut FxHashSet<K>, item: &K) -> (present: bool)
    requires
        obeys_key_model::<K>(),
    ensures
        final(set)@ == old(set)@.remove(*item),
        present == old(set)@.contains(*item),
{
    set.remove(item)
}

/// `HashSet::iter`, collected: every item once, in the order in which the set
/// happens to hand them out.
#[verifier::external_body]
pub(crate) fn set_items<K: Eq + Hash + Copy>(set: &FxHashSet<K>) -> (items: Vec<K>)
    requires
        obeys_key_model::<K>(),
    ensures
        items@.no_duplicates(),
        items@.to_set() == set@,
{
    set.iter().copied().collect()
}

} // verus!
