//! Tables keyed by 64-bit identities, hashed with the Fx hasher.
//!
//! `FxHashMap` is std's `HashMap` with the hasher of `rustc_hash`. What
//! vstd states of `HashMap`'s methods it states for the hash builders that
//! it knows, and `FxBuildHasher` is not among them. So the methods that the
//! engine calls stand here once more, each behind a function whose contract
//! says over the table's view, a `Map`, what std documents of the method.
//! Nothing of this is proved.

use rustc_hash::{FxBuildHasher, FxHashMap};
use vstd::prelude::*;

verus! {

/// `rustc_hash::FxBuildHasher`, the builder of the hashers that key the
/// tables.
#[verifier::external_type_specification]
#[verifier::external_body]
pub struct ExFxBuildHasher(FxBuildHasher);

/// `HashMap::len`: the number of entries.
#[verifier::external_body]
pub(crate) fn fx_len<V>(map: &FxHashMap<u64, V>) -> (n: usize)
    ensures
        n == map@.len(),
{
    map.len()
}

/// `HashMap::get`: a reference to the value kept under `key`, if there is
/// one.
#[verifier::external_body]
pub(crate) fn fx_get<'a, V>(map: &'a FxHashMap<u64, V>, key: u64) -> (r: Option<&'a V>)
    ensures
        match r {
            Some(v) => map@.contains_key(key) && *v == map@[key],
            None => !map@.contains_key(key),
        },
{
    map.get(&key)
}

/// `HashMap::insert`: keeps `value` under `key` and hands back the value
/// that was kept there before, if there was one. No other entry changes.
#[verifier::external_body]
pub(crate) fn fx_insert<V>(map: &mut FxHashMap<u64, V>, key: u64, value: V) -> (r: Option<V>)
    ensures
        final(map)@ == old(map)@.insert(key, value),
        match r {
            Some(v) => old(map)@.contains_key(key) && v == old(map)@[key],
            None => !old(map)@.contains_key(key),
        },
{
    map.insert(key, value)
}

/// `HashMap::remove`: takes the entry under `key` out of the table and hands
/// back its value, if there was one. No other entry changes.
#[verifier::external_body]
pub(crate) fn fx_remove<V>(map: &mut FxHashMap<u64, V>, key: u64) -> (r: Option<V>)
    ensures
        final(map)@ == old(map)@.remove(key),
        match r {
            Some(v) => old(map)@.contains_key(key) && v == old(map)@[key],
            None => !old(map)@.contains_key(key),
        },
{
    map.remove(&key)
}

} // verus!
