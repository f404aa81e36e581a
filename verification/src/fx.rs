//! The Fx-hashed sets and maps of positions the passes keep, keyed by the coordinates of
//! a position.
//!
//! `FxHashSet` and `FxHashMap` are std's `HashSet` and `HashMap` with the deterministic
//! Fx hasher of `rustc_hash`; their contents are the views vstd gives those std types.
use vstd::prelude::*;
use rustc_hash::{FxBuildHasher, FxHashMap, FxHashSet};

verus! {

/// The coordinates of a position, as a hash key.
pub type PosKey = (i32, i32, i32);

/// A set of positions.
pub type PosSet = FxHashSet<PosKey>;

/// A map from positions.
pub type PosMap<V> = FxHashMap<PosKey, V>;

#[verifier::external_type_specification]
#[verifier::external_body]
pub struct ExFxBuildHasher(FxBuildHasher);

/// `FxHashSet::default()` (rustc_hash, through `Default` of std's `HashSet`): an empty set.
#[verifier::external_body]
pub(crate) fn pos_set_new() -> (s: PosSet)
    ensures
        s@ == Set::<PosKey>::empty(),
{
    FxHashSet::default()
}

/// `HashSet::insert` on an `FxHashSet`: afterwards the set holds `k` besides what it held;
/// the result tells whether `k` was new.
#[verifier::external_body]
pub(crate) fn pos_set_insert(s: &mut PosSet, k: PosKey) -> (added: bool)
    ensures
        final(s)@ == old(s)@.insert(k),
        added == !old(s)@.contains(k),
{
    s.insert(k)
}

/// `HashSet::contains` on an `FxHashSet`: whether the set holds `k`.
#[verifier::external_body]
pub(crate) fn pos_set_contains(s: &PosSet, k: PosKey) -> (b: bool)
    ensures
        b == s@.contains(k),
{
    s.contains(&k)
}

/// `HashSet::iter` on an `FxHashSet`, collected: every key of the set once, in the order
/// the set is walked (which nothing here states).
#[verifier::external_body]
pub(crate) fn pos_set_keys(s: &PosSet) -> (v: Vec<PosKey>)
    ensures
        v@.no_duplicates(),
        v@.to_set() == s@,
{
    s.iter().copied().collect()
}

/// `FxHashMap::default()` (rustc_hash, through `Default` of std's `HashMap`): an empty map.
#[verifier::external_body]
pub(crate) fn pos_map_new<V>() -> (m: PosMap<V>)
    ensures
        m@.dom() == Set::<PosKey>::empty(),
{
    FxHashMap::default()
}

/// `HashMap::insert` on an `FxHashMap`: afterwards `k` maps to `v`, every other key as before.
#[verifier::external_body]
pub(crate) fn pos_map_insert<V>(m: &mut PosMap<V>, k: PosKey, v: V)
    ensures
        final(m)@ == old(m)@.insert(k, v),
{
    m.insert(k, v);
}

/// `HashMap::get` on an `FxHashMap`, the value copied out: the value `k` maps to, if any.
#[verifier::external_body]
pub(crate) fn pos_map_get<V: Copy>(m: &PosMap<V>, k: PosKey) -> (r: Option<V>)
    ensures
        r == (if m@.contains_key(k) {
            Some(m@[k])
        } else {
            None
        }),
{
    m.get(&k).copied()
}

/// `HashMap::contains_key` on an `FxHashMap`: whether `k` has a value.
#[verifier::external_body]
pub(crate) fn pos_map_contains_key<V>(m: &PosMap<V>, k: PosKey) -> (b: bool)
    ensures
        b == m@.contains_key(k),
{
    m.contains_key(&k)
}

} // verus!
