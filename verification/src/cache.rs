//! The cache of an evaluator wrapper: predictions keyed by the hash of the
//! input bytes, with hit and miss counts.

use vstd::prelude::*;
use std::collections::HashMap;
use std::collections::hash_map::DefaultHasher;
use std::hash::{Hash, Hasher};

verus! {

broadcast use vstd::std_specs::hash::group_hash_axioms;

/// std's `DefaultHasher` (created by `new`) over a byte slice: the key an
/// input is cached under. Nothing is stated of the value: std leaves the
/// hashing algorithm unspecified.
#[verifier::external_body]
fn hash_bytes(data: &[u8]) -> (h: u64) {
    let mut hasher = DefaultHasher::new();
    data.hash(&mut hasher);
    hasher.finish()
}

/// Cached values by input hash, with the number of lookups that found a
/// value (hits) and that did not (misses).
pub struct EvalCache<V> {
    entries: HashMap<u64, V>,
    hits: u64,
    misses: u64,
}

impl<V> EvalCache<V> {
    /// The cached values by key.
    pub closed spec fn entries_value(&self) -> Map<u64, V> {
        self.entries@
    }

    pub closed spec fn hits_value(&self) -> nat {
        self.hits as nat
    }

    pub closed spec fn misses_value(&self) -> nat {
        self.misses as nat
    }

    /// An empty cache with no lookups counted.
    pub fn new() -> (c: Self)
        ensures
            c.entries_value() == Map::<u64, V>::empty(),
            c.hits_value() == 0,
            c.misses_value() == 0,
    {
        EvalCache { entries: HashMap::new(), hits: 0, misses: 0 }
    }

    /// Looks up a key, counting a hit when a value is cached under it and a
    /// miss otherwise; returns the cached value.
    pub fn lookup(&mut self, key: u64) -> (r: Option<&V>)
        requires
            old(self).hits_value() < u64::MAX,
            old(self).misses_value() < u64::MAX,
        ensures
            final(self).entries_value() == old(self).entries_value(),
            r matches Some(v) ==> old(self).entries_value().contains_key(key) && *v == old(self).entries_value()[key],
            r is None ==> !old(self).entries_value().contains_key(key),
            final(self).hits_value() == old(self).hits_value() + if r is Some { 1int } else { 0int },
            final(self).misses_value() == old(self).misses_value() + if r is None { 1int } else { 0int },
    {
        if self.entries.contains_key(&key) {
            self.hits = self.hits + 1;
            self.entries.get(&key)
        } else {
            self.misses = self.misses + 1;
            None
        }
    }

    /// Looks up the value cached for `input` under the hash of its bytes,
    /// counting a hit or a miss as [`lookup`](Self::lookup) does; returns the
    /// key and the cached value.
    pub fn lookup_input(&mut self, input: &[u8]) -> (r: (u64, Option<&V>))
        requires
            old(self).hits_value() < u64::MAX,
            old(self).misses_value() < u64::MAX,
        ensures
            final(self).entries_value() == old(self).entries_value(),
            r.1 matches Some(v) ==> old(self).entries_value().contains_key(r.0) && *v == old(self).entries_value()[r.0],
            r.1 is None ==> !old(self).entries_value().contains_key(r.0),
            final(self).hits_value() == old(self).hits_value() + if r.1 is Some { 1int } else { 0int },
            final(self).misses_value() == old(self).misses_value() + if r.1 is None { 1int } else { 0int },
    {
        let key = hash_bytes(input);
        (key, self.lookup(key))
    }

    /// Caches `value` under `key`.
    pub fn store(&mut self, key: u64, value: V)
        ensures
            final(self).entries_value() == old(self).entries_value().insert(key, value),
            final(self).hits_value() == old(self).hits_value(),
            final(self).misses_value() == old(self).misses_value(),
    {
        self.entries.insert(key, value);
    }

    /// Lookups that found a cached value.
    pub fn hit_count(&self) -> (n: u64)
        ensures
            n == self.hits_value(),
    {
        self.hits
    }

    /// Lookups that found none.
    pub fn miss_count(&self) -> (n: u64)
        ensures
            n == self.misses_value(),
    {
        self.misses
    }
}

/// A stored value is found again: after storing under a key, looking the key
/// up is a hit that returns the stored value.
pub proof fn cache_returns_what_was_stored<V>(before: Map<u64, V>, key: u64, value: V)
    ensures
        before.insert(key, value).contains_key(key),
        before.insert(key, value)[key] == value,
{
}

} // verus!
