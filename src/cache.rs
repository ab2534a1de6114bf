//! A key-value cache whose entries expire a fixed time after insertion.
//! Times are milliseconds on a clock that the caller reads.
use std::collections::HashMap;
use std::hash::Hash;

use vstd::prelude::*;
use vstd::std_specs::hash::obeys_key_model;

verus! {

broadcast use vstd::std_specs::hash::group_hash_axioms;

/// An entry inserted at `inserted` is still fresh at `now`: less than `ttl`
/// has elapsed (no time elapses on a clock that went backwards).
pub open spec fn fresh(inserted: u64, now: u64, ttl: u64) -> bool {
    (if now >= inserted {
        now - inserted
    } else {
        0
    }) < ttl
}

pub struct Cache<K, V> {
    data: HashMap<K, (V, u64)>,
    ttl: u64,
}

impl<K, V> View for Cache<K, V> {
    type V = Map<K, (V, u64)>;

    closed spec fn view(&self) -> Map<K, (V, u64)> {
        self.data@
    }
}

impl<K: Eq + Hash + Clone, V: Clone> Cache<K, V> {
    /// The time to live that the cache was made with.
    pub closed spec fn ttl(&self) -> u64 {
        self.ttl
    }

    /// An empty cache whose entries live `ttl` milliseconds.
    pub fn new(ttl: u64) -> (r: Self)
        ensures
            r@ == Map::<K, (V, u64)>::empty(),
            r.ttl() == ttl,
    {
        Cache { data: HashMap::new(), ttl }
    }

    /// The value cached under `key` if it is still fresh at `now`; a stale
    /// entry is dropped.
    pub fn get(&mut self, key: &K, now: u64) -> (r: Option<V>)
        ensures
            final(self).ttl() == old(self).ttl(),
            obeys_key_model::<K>() ==> if old(self)@.contains_key(*key) && fresh(
                old(self)@[*key].1,
                now,
                old(self).ttl(),
            ) {
                &&& r matches Some(v) && cloned(old(self)@[*key].0, v)
                &&& final(self)@ == old(self)@
            } else {
                &&& r is None
                &&& final(self)@ == old(self)@.remove(*key)
            },
    {
        let fresh_value = match self.data.get(key) {
            Some(entry) => {
                let elapsed = if now >= entry.1 {
                    now - entry.1
                } else {
                    0
                };
                if elapsed < self.ttl {
                    Some(entry.0.clone())
                } else {
                    None
                }
            },
            None => None,
        };
        if fresh_value.is_none() {
            self.data.remove(key);
        }
        fresh_value
    }

    /// Caches `value` under `key`, inserted at `now`.
    pub fn insert(&mut self, key: K, value: V, now: u64)
        ensures
            final(self).ttl() == old(self).ttl(),
            obeys_key_model::<K>() ==> final(self)@ == old(self)@.insert(key, (value, now)),
    {
        self.data.insert(key, (value, now));
    }

    /// Drops every entry.
    pub fn clear(&mut self)
        ensures
            final(self).ttl() == old(self).ttl(),
            final(self)@ == Map::<K, (V, u64)>::empty(),
    {
        self.data.clear();
    }
}

} // verus!
