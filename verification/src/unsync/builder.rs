use std::collections::hash_map::RandomState;
use std::hash::{BuildHasher, Hash};
use std::marker::PhantomData;

use vstd::prelude::*;
use vstd::std_specs::hash::*;

use crate::unsync::cache::Cache;
use crate::unsync::table::spec_clones_identically;
use crate::unsync::KeyHashDate;

verus! {

/// Builds a `Cache` with various configuration knobs.
#[must_use]
pub struct CacheBuilder<K, V, C> {
    max_capacity: Option<u64>,
    initial_capacity: Option<usize>,
    cache_type: PhantomData<C>,
    _marker: PhantomData<(K, V)>,
}

impl<K, V, C> CacheBuilder<K, V, C> {
    /// The bound on the number of entries that the cache will get.
    pub closed spec fn spec_max_capacity(&self) -> Option<u64> {
        self.max_capacity
    }

    /// The number of entries that the table of the cache will have room for
    /// from the start.
    pub closed spec fn spec_initial_capacity(&self) -> Option<usize> {
        self.initial_capacity
    }

    /// Sets the max capacity of the cache.
    pub fn max_capacity(self, max_capacity: u64) -> (builder: Self)
        ensures
            builder.spec_max_capacity() == Some(max_capacity),
            builder.spec_initial_capacity() == self.spec_initial_capacity(),
    {
        Self {
            max_capacity: Some(max_capacity),
            initial_capacity: self.initial_capacity,
            cache_type: PhantomData,
            _marker: PhantomData,
        }
    }

    /// Sets the initial capacity (number of entries) of the cache.
    pub fn initial_capacity(self, number_of_entries: usize) -> (builder: Self)
        ensures
            builder.spec_initial_capacity() == Some(number_of_entries),
            builder.spec_max_capacity() == self.spec_max_capacity(),
    {
        Self {
            max_capacity: self.max_capacity,
            initial_capacity: Some(number_of_entries),
            cache_type: PhantomData,
            _marker: PhantomData,
        }
    }
}

impl<K, V> Default for CacheBuilder<K, V, Cache<K, V, RandomState>> where K: Eq + Hash + Clone {
    fn default() -> (builder: Self)
        ensures
            builder.spec_max_capacity() is None,
            builder.spec_initial_capacity() is None,
    {
        Self {
            max_capacity: None,
            initial_capacity: None,
            cache_type: PhantomData,
            _marker: PhantomData,
        }
    }
}

impl<K, V> CacheBuilder<K, V, Cache<K, V, RandomState>> where K: Eq + Hash + Clone {
    /// Construct a new `CacheBuilder` that will be used to build a `Cache`
    /// holding up to `max_capacity` entries.
    pub fn new(max_capacity: u64) -> (builder: Self)
        ensures
            builder.spec_max_capacity() == Some(max_capacity),
            builder.spec_initial_capacity() is None,
    {
        Self {
            max_capacity: Some(max_capacity),
            initial_capacity: None,
            cache_type: PhantomData,
            _marker: PhantomData,
        }
    }

    /// Builds a `Cache<K, V>` that hashes with a fresh `RandomState`.
    pub fn build(self) -> (cache: Cache<K, V, RandomState>)
        ensures
            obeys_key_model::<K>() && spec_clones_identically::<K>() ==> cache.wf(),
            cache@ == Map::<K, V>::empty(),
            cache.lru() == Seq::<KeyHashDate<K>>::empty(),
            cache.sketch() == Seq::<u64>::empty(),
            cache.spec_max_capacity() == self.spec_max_capacity(),
            cache.spec_entry_count() == 0,
            !cache.spec_sketch_enabled(),
    {
        Cache::with_initial_capacity(self.max_capacity, self.initial_capacity)
    }

    /// Builds a `Cache<K, V, S>`, with the given `hasher`.
    pub fn build_with_hasher<S>(self, hasher: S) -> (cache: Cache<K, V, S>) where
        S: BuildHasher + Clone,

        ensures
            obeys_key_model::<K>() && builds_valid_hashers::<S>() && spec_clones_identically::<
                K,
            >() ==> cache.wf(),
            cache@ == Map::<K, V>::empty(),
            cache.lru() == Seq::<KeyHashDate<K>>::empty(),
            cache.sketch() == Seq::<u64>::empty(),
            cache.spec_max_capacity() == self.spec_max_capacity(),
            cache.spec_entry_count() == 0,
            !cache.spec_sketch_enabled(),
    {
        Cache::with_everything(self.max_capacity, self.initial_capacity, hasher)
    }
}

} // verus!
