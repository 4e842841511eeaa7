use std::collections::hash_map::RandomState;
use std::collections::HashMap;
use std::hash::{BuildHasher, Hash};

use vstd::prelude::*;
use vstd::std_specs::hash::*;
use vstd::std_specs::iter::IteratorSpec;

use crate::common::deque::Deque;
use crate::common::frequency_sketch::{
    spec_frequency, spec_increment_size, spec_increment_table, FrequencySketch,
};
use crate::common::handle::{spec_handle, spec_handle_region, spec_handle_slot, MAX_SLOT};
use crate::common::{sketch_capacity, spec_sketch_capacity, CacheRegion};
use crate::policy::Policy;
use crate::unsync::builder::CacheBuilder;
use crate::unsync::deques::Deques;
use crate::unsync::iter::Iter;
use crate::unsync::links::{
    entry_ok, lemma_move, lemma_position, lemma_push, lemma_unlink, links_ok, node_ok, spec_drop,
    spec_position, spec_touch,
};
use crate::unsync::model::{
    spec_ensured, spec_ensured_samples, spec_insert, spec_keeps_order, spec_lists, spec_overshoot,
    spec_sweep, spec_turns_on, spec_values, CacheModel, EVICTION_BATCH_SIZE,
};
use crate::unsync::table::{
    clone_key, hash_key, new_random_state, spec_clones_identically, table_capacity,
    table_try_reserve, table_with_capacity, table_with_hasher,
};
use crate::unsync::victims::{
    victim_slots, victims_at, victims_len, victims_new, victims_push, VictimList,
};
use crate::unsync::{KeyHashDate, ValueEntry};

verus! {

broadcast use vstd::std_specs::hash::group_hash_axioms;

/// The weight of a group of entries and the sum of their estimated
/// frequencies.
pub struct EntrySizeAndFrequency {
    pub weight: u64,
    pub freq: u32,
}

impl EntrySizeAndFrequency {
    pub fn new(policy_weight: u64) -> (entry: Self)
        ensures
            entry.weight == policy_weight,
            entry.freq == 0,
    {
        Self { weight: policy_weight, freq: 0 }
    }

    /// Counts one more entry of unit weight.
    pub fn add_policy_weight(&mut self)
        requires
            old(self).weight < u64::MAX,
        ensures
            final(self).weight == old(self).weight + 1,
            final(self).freq == old(self).freq,
    {
        self.weight += 1;
    }

    /// Adds the estimated frequency of `hash`.
    pub fn add_frequency(&mut self, freq: &FrequencySketch, hash: u64)
        requires
            freq.wf(),
            old(self).freq <= u32::MAX - 15,
        ensures
            final(self).freq == old(self).freq + spec_frequency(freq.table(), hash),
            final(self).weight == old(self).weight,
    {
        self.freq += freq.frequency(hash) as u32;
    }
}

/// The outcome of an admission: the slots of the nodes to evict in favour of
/// the candidate, or a rejection.
pub enum AdmissionResult {
    Admitted { victim_nodes: VictimList },
    Rejected,
}

/// An in-memory cache that is _not_ thread-safe.
///
/// The model of a cache is the map from its keys to their values (`@`), the
/// nodes of its probation deque from the least to the most recently used
/// (`lru()`), and the table of its frequency sketch (`sketch()`).
#[verifier::reject_recursive_types(S)]
pub struct Cache<K, V, S = RandomState> {
    max_capacity: Option<u64>,
    entry_count: u64,
    cache: HashMap<K, ValueEntry<V>, S>,
    build_hasher: S,
    deques: Deques<K>,
    frequency_sketch: FrequencySketch,
    frequency_sketch_enabled: bool,
}

impl<K, V, S> View for Cache<K, V, S> {
    type V = Map<K, V>;

    closed spec fn view(&self) -> Map<K, V> {
        spec_values(self.cache@)
    }
}

impl<K, V, S> Cache<K, V, S> {
    /// The nodes of the probation deque, least recently used first.
    pub closed spec fn lru(&self) -> Seq<KeyHashDate<K>> {
        self.deques.probation@
    }

    /// The table of the frequency sketch.
    pub closed spec fn sketch(&self) -> Seq<u64> {
        self.frequency_sketch.table()
    }

    /// The sample counter of the frequency sketch.
    pub closed spec fn sketch_samples(&self) -> u64 {
        self.frequency_sketch.sample_count()
    }

    pub closed spec fn spec_max_capacity(&self) -> Option<u64> {
        self.max_capacity
    }

    pub closed spec fn spec_entry_count(&self) -> u64 {
        self.entry_count
    }

    pub closed spec fn spec_sketch_enabled(&self) -> bool {
        self.frequency_sketch_enabled
    }

    /// The state of the cache as a plain value.
    pub open spec fn model(&self) -> CacheModel<K, V> {
        CacheModel {
            entries: self@,
            lru: self.lru(),
            max_capacity: self.spec_max_capacity(),
            sketch: self.sketch(),
            samples: self.sketch_samples(),
            sketch_enabled: self.spec_sketch_enabled(),
        }
    }

    /// The node handle stored with the entry of `key`.
    pub closed spec fn spec_node(&self, key: K) -> Option<usize> {
        self.cache@[key].node
    }

    /// The probation deque.
    pub closed spec fn spec_probation(&self) -> Deque<KeyHashDate<K>> {
        self.deques.probation
    }

    /// Returns a read-only cache policy of this cache.
    pub fn policy(&self) -> (policy: Policy)
        ensures
            policy.spec_max_capacity() == self.spec_max_capacity(),
    {
        Policy::new(self.max_capacity)
    }

    /// Returns the number of entries in this cache.
    pub fn entry_count(&self) -> (count: u64)
        ensures
            count == self.spec_entry_count(),
    {
        self.entry_count
    }

    /// Returns the total weighted size of entries in this cache, which is
    /// their number: every entry weighs one.
    pub fn weighted_size(&self) -> (size: u64)
        ensures
            size == self.spec_entry_count(),
    {
        self.entry_count
    }

    /// The number of words in the table of the frequency sketch.
    pub fn sketch_table_len(&self) -> (len: usize)
        ensures
            len == self.sketch().len(),
    {
        self.frequency_sketch.table_len()
    }
}

impl<K: Clone, V, S> Cache<K, V, S> {
    /// Everything that holds of a cache between operations, but for the
    /// bound on the number of entries.
    pub closed spec fn wf_relaxed(&self) -> bool {
        &&& obeys_key_model::<K>()
        &&& spec_clones_identically::<K>()
        &&& builds_valid_hashers::<S>()
        &&& self.deques.wf()
        &&& self.deques.window.slots().len() == 0
        &&& self.deques.protected.slots().len() == 0
        &&& self.frequency_sketch.wf()
        &&& links_ok(self.cache@, self.deques.probation)
        &&& self.entry_count == self.cache@.len()
    }

    /// The cache is well formed: table, deque and counter agree, and a
    /// bounded cache holds no more entries than its bound.
    pub open spec fn wf(&self) -> bool {
        &&& self.wf_relaxed()
        &&& self.spec_max_capacity() is Some ==> self.spec_entry_count()
            <= self.spec_max_capacity().unwrap()
    }
}

impl<K, V> Cache<K, V, RandomState> where K: Hash + Eq + Clone {
    /// Constructs a new `Cache<K, V>` that will store up to the
    /// `max_capacity` entries.
    pub fn new(max_capacity: u64) -> (cache: Self)
        ensures
            obeys_key_model::<K>() && spec_clones_identically::<K>() ==> cache.wf(),
            cache@ == Map::<K, V>::empty(),
            cache.lru() == Seq::<KeyHashDate<K>>::empty(),
            cache.sketch() == Seq::<u64>::empty(),
            cache.spec_max_capacity() == Some(max_capacity),
            cache.spec_entry_count() == 0,
            !cache.spec_sketch_enabled(),
    {
        let build_hasher = new_random_state();
        Self::with_everything(Some(max_capacity), None, build_hasher)
    }

    /// Constructs an empty cache with the given bound and initial capacity
    /// of the table, hashing with a fresh `RandomState`.
    pub fn with_initial_capacity(
        max_capacity: Option<u64>,
        initial_capacity: Option<usize>,
    ) -> (cache: Self)
        ensures
            obeys_key_model::<K>() && spec_clones_identically::<K>() ==> cache.wf(),
            cache@ == Map::<K, V>::empty(),
            cache.lru() == Seq::<KeyHashDate<K>>::empty(),
            cache.sketch() == Seq::<u64>::empty(),
            cache.spec_max_capacity() == max_capacity,
            cache.spec_entry_count() == 0,
            !cache.spec_sketch_enabled(),
    {
        let build_hasher = new_random_state();
        Self::with_everything(max_capacity, initial_capacity, build_hasher)
    }

    /// Returns a `CacheBuilder`, which can build a `Cache` with various
    /// configuration knobs.
    pub fn builder() -> (builder: CacheBuilder<K, V, Cache<K, V, RandomState>>)
        ensures
            builder.spec_max_capacity() is None,
            builder.spec_initial_capacity() is None,
    {
        CacheBuilder::default()
    }
}

impl<K, V, S> Cache<K, V, S> where K: Hash + Eq + Clone, S: BuildHasher + Clone {
    /// Constructs an empty cache with the given bound, initial capacity of
    /// the table and hash builder.
    pub fn with_everything(
        max_capacity: Option<u64>,
        initial_capacity: Option<usize>,
        build_hasher: S,
    ) -> (cache: Self)
        ensures
            obeys_key_model::<K>() && builds_valid_hashers::<S>() && spec_clones_identically::<
                K,
            >() ==> cache.wf(),
            cache@ == Map::<K, V>::empty(),
            cache.lru() == Seq::<KeyHashDate<K>>::empty(),
            cache.sketch() == Seq::<u64>::empty(),
            cache.spec_max_capacity() == max_capacity,
            cache.spec_entry_count() == 0,
            !cache.spec_sketch_enabled(),
    {
        let capacity: usize = match initial_capacity {
            Some(n) => n,
            None => 0,
        };
        let table = table_with_capacity(capacity, build_hasher.clone());
        let cache = Self {
            max_capacity,
            entry_count: 0,
            cache: table,
            build_hasher,
            deques: Default::default(),
            frequency_sketch: Default::default(),
            frequency_sketch_enabled: false,
        };
        proof {
            assert(cache.cache@ =~= Map::empty());
            assert(cache@ =~= Map::<K, V>::empty());
            assert(cache.lru() =~= Seq::<KeyHashDate<K>>::empty());
            assert(cache.sketch() =~= Seq::<u64>::empty());
        }
        cache
    }

    fn hash(&self, key: &K) -> (hash: u64) {
        hash_key(&self.build_hasher, key)
    }

    fn has_enough_capacity(&self, candidate_weight: u32, ws: u64) -> (enough: bool)
        requires
            ws + candidate_weight <= u64::MAX,
        ensures
            enough == match self.max_capacity {
                Some(limit) => ws + candidate_weight <= limit,
                None => true,
            },
    {
        match self.max_capacity {
            Some(limit) => ws + candidate_weight as u64 <= limit,
            None => true,
        }
    }

    fn weights_to_evict(&self) -> (weights: u64)
        ensures
            weights == spec_overshoot(self.max_capacity, self.entry_count),
    {
        match self.max_capacity {
            Some(limit) => self.entry_count.saturating_sub(limit),
            None => 0,
        }
    }

    fn should_enable_frequency_sketch(&self) -> (should: bool)
        ensures
            should == spec_turns_on(
                self.max_capacity,
                self.frequency_sketch_enabled,
                self.entry_count,
            ),
    {
        if self.frequency_sketch_enabled {
            false
        } else if let Some(max_cap) = self.max_capacity {
            self.entry_count >= max_cap / 2
        } else {
            false
        }
    }

    /// Switches the frequency sketch on, sized for the bound of the cache.
    /// A cache without a bound has no sketch and stays as it is.
    pub fn enable_frequency_sketch(&mut self)
        requires
            old(self).wf(),
        ensures
            final(self).wf(),
            final(self)@ == old(self)@,
            final(self).lru() == old(self).lru(),
            final(self).spec_probation() == old(self).spec_probation(),
            forall|k: K| final(self).spec_node(k) == old(self).spec_node(k),
            final(self).spec_max_capacity() == old(self).spec_max_capacity(),
            final(self).spec_entry_count() == old(self).spec_entry_count(),
            match old(self).spec_max_capacity() {
                Some(max_cap) => {
                    &&& final(self).spec_sketch_enabled()
                    &&& final(self).sketch() == spec_ensured(
                        old(self).sketch(),
                        spec_sketch_capacity(max_cap),
                    )
                    &&& final(self).sketch_samples() == spec_ensured_samples(
                        old(self).sketch(),
                        old(self).sketch_samples(),
                        spec_sketch_capacity(max_cap),
                    )
                },
                None => {
                    &&& final(self).spec_sketch_enabled() == old(self).spec_sketch_enabled()
                    &&& final(self).sketch() == old(self).sketch()
                    &&& final(self).sketch_samples() == old(self).sketch_samples()
                },
            },
    {
        if let Some(max_cap) = self.max_capacity {
            self.do_enable_frequency_sketch(max_cap);
        }
    }

    fn do_enable_frequency_sketch(&mut self, cache_capacity: u64)
        requires
            old(self).frequency_sketch.wf(),
        ensures
            final(self).frequency_sketch.wf(),
            final(self).frequency_sketch.table() == spec_ensured(
                old(self).frequency_sketch.table(),
                spec_sketch_capacity(cache_capacity),
            ),
            final(self).frequency_sketch.sample_count() == spec_ensured_samples(
                old(self).frequency_sketch.table(),
                old(self).frequency_sketch.sample_count(),
                spec_sketch_capacity(cache_capacity),
            ),
            final(self).frequency_sketch_enabled,
            final(self).max_capacity == old(self).max_capacity,
            final(self).entry_count == old(self).entry_count,
            final(self).cache == old(self).cache,
            final(self).deques == old(self).deques,
    {
        let skt_capacity = sketch_capacity(cache_capacity);
        self.frequency_sketch.ensure_capacity(skt_capacity);
        self.frequency_sketch_enabled = true;
    }

    /// The batched eviction sweep: while the cache holds more entries than
    /// its bound, the least recently used entry is evicted, up to a batch of
    /// `EVICTION_BATCH_SIZE` entries.  A cache within its bound is left
    /// exactly as it is.
    pub fn evict_lru_entries(&mut self)
        requires
            old(self).wf_relaxed(),
        ensures
            final(self).wf_relaxed(),
            final(self).lru() == old(self).lru().skip(
                spec_sweep(old(self).spec_max_capacity(), old(self).spec_entry_count()) as int,
            ),
            final(self).spec_entry_count() == old(self).spec_entry_count() - spec_sweep(
                old(self).spec_max_capacity(),
                old(self).spec_entry_count(),
            ),
            forall|k: K| #[trigger]
                final(self)@.contains_key(k) ==> old(self)@.contains_key(k) && final(self)@[k]
                    == old(self)@[k],
            final(self).spec_max_capacity() == old(self).spec_max_capacity(),
            final(self).sketch() == old(self).sketch(),
            final(self).sketch_samples() == old(self).sketch_samples(),
            final(self).spec_sketch_enabled() == old(self).spec_sketch_enabled(),
            old(self).wf() ==> *final(self) == *old(self),
    {
        let weights_to_evict = self.weights_to_evict();
        let mut evicted_count: u64 = 0;
        let mut evicted_policy_weight: u64 = 0;
        let mut round: usize = 0;
        proof {
            assert(self.deques.probation@.skip(0) =~= self.deques.probation@);
        }
        while round < EVICTION_BATCH_SIZE
            invariant
                obeys_key_model::<K>(),
                spec_clones_identically::<K>(),
                builds_valid_hashers::<S>(),
                old(self).wf_relaxed(),
                weights_to_evict == spec_overshoot(old(self).max_capacity, old(self).entry_count),
                round <= EVICTION_BATCH_SIZE,
                evicted_count == round,
                evicted_policy_weight == round,
                evicted_count <= weights_to_evict,
                self.entry_count == old(self).entry_count,
                self.max_capacity == old(self).max_capacity,
                self.frequency_sketch == old(self).frequency_sketch,
                self.frequency_sketch_enabled == old(self).frequency_sketch_enabled,
                self.deques.wf(),
                self.deques.window == old(self).deques.window,
                self.deques.protected == old(self).deques.protected,
                links_ok(self.cache@, self.deques.probation),
                self.cache@.len() == old(self).entry_count - evicted_count,
                self.deques.probation@ == old(self).deques.probation@.skip(evicted_count as int),
                forall|k: K| #[trigger]
                    self.cache@.contains_key(k) ==> old(self).cache@.contains_key(k)
                        && self.cache@[k] == old(self).cache@[k],
                evicted_count == 0 ==> *self == *old(self),
            ensures
                evicted_count == spec_sweep(old(self).max_capacity, old(self).entry_count),
            decreases EVICTION_BATCH_SIZE - round,
        {
            if evicted_policy_weight >= weights_to_evict {
                break ;
            }
            let ghost before = self.deques.probation;
            let ghost table = self.cache@;
            proof {
                before.lemma_slots();
            }
            let key = match self.deques.probation.peek_front() {
                Some(node) => clone_key(&node.key),
                None => {
                    break ;
                },
            };
            proof {
                assert(node_ok(table, before, before.slots()[0]));
                assert(entry_ok(table, before, key));
                assert(before.slots().index_of(before.slots()[0]) == 0) by {
                    let q = before.slots().index_of(before.slots()[0]);
                    assert(before.slots().contains(before.slots()[0]));
                    assert(before.slots()[q] == before.slots()[0]);
                }
            }
            if let Some(mut entry) = self.cache.remove(&key) {
                let weight = entry.policy_weight();
                Deques::unlink_ao_from_deque(&mut self.deques.probation, &mut entry);
                evicted_count += 1;
                evicted_policy_weight = evicted_policy_weight.saturating_add(weight as u64);
                proof {
                    lemma_unlink(table, before, self.deques.probation, key);
                    assert(self.deques.probation@ =~= old(self).deques.probation@.skip(
                        evicted_count as int,
                    ));
                }
            } else {
                self.deques.probation.pop_front();
            }
            round += 1;
        }
        self.entry_count -= evicted_count;
        proof {
            assert forall|k: K| #[trigger] self@.contains_key(k) implies old(self)@.contains_key(k)
                && self@[k] == old(self)@[k] by {
                assert(self.cache@.contains_key(k));
            }
        }
    }

    /// Returns `true` if the cache contains a value for the key.  This is no
    /// cache read: neither the frequency sketch nor the access order
    /// changes.
    pub fn contains_key(&mut self, key: &K) -> (found: bool)
        requires
            old(self).wf(),
        ensures
            found == old(self)@.contains_key(*key),
            *final(self) == *old(self),
    {
        self.evict_lru_entries();
        self.cache.contains_key(key)
    }

    /// Returns a reference to the value of the key, recording a read of the
    /// key: its hash is counted in the frequency sketch and its entry, if
    /// there is one, becomes the most recently used.
    pub fn get(&mut self, key: &K) -> (value: Option<&V>)
        requires
            old(self).wf(),
        ensures
            final(self).wf(),
            value is Some <==> old(self)@.contains_key(*key),
            value is Some ==> *value.unwrap() == old(self)@[*key],
            final(self)@ == old(self)@,
            final(self).lru() == (if old(self)@.contains_key(*key) {
                spec_touch(old(self).lru(), *key)
            } else {
                old(self).lru()
            }),
            exists|hash: u64|
                final(self).sketch() == #[trigger] spec_increment_table(
                    old(self).sketch(),
                    old(self).sketch_samples(),
                    hash,
                ),
            final(self).sketch_samples() == spec_increment_size(
                old(self).sketch(),
                old(self).sketch_samples(),
            ),
            final(self).spec_max_capacity() == old(self).spec_max_capacity(),
            final(self).spec_entry_count() == old(self).spec_entry_count(),
            final(self).spec_sketch_enabled() == old(self).spec_sketch_enabled(),
    {
        self.evict_lru_entries();
        let hash = self.hash(key);
        self.get_with_hash(key, hash)
    }

    /// What `get` does once the hash of the key is known.
    pub fn get_with_hash(&mut self, key: &K, hash: u64) -> (value: Option<&V>)
        requires
            old(self).wf(),
        ensures
            final(self).wf(),
            value is Some <==> old(self)@.contains_key(*key),
            value is Some ==> *value.unwrap() == old(self)@[*key],
            final(self)@ == old(self)@,
            final(self).lru() == (if old(self)@.contains_key(*key) {
                spec_touch(old(self).lru(), *key)
            } else {
                old(self).lru()
            }),
            final(self).sketch() == spec_increment_table(
                old(self).sketch(),
                old(self).sketch_samples(),
                hash,
            ),
            final(self).sketch_samples() == spec_increment_size(
                old(self).sketch(),
                old(self).sketch_samples(),
            ),
            final(self).spec_max_capacity() == old(self).spec_max_capacity(),
            final(self).spec_entry_count() == old(self).spec_entry_count(),
            final(self).spec_sketch_enabled() == old(self).spec_sketch_enabled(),
    {
        self.frequency_sketch.increment(hash);
        let ghost before = self.deques.probation;
        let ghost table = self.cache@;
        if let Some(entry) = self.cache.get(key) {
            proof {
                assert(entry_ok(table, before, *key));
                lemma_position(table, before, *key);
            }
            self.deques.move_to_back_ao(entry);
            proof {
                lemma_move(table, before, self.deques.probation, *key, *entry);
                assert(table.insert(*key, *entry) =~= table);
            }
            Some(&entry.value)
        } else {
            None
        }
    }

    /// Discards any cached value for the key, returning the cached value.
    pub fn remove(&mut self, key: &K) -> (value: Option<V>)
        requires
            old(self).wf(),
        ensures
            final(self).wf(),
            value == (if old(self)@.contains_key(*key) {
                Some(old(self)@[*key])
            } else {
                None
            }),
            final(self)@ == old(self)@.remove(*key),
            final(self).lru() == (if old(self)@.contains_key(*key) {
                spec_drop(old(self).lru(), *key)
            } else {
                old(self).lru()
            }),
            final(self).spec_entry_count() == (if old(self)@.contains_key(*key) {
                old(self).spec_entry_count() - 1
            } else {
                old(self).spec_entry_count() as int
            }),
            final(self).spec_max_capacity() == old(self).spec_max_capacity(),
            final(self).sketch() == old(self).sketch(),
            final(self).sketch_samples() == old(self).sketch_samples(),
            final(self).spec_sketch_enabled() == old(self).spec_sketch_enabled(),
    {
        self.evict_lru_entries();
        let ghost before = self.deques.probation;
        let ghost table = self.cache@;
        if let Some(mut entry) = self.cache.remove(key) {
            proof {
                assert(entry_ok(table, before, *key));
                lemma_position(table, before, *key);
            }
            self.deques.unlink_ao(&mut entry);
            proof {
                lemma_unlink(table, before, self.deques.probation, *key);
            }
            self.entry_count -= 1;
            assert(self@ =~= old(self)@.remove(*key));
            Some(entry.value)
        } else {
            assert(self.cache@ =~= table);
            assert(self@ =~= old(self)@.remove(*key));
            None
        }
    }

    /// Discards any cached value for the key.
    pub fn invalidate(&mut self, key: &K)
        requires
            old(self).wf(),
        ensures
            final(self).wf(),
            final(self)@ == old(self)@.remove(*key),
            final(self).lru() == (if old(self)@.contains_key(*key) {
                spec_drop(old(self).lru(), *key)
            } else {
                old(self).lru()
            }),
            final(self).spec_entry_count() == (if old(self)@.contains_key(*key) {
                old(self).spec_entry_count() - 1
            } else {
                old(self).spec_entry_count() as int
            }),
            final(self).spec_max_capacity() == old(self).spec_max_capacity(),
            final(self).sketch() == old(self).sketch(),
            final(self).sketch_samples() == old(self).sketch_samples(),
            final(self).spec_sketch_enabled() == old(self).spec_sketch_enabled(),
    {
        self.evict_lru_entries();
        let ghost before = self.deques.probation;
        let ghost table = self.cache@;
        if let Some(mut entry) = self.cache.remove(key) {
            proof {
                assert(entry_ok(table, before, *key));
                lemma_position(table, before, *key);
            }
            self.deques.unlink_ao(&mut entry);
            proof {
                lemma_unlink(table, before, self.deques.probation, *key);
            }
            self.entry_count -= 1;
            assert(self@ =~= old(self)@.remove(*key));
        } else {
            assert(self.cache@ =~= table);
            assert(self@ =~= old(self)@.remove(*key));
        }
    }

    /// Discards all cached values.  The frequency sketch keeps what it has
    /// counted.  The cache is emptied before the old values are dropped, so
    /// that a value whose destructor fails leaves an empty, usable cache.
    pub fn invalidate_all(&mut self)
        requires
            old(self).wf(),
        ensures
            final(self).wf(),
            final(self)@ == Map::<K, V>::empty(),
            final(self).lru() == Seq::<KeyHashDate<K>>::empty(),
            final(self).spec_entry_count() == 0,
            final(self).spec_max_capacity() == old(self).spec_max_capacity(),
            final(self).sketch() == old(self).sketch(),
            final(self).sketch_samples() == old(self).sketch_samples(),
            final(self).spec_sketch_enabled() == old(self).spec_sketch_enabled(),
    {
        let old_capacity = table_capacity(&self.cache);
        {
            let mut old_cache = table_with_hasher(self.build_hasher.clone());
            std::mem::swap(&mut self.cache, &mut old_cache);
            self.deques.clear();
            self.entry_count = 0;
        }
        table_try_reserve(&mut self.cache, old_capacity);
        proof {
            assert(self.cache@ =~= Map::empty());
            assert(self@ =~= Map::<K, V>::empty());
            assert(self.lru() =~= Seq::<KeyHashDate<K>>::empty());
        }
    }

    /// Inserts a key-value pair into the cache.  If the cache has this key
    /// present, the value is updated.  What happens to a new key depends on
    /// its hash under the cache's hash builder: see `spec_insert`.
    pub fn insert(&mut self, key: K, value: V)
        requires
            old(self).wf(),
            old(self).spec_entry_count() < MAX_SLOT,
        ensures
            final(self).wf(),
            exists|hash: u64|
                final(self).model() == #[trigger] spec_insert(old(self).model(), key, value, hash),
            final(self).spec_entry_count() == final(self).lru().len(),
    {
        self.evict_lru_entries();
        let hash = self.hash(&key);
        self.insert_with_hash(key, value, hash);
    }

    /// What `insert` does once the hash of the key is known.
    pub fn insert_with_hash(&mut self, key: K, value: V, hash: u64)
        requires
            old(self).wf(),
            old(self).spec_entry_count() < MAX_SLOT,
        ensures
            final(self).wf(),
            final(self).model() == spec_insert(old(self).model(), key, value, hash),
            final(self).spec_entry_count() == final(self).lru().len(),
    {
        let policy_weight: u32 = 1;
        let entry = ValueEntry::new(value);
        let ghost table = self.cache@;
        let stored = clone_key(&key);
        if let Some(old_entry) = self.cache.insert(stored, entry) {
            proof {
                assert(self.cache@.insert(key, old_entry) =~= table);
            }
            self.handle_update(key, policy_weight, old_entry);
            proof {
                lemma_position(table, old(self).deques.probation, key);
                assert(self@ =~= old(self)@.insert(key, value));
            }
        } else {
            proof {
                assert(self.cache@.remove(key) =~= table);
                assert(spec_values(table) =~= old(self)@);
            }
            self.handle_insert(key, hash, policy_weight);
        }
    }

    /// Finishes the insertion of a key that was present: the new entry takes
    /// over the node of the old one, and the node moves to the back of its
    /// deque.
    fn handle_update(&mut self, key: K, policy_weight: u32, old_entry: ValueEntry<V>)
        requires
            obeys_key_model::<K>(),
            spec_clones_identically::<K>(),
            builds_valid_hashers::<S>(),
            old(self).cache@.contains_key(key),
            old(self).deques.wf(),
            links_ok(old(self).cache@.insert(key, old_entry), old(self).deques.probation),
        ensures
            final(self).cache@ == old(self).cache@.insert(
                key,
                ValueEntry { value: old(self).cache@[key].value, node: old_entry.node },
            ),
            links_ok(final(self).cache@, final(self).deques.probation),
            final(self).deques.wf(),
            final(self).deques.window == old(self).deques.window,
            final(self).deques.protected == old(self).deques.protected,
            final(self).deques.probation@ == old(self).deques.probation@.remove(
                old(self).deques.probation.slots().index_of(
                    spec_handle_slot(old_entry.node.unwrap()),
                ),
            ).push(
                old(self).deques.probation@[old(self).deques.probation.slots().index_of(
                    spec_handle_slot(old_entry.node.unwrap()),
                )],
            ),
            final(self).max_capacity == old(self).max_capacity,
            final(self).entry_count == old(self).entry_count,
            final(self).frequency_sketch == old(self).frequency_sketch,
            final(self).frequency_sketch_enabled == old(self).frequency_sketch_enabled,
    {
        let ghost table = self.cache@.insert(key, old_entry);
        let ghost before = self.deques.probation;
        let mut entry = self.cache.remove(&key).unwrap();
        entry.replace_deq_nodes_with(old_entry);
        entry.set_policy_weight(policy_weight);
        proof {
            assert(table.contains_key(key));
            assert(entry_ok(table, before, key));
        }
        self.deques.move_to_back_ao(&entry);
        proof {
            lemma_move(table, before, self.deques.probation, key, entry);
            assert(self.cache@.insert(key, entry) =~= table.insert(key, entry));
            assert(table.insert(key, entry) =~= old(self).cache@.insert(key, entry));
        }
        self.cache.insert(key, entry);
    }

    /// Links the entry of `key`, which is in the table without a node, at
    /// the back of the probation deque.
    fn link_candidate(&mut self, key: K, hash: u64)
        requires
            obeys_key_model::<K>(),
            spec_clones_identically::<K>(),
            builds_valid_hashers::<S>(),
            old(self).cache@.contains_key(key),
            old(self).deques.wf(),
            links_ok(old(self).cache@.remove(key), old(self).deques.probation),
            old(self).entry_count == old(self).cache@.len() - 1,
            old(self).entry_count < MAX_SLOT,
        ensures
            final(self).cache@.contains_key(key),
            final(self).cache@.remove(key) == old(self).cache@.remove(key),
            final(self).cache@[key].value == old(self).cache@[key].value,
            links_ok(final(self).cache@, final(self).deques.probation),
            final(self).deques.wf(),
            final(self).deques.window == old(self).deques.window,
            final(self).deques.protected == old(self).deques.protected,
            final(self).deques.probation@ == old(self).deques.probation@.push(
                KeyHashDate { key, hash },
            ),
            final(self).entry_count == old(self).entry_count + 1,
            final(self).entry_count == final(self).cache@.len(),
            final(self).max_capacity == old(self).max_capacity,
            final(self).frequency_sketch == old(self).frequency_sketch,
            final(self).frequency_sketch_enabled == old(self).frequency_sketch_enabled,
    {
        let ghost rest = self.cache@.remove(key);
        let ghost before = self.deques.probation;
        let mut entry = self.cache.remove(&key).unwrap();
        self.deques.push_back_ao(
            CacheRegion::MainProbation,
            KeyHashDate::new(clone_key(&key), hash),
            &mut entry,
        );
        proof {
            lemma_push(
                rest,
                before,
                self.deques.probation,
                key,
                entry,
                spec_handle_slot(entry.node.unwrap()),
            );
            assert(rest.insert(key, entry).remove(key) =~= rest);
        }
        self.cache.insert(key, entry);
        self.entry_count += 1;
    }

    /// Finishes the insertion of a key that was not present and is now in
    /// the table without a node: the key is linked, or admitted in place of
    /// the least recently used entry, or taken out of the table again.
    fn handle_insert(&mut self, key: K, hash: u64, policy_weight: u32)
        requires
            obeys_key_model::<K>(),
            spec_clones_identically::<K>(),
            builds_valid_hashers::<S>(),
            policy_weight == 1,
            old(self).cache@.contains_key(key),
            old(self).deques.wf(),
            old(self).deques.window.slots().len() == 0,
            old(self).deques.protected.slots().len() == 0,
            old(self).frequency_sketch.wf(),
            links_ok(old(self).cache@.remove(key), old(self).deques.probation),
            old(self).entry_count == old(self).cache@.len() - 1,
            old(self).entry_count < MAX_SLOT,
            old(self).max_capacity is Some ==> old(self).entry_count <= old(
                self,
            ).max_capacity.unwrap(),
        ensures
            final(self).wf(),
            final(self).model() == spec_insert(
                CacheModel {
                    entries: spec_values(old(self).cache@.remove(key)),
                    lru: old(self).lru(),
                    max_capacity: old(self).spec_max_capacity(),
                    sketch: old(self).sketch(),
                    samples: old(self).sketch_samples(),
                    sketch_enabled: old(self).spec_sketch_enabled(),
                },
                key,
                old(self).cache@[key].value,
                hash,
            ),
    {
        let ghost rest = self.cache@.remove(key);
        let ghost value = self.cache@[key].value;
        let ghost before = self.deques.probation;
        let ghost model = CacheModel {
            entries: spec_values(rest),
            lru: self.lru(),
            max_capacity: self.spec_max_capacity(),
            sketch: self.sketch(),
            samples: self.sketch_samples(),
            sketch_enabled: self.spec_sketch_enabled(),
        };
        proof {
            before.lemma_slots();
            assert(!model.entries.contains_key(key));
            assert(model.lru.len() == self.entry_count);
        }
        let has_free_space = self.has_enough_capacity(policy_weight, self.entry_count);
        if has_free_space {
            // Add the candidate to the deque.
            self.link_candidate(key, hash);
            proof {
                assert(self.cache@ =~= rest.insert(key, self.cache@[key]));
                assert(self@ =~= spec_values(rest).insert(key, value));
                assert(model.entries.insert(key, value) =~= self@);
            }
            if self.should_enable_frequency_sketch() {
                self.enable_frequency_sketch();
            }
            return ;
        }
        if let Some(max) = self.max_capacity {
            if policy_weight as u64 > max {
                // The candidate is too big to fit in the cache. Reject it.
                self.cache.remove(&key);
                proof {
                    assert(self.cache@ =~= rest);
                }
                return ;
            }
        }
        let mut candidate = EntrySizeAndFrequency::new(policy_weight as u64);
        candidate.add_frequency(&self.frequency_sketch, hash);
        match Self::admit_candidate(&candidate, &self.deques, &self.frequency_sketch) {
            AdmissionResult::Admitted { victim_nodes } => {
                // Remove the victims from the table and from the deque.
                self.remove_victims(&victim_nodes, Ghost(key));
                let ghost head_key = before@[0].key;
                proof {
                    assert(self.cache@.remove(key) =~= rest.remove(head_key));
                }
                // Add the candidate to the deque.
                self.link_candidate(key, hash);
                proof {
                    assert(self.cache@ =~= rest.remove(head_key).insert(key, self.cache@[key]));
                    assert(self@ =~= spec_values(rest).remove(head_key).insert(key, value));
                    assert(model.entries.remove(head_key).insert(key, value) =~= self@);
                }
                if self.should_enable_frequency_sketch() {
                    self.enable_frequency_sketch();
                }
            },
            AdmissionResult::Rejected => {
                // Take the candidate out of the table again.
                self.cache.remove(&key);
                proof {
                    assert(self.cache@ =~= rest);
                }
            },
        }
    }

    /// Takes the victims of an admission out of the table and out of the
    /// probation deque.  An admission has one victim: the least recently
    /// used entry.
    fn remove_victims(&mut self, victim_nodes: &VictimList, candidate: Ghost<K>)
        requires
            obeys_key_model::<K>(),
            spec_clones_identically::<K>(),
            builds_valid_hashers::<S>(),
            old(self).deques.wf(),
            old(self).cache@.contains_key(candidate@),
            links_ok(old(self).cache@.remove(candidate@), old(self).deques.probation),
            old(self).deques.probation.slots().len() > 0,
            victim_slots(*victim_nodes) == seq![old(self).deques.probation.slots()[0]],
            old(self).entry_count == old(self).cache@.len() - 1,
        ensures
            final(self).cache@ == old(self).cache@.remove(old(self).deques.probation@[0].key),
            final(self).cache@.contains_key(candidate@),
            final(self).cache@[candidate@] == old(self).cache@[candidate@],
            links_ok(final(self).cache@.remove(candidate@), final(self).deques.probation),
            final(self).deques.wf(),
            final(self).deques.window == old(self).deques.window,
            final(self).deques.protected == old(self).deques.protected,
            final(self).deques.probation@ == old(self).deques.probation@.remove(0),
            final(self).entry_count == old(self).entry_count - 1,
            final(self).entry_count == final(self).cache@.len() - 1,
            final(self).max_capacity == old(self).max_capacity,
            final(self).frequency_sketch == old(self).frequency_sketch,
            final(self).frequency_sketch_enabled == old(self).frequency_sketch_enabled,
    {
        let ghost full = self.cache@;
        let ghost rest = full.remove(candidate@);
        let ghost before = self.deques.probation;
        let ghost head = before.slots()[0];
        let ghost head_key = before.element_at(head).key;
        proof {
            before.lemma_slots();
            assert(node_ok(rest, before, head));
            assert(entry_ok(rest, before, head_key));
            assert(before.slots().contains(head));
            assert(before.slots().index_of(head) == 0) by {
                let q = before.slots().index_of(head);
                assert(before.slots()[q] == head);
            }
            assert(before@[0].key == head_key);
        }
        let count = victims_len(victim_nodes);
        let mut i: usize = 0;
        while i < count
            invariant
                obeys_key_model::<K>(),
                spec_clones_identically::<K>(),
                builds_valid_hashers::<S>(),
                count == 1,
                i <= count,
                victim_slots(*victim_nodes) == seq![head],
                before.slots().contains(head),
                head < MAX_SLOT,
                node_ok(rest, before, head),
                head_key == before.element_at(head).key,
                before.slots().index_of(head) == 0,
                rest == full.remove(candidate@),
                full.contains_key(candidate@),
                links_ok(rest, before),
                rest.contains_key(head_key),
                entry_ok(rest, before, head_key),
                self.max_capacity == old(self).max_capacity,
                self.frequency_sketch == old(self).frequency_sketch,
                self.frequency_sketch_enabled == old(self).frequency_sketch_enabled,
                self.deques.wf(),
                self.deques.window == old(self).deques.window,
                self.deques.protected == old(self).deques.protected,
                self.entry_count == old(self).entry_count - i,
                old(self).entry_count == full.len() - 1,
                old(self).entry_count == rest.len(),
                i == 0 ==> self.cache@ == full && self.deques.probation == before,
                i == 1 ==> {
                    &&& self.cache@ == full.remove(head_key)
                    &&& links_ok(rest.remove(head_key), self.deques.probation)
                    &&& self.deques.probation@ == before@.remove(0)
                },
            decreases count - i,
        {
            let victim = victims_at(victim_nodes, i);
            assert(victim == head);
            let vic_key = clone_key(&self.deques.probation.element(victim).key);
            assert(vic_key == head_key);
            let mut vic_entry = self.cache.remove(&vic_key).expect(
                "Cannot remove a victim from the hash map",
            );
            assert(vic_entry == rest[head_key]);
            assert(self.cache@ == full.remove(head_key));
            proof {
                let h = vic_entry.node.unwrap();
                assert(h == spec_handle(spec_handle_slot(h), CacheRegion::MainProbation));
                assert(spec_handle_slot(h) == head);
                assert(h % 4 == 1);
                assert(self.deques.spec_links(h));
            }
            self.deques.unlink_ao(&mut vic_entry);
            self.entry_count -= 1;
            i += 1;
            proof {
                lemma_unlink(rest, before, self.deques.probation, head_key);
            }
        }
        proof {
            assert(self.cache@.remove(candidate@) =~= rest.remove(head_key));
            assert(head_key != candidate@);
        }
    }

    /// Decides whether a candidate of unit weight is admitted to a full
    /// cache.  The least recently used entry is its only potential victim;
    /// the candidate is admitted if and only if its frequency is strictly
    /// higher than the victim's.
    pub fn admit_candidate(
        candidate: &EntrySizeAndFrequency,
        deqs: &Deques<K>,
        freq: &FrequencySketch,
    ) -> (result: AdmissionResult)
        requires
            deqs.wf(),
            freq.wf(),
            candidate.weight == 1,
        ensures
            match result {
                AdmissionResult::Admitted { victim_nodes } => {
                    &&& deqs.probation@.len() > 0
                    &&& candidate.freq > spec_frequency(freq.table(), deqs.probation@[0].hash)
                    &&& victim_slots(victim_nodes) == seq![deqs.probation.slots()[0]]
                },
                AdmissionResult::Rejected => {
                    ||| deqs.probation@.len() == 0
                    ||| candidate.freq <= spec_frequency(freq.table(), deqs.probation@[0].hash)
                },
            },
    {
        let mut victims = EntrySizeAndFrequency::new(0);
        let mut victim_nodes = victims_new();
        // Get first potential victim at the LRU position.
        let mut next_victim = deqs.probation.peek_front_slot();
        let ghost slots = deqs.probation.slots();
        // Aggregate potential victims.
        while victims.weight < candidate.weight
            invariant
                deqs.probation.wf(),
                freq.wf(),
                candidate.weight == 1,
                slots == deqs.probation.slots(),
                victims.weight <= 1,
                victims.weight == 0 ==> {
                    &&& victims.freq == 0
                    &&& victim_slots(victim_nodes) == Seq::<usize>::empty()
                    &&& next_victim == (if slots.len() == 0 {
                        None::<usize>
                    } else {
                        Some(slots[0])
                    })
                },
                victims.weight == 1 ==> {
                    &&& slots.len() > 0
                    &&& victims.freq == spec_frequency(
                        freq.table(),
                        deqs.probation.element_at(slots[0]).hash,
                    )
                    &&& victim_slots(victim_nodes) == seq![slots[0]]
                },
            ensures
                victims.weight == 0 ==> slots.len() == 0,
            decreases candidate.weight - victims.weight,
        {
            if candidate.freq < victims.freq {
                break ;
            }
            if let Some(victim) = next_victim.take() {
                assert(victim == slots[0]);
                assert(slots.contains(victim));
                next_victim = deqs.probation.next_slot(victim);
                let vic_elem = deqs.probation.element(victim);
                victims.add_policy_weight();
                victims.add_frequency(freq, vic_elem.hash);
                victims_push(&mut victim_nodes, victim);
                assert(victim_slots(victim_nodes) =~= seq![slots[0]]);
            } else {
                break ;
            }
        }
        // Admit or reject the candidate.
        assert(deqs.probation@.len() == slots.len());
        assert(slots.len() > 0 ==> deqs.probation@[0] == deqs.probation.element_at(slots[0]));
        if victims.weight >= candidate.weight && candidate.freq > victims.freq {
            AdmissionResult::Admitted { victim_nodes }
        } else {
            AdmissionResult::Rejected
        }
    }

    /// Creates an iterator visiting all key-value pairs in arbitrary order.
    /// Visiting entries does not count as reading them: neither the
    /// frequency sketch nor the access order changes.
    pub fn iter(&self) -> (iter: Iter<'_, K, V>)
        requires
            self.wf(),
        ensures
            iter.wf(),
            spec_lists(iter@, self@),
    {
        let mut items: Vec<(&K, &V)> = Vec::new();
        let ghost table = self.cache@;
        for pair in it: self.cache.iter()
            invariant
                table == self.cache@,
                items@.len() == it.index(),
                forall|i: int|
                    0 <= i < items@.len() ==> *(#[trigger] items@[i]).0 == *it.seq()[i].0
                        && *items@[i].1 == (*it.seq()[i].1).value,
        {
            items.push((pair.0, &pair.1.value));
        }
        let iter = Iter::new(items);
        proof {
            let listed = spec_hash_map_iter(&self.cache).remaining();
            axiom_spec_hash_map_iter(&self.cache);
            assert(iter@.len() == self@.len()) by {
                assert(self@.dom() =~= table.dom());
            }
            assert forall|i: int| 0 <= i < iter@.len() implies self@.contains_key(
                (#[trigger] iter@[i]).0,
            ) && self@[iter@[i].0] == iter@[i].1 by {
                assert(table.contains_key(*listed[i].0));
            }
            assert forall|i: int, j: int|
                0 <= i < iter@.len() && 0 <= j < iter@.len() && i != j implies (
            #[trigger] iter@[i]).0 != (#[trigger] iter@[j]).0 by {
                assert(table.contains_key(*listed[i].0));
                assert(table.contains_key(*listed[j].0));
                if iter@[i].0 == iter@[j].0 {
                    assert(listed[i] == listed[j]);
                }
            }
            assert forall|k: K| #[trigger] self@.contains_key(k) implies exists|i: int|
                0 <= i < iter@.len() && #[trigger] iter@[i] == (k, self@[k]) by {
                assert(table.contains_key(k));
                assert(listed.contains((&k, &table[k])));
                let i = choose|i: int| 0 <= i < listed.len() && listed[i] == (&k, &table[k]);
                assert(iter@[i] == (k, self@[k]));
            }
        }
        iter
    }

    /// Discards cached values that satisfy a predicate.  The predicate is
    /// applied once to each entry; the entries for which it returns `true`
    /// are invalidated, the others stay as they are.  The frequency sketch
    /// keeps what it has counted.
    pub fn invalidate_entries_if<F: Fn(&K, &V) -> bool>(&mut self, predicate: F)
        requires
            old(self).wf(),
            forall|k: &K, v: &V| predicate.requires((k, v)),
        ensures
            final(self).wf(),
            forall|k: K| #[trigger]
                final(self)@.contains_key(k) ==> {
                    &&& old(self)@.contains_key(k)
                    &&& final(self)@[k] == old(self)@[k]
                    &&& predicate.ensures((&k, &old(self)@[k]), false)
                },
            forall|k: K|
                old(self)@.contains_key(k) && !(#[trigger] final(self)@.contains_key(k))
                    ==> predicate.ensures((&k, &old(self)@[k]), true),
            spec_keeps_order(old(self).lru(), final(self).lru()),
            final(self).spec_entry_count() == final(self).lru().len(),
            final(self).spec_max_capacity() == old(self).spec_max_capacity(),
            final(self).sketch() == old(self).sketch(),
            final(self).sketch_samples() == old(self).sketch_samples(),
            final(self).spec_sketch_enabled() == old(self).spec_sketch_enabled(),
    {
        // The table cannot be walked and changed at once, so this runs in
        // two steps: collect the keys to invalidate, then remove them.
        let ghost table = self.cache@;
        let mut keys_to_invalidate: Vec<K> = Vec::new();
        for pair in it: self.cache.iter()
            invariant
                table == self.cache@,
                spec_clones_identically::<K>(),
                forall|k: &K, v: &V| predicate.requires((k, v)),
                forall|j: int|
                    0 <= j < keys_to_invalidate@.len() ==> {
                        let k = #[trigger] keys_to_invalidate@[j];
                        &&& table.contains_key(k)
                        &&& predicate.ensures((&k, &table[k].value), true)
                    },
                forall|i: int|
                    0 <= i < it.index() ==> {
                        let visited = #[trigger] it.seq()[i];
                        ||| predicate.ensures((visited.0, &(*visited.1).value), false)
                        ||| keys_to_invalidate@.contains(*visited.0)
                    },
        {
            if predicate(pair.0, &pair.1.value) {
                let ghost before = keys_to_invalidate@;
                keys_to_invalidate.push(clone_key(pair.0));
                proof {
                    axiom_spec_hash_map_iter(&self.cache);
                    assert(keys_to_invalidate@[before.len() as int] == *pair.0);
                    assert forall|i: int| 0 <= i < it.index() + 1 implies {
                        let visited = #[trigger] it.seq()[i];
                        ||| predicate.ensures((visited.0, &(*visited.1).value), false)
                        ||| keys_to_invalidate@.contains(*visited.0)
                    } by {
                        let visited = it.seq()[i];
                        if i < it.index() {
                            if before.contains(*visited.0) {
                                let j = before.index_of(*visited.0);
                                assert(keys_to_invalidate@[j] == *visited.0);
                            }
                        }
                    }
                    assert(table.contains_key(*pair.0));
                }
            }
        }
        proof {
            axiom_spec_hash_map_iter(&self.cache);
        }
        let ghost listed = spec_hash_map_iter(&self.cache).remaining();
        let ghost first = self.deques.probation@;
        let ghost mut origin: Seq<int> = Seq::new(first.len(), |i: int| i);
        let mut invalidated: u64 = 0;
        let mut j: usize = 0;
        while j < keys_to_invalidate.len()
            invariant
                obeys_key_model::<K>(),
                spec_clones_identically::<K>(),
                first == old(self).deques.probation@,
                origin.len() == self.deques.probation@.len(),
                forall|i: int|
                    0 <= i < origin.len() ==> 0 <= #[trigger] origin[i] < first.len()
                        && first[origin[i]] == self.deques.probation@[i],
                forall|a: int, b: int|
                    0 <= a < b < origin.len() ==> #[trigger] origin[a] < #[trigger] origin[b],
                builds_valid_hashers::<S>(),
                j <= keys_to_invalidate@.len(),
                invalidated <= j,
                table == old(self).cache@,
                self.entry_count == old(self).entry_count,
                self.max_capacity == old(self).max_capacity,
                self.frequency_sketch == old(self).frequency_sketch,
                self.frequency_sketch_enabled == old(self).frequency_sketch_enabled,
                self.deques.wf(),
                self.deques.window == old(self).deques.window,
                self.deques.protected == old(self).deques.protected,
                links_ok(self.cache@, self.deques.probation),
                self.cache@.len() == old(self).entry_count - invalidated,
                forall|k: K| #[trigger]
                    self.cache@.contains_key(k) ==> table.contains_key(k) && self.cache@[k]
                        == table[k],
                forall|k: K|
                    table.contains_key(k) && !(#[trigger] self.cache@.contains_key(k))
                        ==> predicate.ensures((&k, &table[k].value), true),
                forall|i: int|
                    0 <= i < j ==> !self.cache@.contains_key(#[trigger] keys_to_invalidate@[i]),
                forall|i: int|
                    0 <= i < keys_to_invalidate@.len() ==> {
                        let k = #[trigger] keys_to_invalidate@[i];
                        &&& table.contains_key(k)
                        &&& predicate.ensures((&k, &table[k].value), true)
                    },
            decreases keys_to_invalidate@.len() - j,
        {
            let k = &keys_to_invalidate[j];
            let ghost current = self.cache@;
            let ghost before = self.deques.probation;
            if let Some(mut entry) = self.cache.remove(k) {
                let _weight = entry.policy_weight();
                proof {
                    assert(entry_ok(current, before, *k));
                }
                self.deques.unlink_ao(&mut entry);
                invalidated += 1;
                proof {
                    lemma_unlink(current, before, self.deques.probation, *k);
                    let p = before.slots().index_of(spec_handle_slot(current[*k].node.unwrap()));
                    let kept = origin.remove(p);
                    assert forall|i: int| 0 <= i < kept.len() implies 0 <= #[trigger] kept[i]
                        < first.len() && first[kept[i]] == self.deques.probation@[i] by {
                        let oi = if i < p {
                            i
                        } else {
                            i + 1
                        };
                        assert(kept[i] == origin[oi]);
                    }
                    assert forall|a: int, b: int| 0 <= a < b < kept.len() implies #[trigger] kept[a]
                        < #[trigger] kept[b] by {
                        let oa = if a < p {
                            a
                        } else {
                            a + 1
                        };
                        let ob = if b < p {
                            b
                        } else {
                            b + 1
                        };
                        assert(kept[a] == origin[oa] && kept[b] == origin[ob]);
                    }
                    origin = kept;
                }
            } else {
                assert(self.cache@ =~= current);
            }
            j += 1;
        }
        self.entry_count -= invalidated;
        proof {
            old(self).lemma_keys_are_linked();
            assert forall|i: int| 0 <= i < self.lru().len() implies spec_position(
                first,
                (#[trigger] self.lru()[i]).key,
            ) == origin[i] by {
                let key = self.lru()[i].key;
                let w = origin[i];
                assert(first == old(self).lru());
                assert(0 <= w < first.len() && first[w].key == key);
                let q = spec_position(first, key);
                assert(0 <= q < first.len() && first[q].key == key);
                if q != w {
                    assert(old(self).lru()[q].key != old(self).lru()[w].key);
                }
            }
            assert(spec_keeps_order(old(self).lru(), self.lru()));
        }
        proof {
            assert forall|k: K| #[trigger] self@.contains_key(k) implies {
                &&& old(self)@.contains_key(k)
                &&& self@[k] == old(self)@[k]
                &&& predicate.ensures((&k, &old(self)@[k]), false)
            } by {
                assert(self.cache@.contains_key(k));
                assert(table.contains_key(k));
                assert(listed.contains((&k, &table[k])));
                let i = choose|i: int| 0 <= i < listed.len() && listed[i] == (&k, &table[k]);
                if keys_to_invalidate@.contains(k) {
                    let q = keys_to_invalidate@.index_of(k);
                    assert(!self.cache@.contains_key(keys_to_invalidate@[q]));
                }
            }
            assert forall|k: K|
                old(self)@.contains_key(k) && !(#[trigger] self@.contains_key(k)) implies predicate.ensures(
                (&k, &old(self)@[k]), true) by {
                assert(table.contains_key(k));
                assert(!self.cache@.contains_key(k));
            }
        }
    }
}

impl<K: Clone, V, S> Cache<K, V, S> {
    /// In a well-formed cache the counter, the table and the probation
    /// deque hold the same number of entries, and a bounded cache holds no
    /// more entries than its bound.
    pub proof fn lemma_counts_agree(&self)
        requires
            self.wf(),
        ensures
            self@.dom().finite(),
            self.spec_entry_count() == self@.len(),
            self.spec_entry_count() == self.lru().len(),
            self.spec_max_capacity() is Some ==> self.spec_entry_count()
                <= self.spec_max_capacity().unwrap(),
    {
        assert(self@.dom() =~= self.cache@.dom());
    }

    /// In a well-formed cache the entry of every key names a node that is
    /// linked in the probation deque and holds that key.
    pub proof fn lemma_entries_are_linked(&self, key: K)
        requires
            self.wf(),
            self@.contains_key(key),
        ensures
            entry_ok(
                Map::new(
                    |k: K| self@.contains_key(k),
                    |k: K| ValueEntry { value: self@[k], node: self.spec_node(k) },
                ),
                self.spec_probation(),
                key,
            ),
            self.spec_node(key) is Some,
            spec_handle_region(self.spec_node(key).unwrap())
                == CacheRegion::MainProbation,
            self.spec_probation().slots().contains(spec_handle_slot(self.spec_node(key).unwrap())),
            self.spec_probation().element_at(spec_handle_slot(self.spec_node(key).unwrap())).key
                == key,
    {
        assert(self.cache@.contains_key(key));
        assert(entry_ok(self.cache@, self.deques.probation, key));
    }

    /// In a well-formed cache the keys of the table are the keys held by the
    /// nodes of the probation deque, and no two nodes hold the same key.
    pub proof fn lemma_keys_are_linked(&self)
        requires
            self.wf(),
        ensures
            forall|k: K| #[trigger]
                self@.contains_key(k) ==> 0 <= spec_position(self.lru(), k) < self.lru().len()
                    && self.lru()[spec_position(self.lru(), k)].key == k,
            forall|i: int|
                0 <= i < self.lru().len() ==> self@.contains_key((#[trigger] self.lru()[i]).key),
            forall|i: int, j: int|
                0 <= i < self.lru().len() && 0 <= j < self.lru().len() && i != j ==> (
                #[trigger] self.lru()[i]).key != (#[trigger] self.lru()[j]).key,
    {
        let d = self.deques.probation;
        let m = self.cache@;
        d.lemma_slots();
        assert forall|k: K| #[trigger] self@.contains_key(k) implies 0 <= spec_position(
            self.lru(),
            k,
        ) < self.lru().len() && self.lru()[spec_position(self.lru(), k)].key == k by {
            assert(m.contains_key(k));
            assert(entry_ok(m, d, k));
            lemma_position(m, d, k);
            let s = spec_handle_slot(m[k].node.unwrap());
            let p = d.slots().index_of(s);
            assert(d.slots()[p] == s);
        }
        assert forall|i: int| 0 <= i < self.lru().len() implies self@.contains_key(
            (#[trigger] self.lru()[i]).key,
        ) by {
            assert(node_ok(m, d, d.slots()[i]));
        }
        assert forall|i: int, j: int|
            0 <= i < self.lru().len() && 0 <= j < self.lru().len() && i != j implies (
        #[trigger] self.lru()[i]).key != (#[trigger] self.lru()[j]).key by {
            assert(node_ok(m, d, d.slots()[i]));
            assert(node_ok(m, d, d.slots()[j]));
            assert(d.slots()[i] < MAX_SLOT && d.slots()[j] < MAX_SLOT);
            assert(d.slots()[i] != d.slots()[j]);
        }
    }

    /// A read finds a value exactly when `contains_key`, asked immediately
    /// before on the same cache, answers `true`: `found` is what
    /// `contains_key` returns on `self`, which it leaves as it is, and
    /// `value` is what `get` then returns.
    pub proof fn lemma_get_agrees_with_contains_key(&self, key: K, found: bool, value: Option<V>)
        requires
            found == self@.contains_key(key),
            value is Some <==> self@.contains_key(key),
            value is Some ==> value.unwrap() == self@[key],
        ensures
            value is Some <==> found,
            found ==> value == Some(self@[key]),
    {
    }

    /// A cache that maps nothing, as `invalidate_all` leaves it, finds no
    /// value for any key: `value` is what `get` returns on `self`.
    pub proof fn lemma_get_after_invalidate_all(&self, key: K, value: Option<V>)
        requires
            self@ == Map::<K, V>::empty(),
            value is Some <==> self@.contains_key(key),
        ensures
            value is None,
    {
    }

    /// An iterator over a well-formed cache yields as many entries as the
    /// cache counts, each key once and with its value.
    pub proof fn lemma_iter_covers_entries(&self, items: Seq<(K, V)>, key: K)
        requires
            self.wf(),
            spec_lists(items, self@),
        ensures
            items.len() == self.spec_entry_count(),
            self@.contains_key(key) <==> exists|i: int|
                0 <= i < items.len() && (#[trigger] items[i]).0 == key,
            self@.contains_key(key) ==> items.contains((key, self@[key])),
    {
        self.lemma_counts_agree();
        if self@.contains_key(key) {
            let i = choose|i: int| 0 <= i < items.len() && #[trigger] items[i] == (key, self@[key]);
            assert(items[i].0 == key);
        }
    }
}


} // verus!
