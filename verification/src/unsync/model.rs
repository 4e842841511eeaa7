//! The cache as a plain value, and what an insertion makes of it.
use vstd::prelude::*;

use crate::common::frequency_sketch::{spec_frequency, spec_table_len_for};
use crate::common::spec_sketch_capacity;
use crate::unsync::links::{spec_position, spec_touch};
use crate::unsync::{KeyHashDate, ValueEntry};

verus! {

/// The largest number of entries that one sweep evicts.
pub const EVICTION_BATCH_SIZE: usize = 100;

/// Whether a cache bounded by `max` that holds `count` entries has room for
/// one more.
pub open spec fn spec_has_room(max: Option<u64>, count: u64) -> bool {
    match max {
        Some(limit) => count + 1 <= limit,
        None => true,
    }
}

/// The number of entries by which `count` exceeds the bound `max`.
pub open spec fn spec_overshoot(max: Option<u64>, count: u64) -> u64 {
    match max {
        Some(limit) => if count > limit {
            (count - limit) as u64
        } else {
            0
        },
        None => 0,
    }
}

/// The number of entries that one sweep evicts: the overshoot, but no more
/// than a batch.
pub open spec fn spec_sweep(max: Option<u64>, count: u64) -> nat {
    if spec_overshoot(max, count) > EVICTION_BATCH_SIZE {
        EVICTION_BATCH_SIZE as nat
    } else {
        spec_overshoot(max, count) as nat
    }
}

/// Whether a candidate with hash `hash` is admitted in place of the least
/// recently used entry: there is such an entry, and the candidate's
/// estimated frequency is strictly higher.
pub open spec fn spec_admits<K>(table: Seq<u64>, lru: Seq<KeyHashDate<K>>, hash: u64) -> bool {
    lru.len() > 0 && spec_frequency(table, hash) > spec_frequency(table, lru[0].hash)
}

/// Whether the frequency sketch is switched on once the cache holds `count`
/// entries: it is still off, the cache is bounded, and at least half full.
pub open spec fn spec_turns_on(max: Option<u64>, enabled: bool, count: u64) -> bool {
    !enabled && max is Some && count >= max.unwrap() / 2
}

/// The table of the sketch after room for `capacity` entries was ensured.
pub open spec fn spec_ensured(table: Seq<u64>, capacity: u32) -> Seq<u64> {
    if table.len() >= spec_table_len_for(capacity) {
        table
    } else {
        Seq::new(spec_table_len_for(capacity) as nat, |i: int| 0u64)
    }
}

/// The sample counter of the sketch after room for `capacity` entries was
/// ensured: a table that is replaced starts a new sample period.
pub open spec fn spec_ensured_samples(table: Seq<u64>, samples: u64, capacity: u32) -> u64 {
    if table.len() >= spec_table_len_for(capacity) {
        samples
    } else {
        0
    }
}

/// The state of a cache as a plain value: what it maps, in which order its
/// entries were last used, and what its frequency sketch holds.
#[verifier::reject_recursive_types(K)]
pub struct CacheModel<K, V> {
    pub entries: Map<K, V>,
    pub lru: Seq<KeyHashDate<K>>,
    pub max_capacity: Option<u64>,
    pub sketch: Seq<u64>,
    pub samples: u64,
    pub sketch_enabled: bool,
}

/// The state after a successful insertion: the frequency sketch is switched
/// on when the cache has become at least half full.
pub open spec fn spec_switch_on<K, V>(m: CacheModel<K, V>) -> CacheModel<K, V> {
    if m.lru.len() <= u64::MAX && spec_turns_on(
        m.max_capacity,
        m.sketch_enabled,
        m.lru.len() as u64,
    ) {
        let capacity = spec_sketch_capacity(m.max_capacity.unwrap());
        CacheModel {
            entries: m.entries,
            lru: m.lru,
            max_capacity: m.max_capacity,
            sketch: spec_ensured(m.sketch, capacity),
            samples: spec_ensured_samples(m.sketch, m.samples, capacity),
            sketch_enabled: true,
        }
    } else {
        m
    }
}

/// The state after `key` was inserted with `value`, `hash` being the hash of
/// the key.
///
/// A key that is present gets the new value and becomes the most recently
/// used.  A new key is linked at the back while the cache has room.  In a
/// full cache it is admitted only if its estimated frequency is strictly
/// higher than that of the least recently used entry, which it then
/// replaces; otherwise the cache stays as it is.  A cache of capacity zero
/// admits nothing.
pub open spec fn spec_insert<K, V>(m: CacheModel<K, V>, key: K, value: V, hash: u64) -> CacheModel<
    K,
    V,
> {
    if m.entries.contains_key(key) {
        CacheModel {
            entries: m.entries.insert(key, value),
            lru: spec_touch(m.lru, key),
            max_capacity: m.max_capacity,
            sketch: m.sketch,
            samples: m.samples,
            sketch_enabled: m.sketch_enabled,
        }
    } else if m.lru.len() < u64::MAX && spec_has_room(m.max_capacity, m.lru.len() as u64) {
        spec_switch_on(
            CacheModel {
                entries: m.entries.insert(key, value),
                lru: m.lru.push(KeyHashDate { key, hash }),
                max_capacity: m.max_capacity,
                sketch: m.sketch,
                samples: m.samples,
                sketch_enabled: m.sketch_enabled,
            },
        )
    } else if m.max_capacity == Some(0u64) {
        m
    } else if spec_admits(m.sketch, m.lru, hash) {
        spec_switch_on(
            CacheModel {
                entries: m.entries.remove(m.lru[0].key).insert(key, value),
                lru: m.lru.remove(0).push(KeyHashDate { key, hash }),
                max_capacity: m.max_capacity,
                sketch: m.sketch,
                samples: m.samples,
                sketch_enabled: m.sketch_enabled,
            },
        )
    } else {
        m
    }
}

/// The values of a table of entries.
pub open spec fn spec_values<K, V>(table: Map<K, ValueEntry<V>>) -> Map<K, V> {
    Map::new(|k: K| table.contains_key(k), |k: K| table[k].value)
}

/// `items` lists exactly the entries of `m`, each of them once.
pub open spec fn spec_lists<K, V>(items: Seq<(K, V)>, m: Map<K, V>) -> bool {
    &&& items.len() == m.len()
    &&& forall|i: int|
        0 <= i < items.len() ==> m.contains_key((#[trigger] items[i]).0) && m[items[i].0]
            == items[i].1
    &&& forall|i: int, j: int|
        0 <= i < items.len() && 0 <= j < items.len() && i != j ==> (#[trigger] items[i]).0 != (
        #[trigger] items[j]).0
    &&& forall|k: K| #[trigger]
        m.contains_key(k) ==> exists|i: int|
            0 <= i < items.len() && #[trigger] items[i] == (k, m[k])
}

/// `after` holds nodes of `before`, each at most once and in the order in
/// which `before` holds them.
pub open spec fn spec_keeps_order<K>(
    before: Seq<KeyHashDate<K>>,
    after: Seq<KeyHashDate<K>>,
) -> bool {
    &&& forall|i: int|
        0 <= i < after.len() ==> 0 <= spec_position(before, (#[trigger] after[i]).key)
            < before.len() && before[spec_position(before, after[i].key)] == after[i]
    &&& forall|i: int, j: int|
        0 <= i < j < after.len() ==> spec_position(before, (#[trigger] after[i]).key)
            < spec_position(before, (#[trigger] after[j]).key)
}

/// Once the frequency sketch is switched on, no insertion switches it off.
pub proof fn lemma_insert_keeps_sketch_enabled<K, V>(
    m: CacheModel<K, V>,
    key: K,
    value: V,
    hash: u64,
)
    requires
        m.sketch_enabled,
    ensures
        spec_insert(m, key, value, hash).sketch_enabled,
        spec_insert(m, key, value, hash).sketch == m.sketch,
{
}

/// An insertion never changes the bound of a cache, and a new key never
/// makes a bounded cache hold more nodes than its bound.
pub proof fn lemma_insert_respects_capacity<K, V>(
    m: CacheModel<K, V>,
    key: K,
    value: V,
    hash: u64,
)
    requires
        !m.entries.contains_key(key),
        m.max_capacity is Some ==> m.lru.len() <= m.max_capacity.unwrap(),
    ensures
        spec_insert(m, key, value, hash).max_capacity == m.max_capacity,
        m.max_capacity is Some ==> spec_insert(m, key, value, hash).lru.len()
            <= m.max_capacity.unwrap(),
        spec_insert(m, key, value, hash).lru.len() <= m.lru.len() + 1,
{
}

/// After an insertion the cache maps the key to the new value, or the key
/// was new and rejected and the cache is as it was.
pub proof fn lemma_insert_maps_key_or_rejects<K, V>(
    m: CacheModel<K, V>,
    key: K,
    value: V,
    hash: u64,
)
    ensures
        ({
            let after = spec_insert(m, key, value, hash);
            ||| after.entries.contains_key(key) && after.entries[key] == value
            ||| !m.entries.contains_key(key) && after == m
        }),
{
}

} // verus!
