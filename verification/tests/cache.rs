use std::cell::Cell;
use std::collections::HashSet;
use std::rc::Rc;

use micro_moka::common::frequency_sketch::FrequencySketch;
use micro_moka::common::sketch_capacity;
use micro_moka::common::CacheRegion;
use micro_moka::unsync::cache::{AdmissionResult, EntrySizeAndFrequency};
use micro_moka::unsync::deques::Deques;
use micro_moka::unsync::{Cache, CacheBuilder, KeyHashDate, ValueEntry};

fn render<K: std::fmt::Debug + std::hash::Hash + Eq + Clone, V: std::fmt::Debug>(
    cache: &Cache<K, V>,
) -> String {
    let mut iter = cache.iter();
    let mut parts: Vec<String> = Vec::new();
    while let Some((k, v)) = iter.next() {
        parts.push(format!("{:?}: {:?}", k, v));
    }
    format!("{{{}}}", parts.join(", "))
}

#[test]
fn build_cache() {
    // Cache<char, String>
    let mut cache = CacheBuilder::<char, String, _>::new(100).build();
    let policy = cache.policy();

    assert_eq!(policy.max_capacity(), Some(100));

    cache.insert('a', "Alice".to_string());
    assert_eq!(cache.get(&'a'), Some(&"Alice".to_string()));
}

#[test]
fn basic_single_thread() {
    let mut cache = Cache::new(3);
    cache.enable_frequency_sketch();

    cache.insert("a", "alice");
    cache.insert("b", "bob");
    assert_eq!(cache.get(&"a"), Some(&"alice"));
    assert!(cache.contains_key(&"a"));
    assert!(cache.contains_key(&"b"));
    assert_eq!(cache.get(&"b"), Some(&"bob"));
    // counts: a -> 1, b -> 1

    cache.insert("c", "cindy");
    assert_eq!(cache.get(&"c"), Some(&"cindy"));
    assert!(cache.contains_key(&"c"));
    // counts: a -> 1, b -> 1, c -> 1

    assert!(cache.contains_key(&"a"));
    assert_eq!(cache.get(&"a"), Some(&"alice"));
    assert_eq!(cache.get(&"b"), Some(&"bob"));
    assert!(cache.contains_key(&"b"));
    // counts: a -> 2, b -> 2, c -> 1

    // "d" should not be admitted because its frequency is too low.
    cache.insert("d", "david"); //   count: d -> 0
    assert_eq!(cache.get(&"d"), None); //   d -> 1
    assert!(!cache.contains_key(&"d"));

    cache.insert("d", "david");
    assert!(!cache.contains_key(&"d"));
    assert_eq!(cache.get(&"d"), None); //   d -> 2

    // "d" should be admitted and "c" should be evicted
    // because d's frequency is higher than c's.
    cache.insert("d", "dennis");
    assert_eq!(cache.get(&"a"), Some(&"alice"));
    assert_eq!(cache.get(&"b"), Some(&"bob"));
    assert_eq!(cache.get(&"c"), None);
    assert_eq!(cache.get(&"d"), Some(&"dennis"));
    assert!(cache.contains_key(&"a"));
    assert!(cache.contains_key(&"b"));
    assert!(!cache.contains_key(&"c"));
    assert!(cache.contains_key(&"d"));

    cache.invalidate(&"b");
    assert_eq!(cache.get(&"b"), None);
    assert!(!cache.contains_key(&"b"));
}

#[test]
fn invalidate_all() {
    let mut cache = Cache::new(100);
    cache.enable_frequency_sketch();

    cache.insert("a", "alice");
    cache.insert("b", "bob");
    cache.insert("c", "cindy");
    assert_eq!(cache.get(&"a"), Some(&"alice"));
    assert_eq!(cache.get(&"b"), Some(&"bob"));
    assert_eq!(cache.get(&"c"), Some(&"cindy"));
    assert!(cache.contains_key(&"a"));
    assert!(cache.contains_key(&"b"));
    assert!(cache.contains_key(&"c"));

    cache.invalidate_all();

    cache.insert("d", "david");

    assert!(cache.get(&"a").is_none());
    assert!(cache.get(&"b").is_none());
    assert!(cache.get(&"c").is_none());
    assert_eq!(cache.get(&"d"), Some(&"david"));
    assert!(!cache.contains_key(&"a"));
    assert!(!cache.contains_key(&"b"));
    assert!(!cache.contains_key(&"c"));
    assert!(cache.contains_key(&"d"));
}

#[test]
fn invalidate_entries_if() {
    let mut cache = Cache::new(100);
    cache.enable_frequency_sketch();

    cache.insert(0, "alice");
    cache.insert(1, "bob");
    cache.insert(2, "alex");

    assert_eq!(cache.get(&0), Some(&"alice"));
    assert_eq!(cache.get(&1), Some(&"bob"));
    assert_eq!(cache.get(&2), Some(&"alex"));
    assert!(cache.contains_key(&0));
    assert!(cache.contains_key(&1));
    assert!(cache.contains_key(&2));

    let names = ["alice", "alex"].iter().cloned().collect::<HashSet<_>>();
    cache.invalidate_entries_if(move |_k, &v| names.contains(v));

    cache.insert(3, "alice");

    assert!(cache.get(&0).is_none());
    assert!(cache.get(&2).is_none());
    assert_eq!(cache.get(&1), Some(&"bob"));
    // This should survive as it was inserted after calling invalidate_entries_if.
    assert_eq!(cache.get(&3), Some(&"alice"));

    assert!(!cache.contains_key(&0));
    assert!(cache.contains_key(&1));
    assert!(!cache.contains_key(&2));
    assert!(cache.contains_key(&3));

    assert_eq!(cache.iter().len(), 2);
    assert_eq!(cache.entry_count(), 2);

    cache.invalidate_entries_if(|_k, &v| v == "alice");
    cache.invalidate_entries_if(|_k, &v| v == "bob");

    assert!(cache.get(&1).is_none());
    assert!(cache.get(&3).is_none());

    assert!(!cache.contains_key(&1));
    assert!(!cache.contains_key(&3));

    assert_eq!(cache.iter().len(), 0);
}

fn ensure_sketch_len(max_capacity: u64, len: u64, name: &str) {
    let mut cache = Cache::<u8, u8>::new(max_capacity);
    cache.enable_frequency_sketch();
    assert_eq!(cache.sketch_table_len(), len as usize, "{}", name);
}

fn ensure_sketch_len_for(max_capacity: u64, len: u64, name: &str) {
    let words = FrequencySketch::table_len_for(sketch_capacity(max_capacity));
    assert_eq!(words as usize, len as usize, "{}", name);
}

#[test]
fn test_skt_capacity_will_not_overflow() {
    // power of two
    let pot = |exp| 2u64.pow(exp);

    if usize::BITS == 32 {
        let pot24 = pot(24);
        let pot16 = pot(16);
        ensure_sketch_len(0, 128, "0");
        ensure_sketch_len(128, 128, "128");
        ensure_sketch_len(pot16, pot16, "pot16");
        // due to ceiling to next_power_of_two
        ensure_sketch_len(pot16 + 1, pot(17), "pot16 + 1");
        // due to ceiling to next_power_of_two
        ensure_sketch_len(pot24 - 1, pot24, "pot24 - 1");
        ensure_sketch_len(pot24, pot24, "pot24");
        ensure_sketch_len(pot(27), pot24, "pot(27)");
        ensure_sketch_len(u32::MAX as u64, pot24, "u32::MAX");
    } else {
        // pointer width: 64 or larger.
        let pot30 = pot(30);
        let pot16 = pot(16);
        ensure_sketch_len(0, 128, "0");
        ensure_sketch_len(128, 128, "128");
        ensure_sketch_len(pot16, pot16, "pot16");
        // due to ceiling to next_power_of_two
        ensure_sketch_len(pot16 + 1, pot(17), "pot16 + 1");

        // A table of 2^30 words takes 8 GiB: for these capacities the
        // length is computed and the table is not reserved.
        // due to ceiling to next_power_of_two
        ensure_sketch_len_for(pot30 - 1, pot30, "pot30- 1");
        ensure_sketch_len_for(pot30, pot30, "pot30");
        ensure_sketch_len_for(u64::MAX, pot30, "u64::MAX");
    };
}

#[test]
fn remove_decrements_entry_count() {
    let mut cache = Cache::new(3);
    cache.insert("a", "alice");
    cache.insert("b", "bob");
    assert_eq!(cache.entry_count(), 2);

    let removed = cache.remove(&"a");
    assert_eq!(removed, Some("alice"));
    assert_eq!(cache.entry_count(), 1);

    cache.remove(&"nonexistent");
    assert_eq!(cache.entry_count(), 1);

    cache.remove(&"b");
    assert_eq!(cache.entry_count(), 0);
}

#[test]
fn invalidate_decrements_entry_count() {
    let mut cache = Cache::new(3);
    cache.insert("a", "alice");
    cache.insert("b", "bob");
    assert_eq!(cache.entry_count(), 2);

    cache.invalidate(&"a");
    assert_eq!(cache.entry_count(), 1);

    cache.invalidate(&"nonexistent");
    assert_eq!(cache.entry_count(), 1);

    cache.invalidate(&"b");
    assert_eq!(cache.entry_count(), 0);
}

#[test]
fn insert_after_remove_on_full_cache() {
    let mut cache = Cache::new(2);
    cache.insert("a", "alice");
    cache.insert("b", "bob");
    assert_eq!(cache.entry_count(), 2);

    cache.remove(&"a");
    assert_eq!(cache.entry_count(), 1);

    cache.insert("c", "cindy");
    assert_eq!(cache.entry_count(), 2);
    assert_eq!(cache.get(&"c"), Some(&"cindy"));
    assert_eq!(cache.get(&"b"), Some(&"bob"));
    assert_eq!(cache.get(&"a"), None);
}

#[test]
fn insert_after_invalidate_on_full_cache() {
    let mut cache = Cache::new(2);
    cache.insert("a", "alice");
    cache.insert("b", "bob");
    assert_eq!(cache.entry_count(), 2);

    cache.invalidate(&"a");
    assert_eq!(cache.entry_count(), 1);

    cache.insert("c", "cindy");
    assert_eq!(cache.entry_count(), 2);
    assert_eq!(cache.get(&"c"), Some(&"cindy"));
    assert_eq!(cache.get(&"b"), Some(&"bob"));
    assert_eq!(cache.get(&"a"), None);
}

#[test]
fn test_debug_format() {
    let mut cache = Cache::new(10);
    cache.insert('a', "alice");
    cache.insert('b', "bob");
    cache.insert('c', "cindy");

    let debug_str = render(&cache);
    assert!(debug_str.starts_with('{'));
    assert!(debug_str.contains(r#"'a': "alice""#));
    assert!(debug_str.contains(r#"'b': "bob""#));
    assert!(debug_str.contains(r#"'c': "cindy""#));
    assert!(debug_str.ends_with('}'));
}

#[test]
fn update_replaces_value_and_keeps_count() {
    let mut cache = Cache::new(2);
    cache.insert(1u32, "one");
    cache.insert(2u32, "two");
    cache.insert(1u32, "uno");
    assert_eq!(cache.entry_count(), 2);
    assert_eq!(cache.weighted_size(), 2);
    assert_eq!(cache.get(&1), Some(&"uno"));
    assert_eq!(cache.get(&2), Some(&"two"));
}

#[test]
fn update_makes_entry_most_recently_used() {
    // Capacity 2, the sketch counting from the start.
    let mut cache = Cache::new(2);
    cache.enable_frequency_sketch();
    cache.insert(1u32, "one");
    cache.insert(2u32, "two");
    // Key 1 is updated and becomes the most recently used: key 2 is now the
    // least recently used and the victim of the next admission.
    cache.insert(1u32, "uno");
    assert_eq!(cache.get_with_hash(&3, 77), None);
    cache.insert_with_hash(3u32, "three", 77);
    assert!(cache.contains_key(&1));
    assert!(!cache.contains_key(&2));
    assert!(cache.contains_key(&3));
    assert_eq!(cache.entry_count(), 2);
}

#[test]
fn candidate_with_equal_frequency_is_rejected() {
    let mut cache = Cache::new(1);
    cache.enable_frequency_sketch();
    cache.insert_with_hash(1u32, 10u32, 1000);
    // Both hashes have been counted once: the candidate does not win.
    assert_eq!(cache.get_with_hash(&1, 1000), Some(&10));
    assert_eq!(cache.get_with_hash(&2, 2000), None);
    cache.insert_with_hash(2u32, 20u32, 2000);
    assert!(cache.contains_key(&1));
    assert!(!cache.contains_key(&2));
    // Counted twice against once, the candidate replaces the entry.
    assert_eq!(cache.get_with_hash(&2, 2000), None);
    cache.insert_with_hash(2u32, 20u32, 2000);
    assert!(!cache.contains_key(&1));
    assert_eq!(cache.get_with_hash(&2, 2000), Some(&20));
    assert_eq!(cache.entry_count(), 1);
}

#[test]
fn capacity_zero_admits_nothing() {
    let mut cache = Cache::new(0);
    cache.insert(1u8, 1u8);
    assert_eq!(cache.entry_count(), 0);
    assert!(!cache.contains_key(&1));
    assert_eq!(cache.get(&1), None);
    assert_eq!(cache.iter().len(), 0);
}

#[test]
fn entry_count_never_exceeds_capacity() {
    let mut cache = Cache::new(5);
    for round in 0..3u32 {
        for key in 0..40u32 {
            cache.insert(key, key + round);
            let _ = cache.get(&(key / 2));
            assert!(cache.entry_count() <= 5);
            assert_eq!(cache.entry_count() as usize, cache.iter().len());
        }
    }
}

#[test]
fn unbounded_cache_keeps_everything() {
    let mut cache = Cache::<u32, u32>::builder().initial_capacity(16).build();
    assert_eq!(cache.policy().max_capacity(), None);
    for key in 0..300u32 {
        cache.insert(key, key * 2);
    }
    assert_eq!(cache.entry_count(), 300);
    assert_eq!(cache.sketch_table_len(), 0);
    cache.evict_lru_entries();
    assert_eq!(cache.entry_count(), 300);
    assert_eq!(cache.get(&299), Some(&598));
}

#[test]
fn sketch_is_enabled_when_half_full() {
    let mut cache = Cache::new(300);
    for key in 0..149u32 {
        cache.insert(key, key);
    }
    assert_eq!(cache.sketch_table_len(), 0);
    cache.insert(149u32, 149u32);
    assert_eq!(cache.sketch_table_len(), 512);
}

#[test]
fn get_agrees_with_contains_key() {
    let mut cache = Cache::new(4);
    cache.insert(7u64, "seven");
    for key in [7u64, 8u64] {
        let present = cache.contains_key(&key);
        assert_eq!(cache.get(&key).is_some(), present);
    }
}

#[test]
fn iter_yields_each_entry_once() {
    let mut cache = Cache::new(10);
    cache.insert(1u8, 'x');
    cache.insert(2u8, 'y');
    cache.insert(3u8, 'z');
    cache.invalidate(&2);
    let mut iter = cache.iter();
    assert_eq!(iter.len(), 2);
    let mut seen: Vec<(u8, char)> = Vec::new();
    while let Some((k, v)) = iter.next() {
        seen.push((*k, *v));
    }
    seen.sort();
    assert_eq!(seen, vec![(1, 'x'), (3, 'z')]);
    assert!(iter.next().is_none());
}

#[test]
fn invalidate_all_then_get_finds_nothing() {
    let mut cache = Cache::new(10);
    cache.insert(1u8, 1u8);
    cache.insert(2u8, 2u8);
    cache.invalidate_all();
    assert_eq!(cache.entry_count(), 0);
    assert_eq!(cache.get(&1), None);
    assert_eq!(cache.get(&2), None);
    cache.insert(3u8, 3u8);
    assert_eq!(cache.entry_count(), 1);
    assert!(cache.contains_key(&3));
}

#[test]
fn builder_with_custom_hasher() {
    let hasher = std::collections::hash_map::RandomState::new();
    let mut cache = CacheBuilder::<u16, u16, _>::new(8)
        .max_capacity(2)
        .initial_capacity(4)
        .build_with_hasher(hasher);
    assert_eq!(cache.policy().max_capacity(), Some(2));
    cache.insert(1, 1);
    cache.insert(2, 2);
    cache.insert(3, 3);
    assert_eq!(cache.entry_count(), 2);
}

struct CountsDrop {
    drops: Rc<Cell<u32>>,
}

impl Drop for CountsDrop {
    fn drop(&mut self) {
        self.drops.set(self.drops.get() + 1);
    }
}

#[test]
fn invalidate_all_drops_every_value() {
    let drops = Rc::new(Cell::new(0u32));
    let mut cache = Cache::new(10);
    for key in 1..=3u32 {
        cache.insert(key, CountsDrop { drops: Rc::clone(&drops) });
    }
    assert_eq!(cache.entry_count(), 3);
    assert_eq!(drops.get(), 0);

    cache.invalidate_all();
    assert_eq!(drops.get(), 3);
    assert_eq!(cache.entry_count(), 0);
    assert_eq!(cache.iter().len(), 0);

    cache.insert(4u32, CountsDrop { drops: Rc::clone(&drops) });
    assert_eq!(cache.entry_count(), 1);
    assert!(cache.contains_key(&4));
}

#[test]
fn update_drops_the_old_value() {
    let drops = Rc::new(Cell::new(0u32));
    let mut cache = Cache::new(10);
    cache.insert(1u32, CountsDrop { drops: Rc::clone(&drops) });
    cache.insert(1u32, CountsDrop { drops: Rc::clone(&drops) });
    assert_eq!(drops.get(), 1);
    assert_eq!(cache.entry_count(), 1);
}

#[test]
fn rejected_candidate_is_dropped_and_victim_stays() {
    let drops = Rc::new(Cell::new(0u32));
    let mut cache = Cache::new(1);
    cache.insert_with_hash(1u32, CountsDrop { drops: Rc::clone(&drops) }, 11);
    // No hash has been counted: the candidate does not beat the entry.
    cache.insert_with_hash(2u32, CountsDrop { drops: Rc::clone(&drops) }, 22);
    assert_eq!(drops.get(), 1);
    assert!(cache.contains_key(&1));
    assert!(!cache.contains_key(&2));
    assert_eq!(cache.entry_count(), 1);
}

#[test]
fn admission_compares_candidate_with_least_recently_used() {
    let mut sketch = FrequencySketch::new();
    sketch.ensure_capacity(128);
    let mut deques: Deques<u32> = Deques::new();

    let mut candidate = EntrySizeAndFrequency::new(1);
    candidate.add_frequency(&sketch, 500);
    assert_eq!(candidate.weight, 1);
    assert_eq!(candidate.freq, 0);
    // Nothing to evict: rejected.
    assert!(matches!(
        Cache::<u32, u32>::admit_candidate(&candidate, &deques, &sketch),
        AdmissionResult::Rejected
    ));

    let mut entry = ValueEntry::new(0u32);
    deques.push_back_ao(CacheRegion::MainProbation, KeyHashDate::new(9u32, 900), &mut entry);
    sketch.increment(900);
    sketch.increment(500);
    let mut candidate = EntrySizeAndFrequency::new(1);
    candidate.add_frequency(&sketch, 500);
    assert_eq!(candidate.freq, 1);
    // One against one: rejected.
    assert!(matches!(
        Cache::<u32, u32>::admit_candidate(&candidate, &deques, &sketch),
        AdmissionResult::Rejected
    ));

    sketch.increment(500);
    let mut candidate = EntrySizeAndFrequency::new(1);
    candidate.add_frequency(&sketch, 500);
    assert_eq!(candidate.freq, 2);
    // Two against one: admitted.
    assert!(matches!(
        Cache::<u32, u32>::admit_candidate(&candidate, &deques, &sketch),
        AdmissionResult::Admitted { .. }
    ));

    let mut victims = EntrySizeAndFrequency::new(0);
    victims.add_policy_weight();
    victims.add_frequency(&sketch, 900);
    assert_eq!(victims.weight, 1);
    assert_eq!(victims.freq, 1);
}

#[test]
fn invalidate_by_predicate_keeps_access_order() {
    let mut cache = Cache::new(3);
    cache.enable_frequency_sketch();
    cache.insert_with_hash(1u32, 'a', 101);
    cache.insert_with_hash(2u32, 'b', 102);
    cache.insert_with_hash(3u32, 'c', 103);
    cache.invalidate_entries_if(|k, _v| *k == 1);
    assert_eq!(cache.entry_count(), 2);
    // Key 2 is now the least recently used: a popular candidate replaces it.
    cache.insert_with_hash(4u32, 'd', 104);
    assert_eq!(cache.entry_count(), 3);
    assert_eq!(cache.get_with_hash(&5, 105), None);
    cache.insert_with_hash(5u32, 'e', 105);
    assert!(!cache.contains_key(&2));
    assert!(cache.contains_key(&3));
    assert!(cache.contains_key(&4));
    assert!(cache.contains_key(&5));
}

#[test]
fn keys_that_own_their_data() {
    let mut cache = Cache::new(2);
    cache.enable_frequency_sketch();
    cache.insert(String::from("alpha"), 1u32);
    cache.insert(String::from("beta"), 2u32);
    assert_eq!(cache.get(&String::from("alpha")), Some(&1));
    assert_eq!(cache.get(&String::from("alpha")), Some(&1));
    cache.insert(String::from("alpha"), 10u32);
    assert_eq!(cache.entry_count(), 2);
    assert_eq!(cache.remove(&String::from("beta")), Some(2));
    assert_eq!(cache.remove(&String::from("beta")), None);
    cache.invalidate_entries_if(|k, _v| k.starts_with('a'));
    assert_eq!(cache.entry_count(), 0);
    assert!(!cache.contains_key(&String::from("alpha")));
}
