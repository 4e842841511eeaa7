use micro_moka::common::deque::Deque;
use micro_moka::common::frequency_sketch::{next_power_of_two, FrequencySketch};
use micro_moka::common::handle::{
    clear_region, compose_handle, decompose_handle, decompose_region,
};
use micro_moka::common::{sketch_capacity, CacheRegion};
use micro_moka::unsync::deques::Deques;
use micro_moka::unsync::{KeyHashDate, ValueEntry};
use micro_moka::Policy;

#[test]
fn policy_reports_max_capacity() {
    assert_eq!(Policy::new(Some(7)).max_capacity(), Some(7));
    assert_eq!(Policy::new(None).max_capacity(), None);
}

#[test]
fn region_tags_round_trip() {
    assert_eq!(CacheRegion::Window.tag(), 0);
    assert_eq!(CacheRegion::MainProbation.tag(), 1);
    assert_eq!(CacheRegion::MainProtected.tag(), 2);
    assert_eq!(CacheRegion::Other.tag(), 3);
    assert_eq!(CacheRegion::from_tag(1), CacheRegion::MainProbation);
    assert_eq!(CacheRegion::from_tag(9), CacheRegion::Other);
}

#[test]
fn handle_packs_slot_and_region() {
    assert_eq!(compose_handle(5, CacheRegion::MainProbation), 21);
    assert_eq!(compose_handle(0, CacheRegion::MainProtected), 2);
    assert_eq!(decompose_handle(23), (5, CacheRegion::Other));
    assert_eq!(decompose_handle(21), (5, CacheRegion::MainProbation));
    assert_eq!(decompose_region(22), CacheRegion::MainProtected);
    assert_eq!(decompose_region(20), CacheRegion::Window);
    assert_eq!(clear_region(23), 20);
    assert_eq!(clear_region(20), 20);
}

#[test]
fn sketch_capacity_is_clamped() {
    assert_eq!(sketch_capacity(0), 128);
    assert_eq!(sketch_capacity(127), 128);
    assert_eq!(sketch_capacity(129), 129);
    assert_eq!(sketch_capacity(u64::MAX), u32::MAX);
}

#[test]
fn next_power_of_two_values() {
    assert_eq!(next_power_of_two(0), 1);
    assert_eq!(next_power_of_two(1), 1);
    assert_eq!(next_power_of_two(3), 4);
    assert_eq!(next_power_of_two(128), 128);
    assert_eq!(next_power_of_two(65537), 131072);
    assert_eq!(next_power_of_two(1 << 30), 1 << 30);
}

#[test]
fn sketch_without_table_counts_nothing() {
    let mut sketch = FrequencySketch::new();
    sketch.increment(42);
    assert_eq!(sketch.frequency(42), 0);
    assert_eq!(sketch.table_len(), 0);
}

#[test]
fn sketch_counts_and_saturates() {
    let mut sketch = FrequencySketch::new();
    sketch.ensure_capacity(512);
    assert_eq!(sketch.table_len(), 512);
    assert_eq!(sketch.frequency(99), 0);
    sketch.increment(99);
    assert_eq!(sketch.frequency(99), 1);
    for _ in 0..30 {
        sketch.increment(99);
    }
    assert_eq!(sketch.frequency(99), 15);
}

#[test]
fn sketch_halves_after_sample_period() {
    // One word: the counters are halved when the eleventh sample is taken.
    let mut sketch = FrequencySketch::new();
    sketch.ensure_capacity(1);
    assert_eq!(sketch.table_len(), 1);
    for _ in 0..10 {
        sketch.increment(3);
    }
    assert_eq!(sketch.frequency(3), 10);
    sketch.increment(3);
    assert_eq!(sketch.frequency(3), 5);
}

#[test]
fn sketch_keeps_a_table_that_is_large_enough() {
    let mut sketch = FrequencySketch::new();
    sketch.ensure_capacity(0);
    assert_eq!(sketch.table_len(), 128);
    sketch.increment(5);
    sketch.ensure_capacity(100);
    assert_eq!(sketch.table_len(), 128);
    assert_eq!(sketch.frequency(5), 1);
    sketch.ensure_capacity(129);
    assert_eq!(sketch.table_len(), 256);
    assert_eq!(sketch.frequency(5), 0);
}

#[test]
fn deque_keeps_access_order() {
    let mut deque: Deque<u32> = Deque::new(CacheRegion::MainProbation);
    assert_eq!(deque.region(), CacheRegion::MainProbation);
    assert_eq!(deque.peek_front(), None);
    let a = deque.push_back(10);
    let b = deque.push_back(20);
    let c = deque.push_back(30);
    assert_eq!(deque.len(), 3);
    assert_eq!(deque.peek_front(), Some(&10));
    assert_eq!(deque.next_slot(a), Some(b));
    assert_eq!(deque.next_slot(c), None);

    deque.move_to_back(a);
    assert_eq!(deque.peek_front_slot(), Some(b));
    assert_eq!(deque.next_slot(c), Some(a));
    assert_eq!(*deque.element(a), 10);

    deque.unlink_and_drop(c);
    assert_eq!(deque.len(), 2);
    assert_eq!(deque.next_slot(b), Some(a));

    assert!(deque.pop_front());
    assert_eq!(deque.peek_front(), Some(&10));
    assert!(deque.pop_front());
    assert!(!deque.pop_front());
    assert_eq!(deque.len(), 0);

    // A freed slot is used again.
    let d = deque.push_back(40);
    assert!(d == a || d == b || d == c);
    assert_eq!(deque.peek_front(), Some(&40));
}

#[test]
fn deques_link_and_unlink_entries() {
    let mut deques: Deques<char> = Deques::new();
    let mut first = ValueEntry::new("one");
    let mut second = ValueEntry::new("two");
    deques.push_back_ao(CacheRegion::MainProbation, KeyHashDate::new('a', 1), &mut first);
    deques.push_back_ao(CacheRegion::MainProbation, KeyHashDate::new('b', 2), &mut second);
    assert_eq!(decompose_region(first.access_order_q_node().unwrap()), CacheRegion::MainProbation);
    assert_eq!(deques.probation.len(), 2);
    assert_eq!(deques.window.len(), 0);
    assert_eq!(deques.probation.peek_front().unwrap().key, 'a');

    deques.move_to_back_ao(&first);
    assert_eq!(deques.probation.peek_front().unwrap().key, 'b');
    assert_eq!(deques.probation.peek_front().unwrap().hash, 2);

    deques.unlink_ao(&mut second);
    assert_eq!(second.access_order_q_node(), None);
    assert_eq!(deques.probation.len(), 1);
    assert_eq!(deques.probation.peek_front().unwrap().key, 'a');

    deques.clear();
    assert_eq!(deques.probation.len(), 0);
}

#[test]
fn value_entry_steals_node() {
    let mut old_entry = ValueEntry::new(1);
    old_entry.set_access_order_q_node(Some(9));
    let mut new_entry = ValueEntry::new(2);
    assert_eq!(new_entry.policy_weight(), 1);
    new_entry.replace_deq_nodes_with(old_entry);
    assert_eq!(new_entry.access_order_q_node(), Some(9));
    assert_eq!(new_entry.take_access_order_q_node(), Some(9));
    assert_eq!(new_entry.access_order_q_node(), None);
    assert_eq!(new_entry.value, 2);
}
