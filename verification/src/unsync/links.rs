//! How the hash table and the probation deque of a cache belong together,
//! and why the operations of the cache keep them so.
use vstd::prelude::*;

use crate::common::deque::Deque;
use crate::common::handle::{spec_handle, spec_handle_slot, MAX_SLOT};
use crate::common::CacheRegion;
use crate::unsync::deques::Deques;
use crate::unsync::{KeyHashDate, ValueEntry};

verus! {

/// The entry of `k` names a node that is linked in the probation deque and
/// holds `k`.
pub open spec fn entry_ok<K, V>(
    m: Map<K, ValueEntry<V>>,
    d: Deque<KeyHashDate<K>>,
    k: K,
) -> bool {
    match m[k].node {
        Some(h) => {
            &&& h == spec_handle(spec_handle_slot(h), CacheRegion::MainProbation)
            &&& d.slots().contains(spec_handle_slot(h))
            &&& d.element_at(spec_handle_slot(h)).key == k
        },
        None => false,
    }
}

/// The key held in slot `s` has an entry, and that entry names `s`.
pub open spec fn node_ok<K, V>(
    m: Map<K, ValueEntry<V>>,
    d: Deque<KeyHashDate<K>>,
    s: usize,
) -> bool {
    let k = d.element_at(s).key;
    m.contains_key(k) && m[k].node == Some(spec_handle(s, CacheRegion::MainProbation))
}

/// The table and the probation deque describe the same entries: each entry
/// names its own node, each node holds the key of its own entry, and there
/// are as many entries as nodes.
pub open spec fn links_ok<K, V>(m: Map<K, ValueEntry<V>>, d: Deque<KeyHashDate<K>>) -> bool {
    &&& d.wf()
    &&& m.dom().finite()
    &&& m.len() == d.slots().len()
    &&& forall|k: K| #[trigger] m.contains_key(k) ==> entry_ok(m, d, k)
    &&& forall|i: int| 0 <= i < d.slots().len() ==> node_ok(m, d, #[trigger] d.slots()[i])
}

/// What is left of a sequence without duplicates when one position is
/// removed: every element but the one that stood there.
pub proof fn lemma_seq_remove(seq: Seq<usize>, p: int)
    requires
        0 <= p < seq.len(),
        seq.no_duplicates(),
    ensures
        forall|x: usize| #[trigger]
            seq.remove(p).contains(x) <==> (seq.contains(x) && x != seq[p]),
{
    let rest = seq.remove(p);
    assert forall|x: usize| #[trigger] rest.contains(x) <==> (seq.contains(x) && x != seq[p]) by {
        if rest.contains(x) {
            let i = choose|i: int| 0 <= i < rest.len() && rest[i] == x;
            let oi = if i < p {
                i
            } else {
                i + 1
            };
            assert(seq[oi] == x);
        }
        if seq.contains(x) && x != seq[p] {
            let oi = choose|i: int| 0 <= i < seq.len() && seq[i] == x;
            let i = if oi < p {
                oi
            } else {
                oi - 1
            };
            assert(rest[i] == x);
        }
    }
}

/// Removing an entry and unlinking its node keeps table and deque in step.
pub proof fn lemma_unlink<K, V>(
    m: Map<K, ValueEntry<V>>,
    d: Deque<KeyHashDate<K>>,
    d2: Deque<KeyHashDate<K>>,
    key: K,
)
    requires
        links_ok(m, d),
        m.contains_key(key),
        d2.wf(),
        Deques::<K>::spec_unlinked_from(d, d2, spec_handle_slot(m[key].node.unwrap())),
    ensures
        links_ok(m.remove(key), d2),
        d2@ == d@.remove(d.slots().index_of(spec_handle_slot(m[key].node.unwrap()))),
        d@[d.slots().index_of(spec_handle_slot(m[key].node.unwrap()))].key == key,
        0 <= d.slots().index_of(spec_handle_slot(m[key].node.unwrap())) < d@.len(),
{
    let s = spec_handle_slot(m[key].node.unwrap());
    let slots = d.slots();
    let p = slots.index_of(s);
    d.lemma_slots();
    d2.lemma_slots();
    assert(entry_ok(m, d, key));
    assert(slots[p] == s);
    lemma_seq_remove(slots, p);
    let m2 = m.remove(key);
    let slots2 = d2.slots();
    assert forall|k: K| #[trigger] m2.contains_key(k) implies entry_ok(m2, d2, k) by {
        assert(m.contains_key(k));
        assert(entry_ok(m, d, k));
        let s1 = spec_handle_slot(m[k].node.unwrap());
        assert(slots2.contains(s1));
    }
    assert forall|i: int| 0 <= i < slots2.len() implies node_ok(m2, d2, #[trigger] slots2[i]) by {
        let oi = if i < p {
            i
        } else {
            i + 1
        };
        assert(slots[oi] == slots2[i]);
        assert(slots2.contains(slots2[i]));
        assert(node_ok(m, d, slots[oi]));
    }
    assert(d2@ =~= d@.remove(p)) by {
        assert forall|i: int| 0 <= i < slots2.len() implies d2@[i] == d@.remove(p)[i] by {
            assert(slots2.contains(slots2[i]));
        }
    }
}

/// Adding an entry for a new key together with a node at the back keeps
/// table and deque in step.
pub proof fn lemma_push<K, V>(
    m: Map<K, ValueEntry<V>>,
    d: Deque<KeyHashDate<K>>,
    d2: Deque<KeyHashDate<K>>,
    key: K,
    entry: ValueEntry<V>,
    s: usize,
)
    requires
        links_ok(m, d),
        !m.contains_key(key),
        d2.wf(),
        d2.slots() == d.slots().push(s),
        !d.slots().contains(s),
        d2.element_at(s).key == key,
        forall|x: usize| d.slots().contains(x) ==> d2.element_at(x) == d.element_at(x),
        entry.node == Some(spec_handle(s, CacheRegion::MainProbation)),
    ensures
        links_ok(m.insert(key, entry), d2),
        d2@ == d@.push(d2.element_at(s)),
{
    d.lemma_slots();
    d2.lemma_slots();
    let slots = d.slots();
    let slots2 = d2.slots();
    let m2 = m.insert(key, entry);
    assert(slots2[slots.len() as int] == s);
    assert(s < MAX_SLOT);
    assert forall|k: K| #[trigger] m2.contains_key(k) implies entry_ok(m2, d2, k) by {
        if k == key {
            assert(slots2.contains(s));
        } else {
            assert(m.contains_key(k));
            assert(entry_ok(m, d, k));
            let s1 = spec_handle_slot(m[k].node.unwrap());
            let j = slots.index_of(s1);
            assert(slots2[j] == s1);
        }
    }
    assert forall|i: int| 0 <= i < slots2.len() implies node_ok(m2, d2, #[trigger] slots2[i]) by {
        if i < slots.len() {
            assert(slots[i] == slots2[i]);
            assert(slots.contains(slots[i]));
            assert(node_ok(m, d, slots[i]));
        }
    }
    assert(d2@ =~= d@.push(d2.element_at(s))) by {
        assert forall|i: int| 0 <= i < slots.len() implies d2@[i] == d@[i] by {
            assert(slots.contains(slots[i]));
        }
    }
}

/// Moving a node to the back, and giving its entry a new value, keeps table
/// and deque in step.
pub proof fn lemma_move<K, V>(
    m: Map<K, ValueEntry<V>>,
    d: Deque<KeyHashDate<K>>,
    d2: Deque<KeyHashDate<K>>,
    key: K,
    entry: ValueEntry<V>,
)
    requires
        links_ok(m, d),
        m.contains_key(key),
        entry.node == m[key].node,
        d2.wf(),
        d2.slots() == d.slots().remove(
            d.slots().index_of(spec_handle_slot(entry.node.unwrap())),
        ).push(spec_handle_slot(entry.node.unwrap())),
        forall|x: usize| d2.element_at(x) == d.element_at(x),
    ensures
        links_ok(m.insert(key, entry), d2),
        0 <= d.slots().index_of(spec_handle_slot(entry.node.unwrap())) < d@.len(),
        d@[d.slots().index_of(spec_handle_slot(entry.node.unwrap()))].key == key,
        d2@ == d@.remove(d.slots().index_of(spec_handle_slot(entry.node.unwrap()))).push(
            d@[d.slots().index_of(spec_handle_slot(entry.node.unwrap()))],
        ),
{
    let s = spec_handle_slot(entry.node.unwrap());
    let slots = d.slots();
    let p = slots.index_of(s);
    d.lemma_slots();
    d2.lemma_slots();
    assert(entry_ok(m, d, key));
    assert(slots[p] == s);
    lemma_seq_remove(slots, p);
    let m2 = m.insert(key, entry);
    let slots2 = d2.slots();
    let rest = slots.remove(p);
    assert(m2.dom() =~= m.dom());
    assert(slots2[rest.len() as int] == s);
    assert forall|k: K| #[trigger] m2.contains_key(k) implies entry_ok(m2, d2, k) by {
        assert(m.contains_key(k));
        assert(entry_ok(m, d, k));
        let s1 = spec_handle_slot(m[k].node.unwrap());
        if s1 != s {
            assert(rest.contains(s1));
            let j = rest.index_of(s1);
            assert(slots2[j] == s1);
        }
    }
    assert forall|i: int| 0 <= i < slots2.len() implies node_ok(m2, d2, #[trigger] slots2[i]) by {
        if i < rest.len() {
            let oi = if i < p {
                i
            } else {
                i + 1
            };
            assert(slots[oi] == slots2[i]);
            assert(node_ok(m, d, slots[oi]));
        } else {
            assert(node_ok(m, d, slots[p]));
        }
    }
    assert(d2@ =~= d@.remove(p).push(d@[p]));
}

/// The position of the node that holds `key`, counted from the least
/// recently used.
pub open spec fn spec_position<K>(lru: Seq<KeyHashDate<K>>, key: K) -> int {
    choose|i: int| 0 <= i < lru.len() && lru[i].key == key
}

/// The deque with the node that holds `key` moved to the back.
pub open spec fn spec_touch<K>(lru: Seq<KeyHashDate<K>>, key: K) -> Seq<KeyHashDate<K>> {
    let p = spec_position(lru, key);
    lru.remove(p).push(lru[p])
}

/// The deque without the node that holds `key`.
pub open spec fn spec_drop<K>(lru: Seq<KeyHashDate<K>>, key: K) -> Seq<KeyHashDate<K>> {
    lru.remove(spec_position(lru, key))
}

/// No key is held by two nodes, so the position of a key is the position of
/// the node that its entry names.
pub proof fn lemma_position<K, V>(m: Map<K, ValueEntry<V>>, d: Deque<KeyHashDate<K>>, key: K)
    requires
        links_ok(m, d),
        m.contains_key(key),
    ensures
        spec_position(d@, key) == d.slots().index_of(spec_handle_slot(m[key].node.unwrap())),
        forall|i: int, j: int|
            0 <= i < d@.len() && 0 <= j < d@.len() && #[trigger] d@[i].key == #[trigger] d@[j].key
                ==> i == j,
{
    d.lemma_slots();
    let slots = d.slots();
    assert forall|i: int, j: int|
        0 <= i < d@.len() && 0 <= j < d@.len() && #[trigger] d@[i].key == #[trigger] d@[j].key
        implies i == j by {
        assert(node_ok(m, d, slots[i]));
        assert(node_ok(m, d, slots[j]));
        assert(slots[i] < MAX_SLOT && slots[j] < MAX_SLOT);
        assert(slots[i] == slots[j]);
    }
    assert(entry_ok(m, d, key));
    let s = spec_handle_slot(m[key].node.unwrap());
    let p = slots.index_of(s);
    assert(slots[p] == s);
    assert(d@[p].key == key);
    let q = spec_position(d@, key);
    assert(d@[q].key == d@[p].key);
}


} // verus!
