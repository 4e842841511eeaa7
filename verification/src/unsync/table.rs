//! The hash table of the cache: what it takes from the standard library
//! beyond the operations that are specified for `HashMap`, and how a key is
//! duplicated for the deque.
use std::collections::hash_map::RandomState;
use std::collections::HashMap;
use std::hash::{BuildHasher, Hash};

use vstd::prelude::*;

use crate::unsync::ValueEntry;

verus! {

/// `BuildHasher::hash_one`: the 64-bit hash of a key under this cache's hash
/// builder.  Nothing is claimed of the value.  Trusted: the body is not
/// verified.
#[verifier::external_body]
pub(crate) fn hash_key<K: Hash, S: BuildHasher>(build_hasher: &S, key: &K) -> (hash: u64) {
    build_hasher.hash_one(key)
}

/// `HashMap::with_capacity_and_hasher`: an empty table.  Trusted: the body
/// is not verified.
#[verifier::external_body]
pub(crate) fn table_with_capacity<K, V, S: BuildHasher>(
    capacity: usize,
    build_hasher: S,
) -> (table: HashMap<K, ValueEntry<V>, S>)
    ensures
        table@.dom() == Set::<K>::empty(),
{
    HashMap::with_capacity_and_hasher(capacity, build_hasher)
}

/// `HashMap::with_hasher`: an empty table.  Trusted: the body is not
/// verified.
#[verifier::external_body]
pub(crate) fn table_with_hasher<K, V, S: BuildHasher>(
    build_hasher: S,
) -> (table: HashMap<K, ValueEntry<V>, S>)
    ensures
        table@.dom() == Set::<K>::empty(),
{
    HashMap::with_hasher(build_hasher)
}

/// `HashMap::capacity`: the number of entries the table can hold without
/// reallocating.  Nothing is claimed of the value.  Trusted: the body is
/// not verified.
#[verifier::external_body]
pub(crate) fn table_capacity<K, V, S: BuildHasher>(
    table: &HashMap<K, ValueEntry<V>, S>,
) -> (capacity: usize) {
    table.capacity()
}

/// `HashMap::try_reserve`, its result dropped: the entries of the table stay
/// as they are whether or not the reservation succeeds.  Trusted: the body
/// is not verified.
#[verifier::external_body]
pub(crate) fn table_try_reserve<K: Hash + Eq, V, S: BuildHasher>(
    table: &mut HashMap<K, ValueEntry<V>, S>,
    additional: usize,
)
    ensures
        final(table)@ == old(table)@,
{
    let _ = table.try_reserve(additional);
}

/// `RandomState::default`: a hash builder with fresh random keys.  Nothing
/// is claimed of it.  Trusted: the body is not verified.
#[verifier::external_body]
pub(crate) fn new_random_state() -> (build_hasher: RandomState) {
    RandomState::default()
}

/// Cloning a key of type `K` gives the same key again.  The cache holds
/// each key twice, in its table and in a node of its deque, and relies on
/// the two being equal.
pub open spec fn spec_clones_identically<K: Clone>() -> bool {
    forall|a: K, b: K| #[trigger] cloned::<K>(a, b) ==> a == b
}

/// A second handle on a key: its clone.
pub(crate) fn clone_key<K: Clone>(key: &K) -> (copy: K)
    requires
        spec_clones_identically::<K>(),
    ensures
        copy == *key,
{
    let copy = key.clone();
    assert(cloned::<K>(*key, copy));
    copy
}

} // verus!
