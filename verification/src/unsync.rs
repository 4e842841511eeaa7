//! A *not* thread-safe cache built upon the standard hash map.
pub mod builder;
pub mod cache;
pub mod deques;
pub mod iter;
pub mod links;
pub mod model;
pub mod table;
pub mod victims;

use vstd::prelude::*;

pub use builder::CacheBuilder;
pub use cache::Cache;
pub use iter::Iter;





verus! {

/// What a node of the access-order deque holds: a key and its hash.
pub struct KeyHashDate<K> {
    pub key: K,
    pub hash: u64,
}

impl<K> KeyHashDate<K> {
    pub fn new(key: K, hash: u64) -> (date: Self)
        ensures
            date.key == key,
            date.hash == hash,
    {
        Self { key, hash }
    }
}

/// A cached value together with the handle of its node in the access-order
/// deque, if it has one.
pub struct ValueEntry<V> {
    pub value: V,
    pub node: Option<usize>,
}

impl<V> ValueEntry<V> {
    pub fn new(value: V) -> (entry: Self)
        ensures
            entry.value == value,
            entry.node is None,
    {
        Self { value, node: None }
    }

    /// Takes over the node handle of `other`, which is dropped without it.
    pub fn replace_deq_nodes_with(&mut self, other: Self)
        ensures
            final(self).node == other.node,
            final(self).value == old(self).value,
    {
        let mut other = other;
        self.node = other.node.take();
    }

    pub fn access_order_q_node(&self) -> (node: Option<usize>)
        ensures
            node == self.node,
    {
        self.node
    }

    pub fn set_access_order_q_node(&mut self, node: Option<usize>)
        ensures
            final(self).node == node,
            final(self).value == old(self).value,
    {
        self.node = node;
    }

    /// Detaches the node handle and returns it.
    pub fn take_access_order_q_node(&mut self) -> (node: Option<usize>)
        ensures
            node == old(self).node,
            final(self).node is None,
            final(self).value == old(self).value,
    {
        self.node.take()
    }

    /// Every entry weighs one.
    pub fn policy_weight(&self) -> (weight: u32)
        ensures
            weight == 1,
    {
        1
    }

    /// Weights are fixed: this changes nothing.
    pub fn set_policy_weight(&mut self, _policy_weight: u32)
        ensures
            *final(self) == *old(self),
    {
    }
}

} // verus!
