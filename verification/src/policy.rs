use vstd::prelude::*;

verus! {

/// The policy of a cache.
#[derive(Clone, Debug)]
pub struct Policy {
    max_capacity: Option<u64>,
}

impl Policy {
    /// The configured bound on the number of entries, as a specification value.
    pub closed spec fn spec_max_capacity(&self) -> Option<u64> {
        self.max_capacity
    }

    pub fn new(max_capacity: Option<u64>) -> (policy: Self)
        ensures
            policy.spec_max_capacity() == max_capacity,
    {
        Self { max_capacity }
    }

    /// Returns the `max_capacity` of the cache.
    pub fn max_capacity(&self) -> (capacity: Option<u64>)
        ensures
            capacity == self.spec_max_capacity(),
    {
        self.max_capacity
    }
}

} // verus!
