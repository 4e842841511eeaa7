//! Building blocks shared by the cache: the region tags, the access-order
//! deque, the frequency sketch and the packed node handles.
pub mod deque;
pub mod frequency_sketch;
pub mod handle;

use vstd::prelude::*;

verus! {

/// The region of the cache that a deque, and every node linked in it, belongs to.
#[derive(Clone, Copy, Debug, PartialEq, Eq, Structural)]
pub enum CacheRegion {
    Window,
    MainProbation,
    MainProtected,
    Other,
}

impl CacheRegion {
    /// The two-bit tag that stands for this region in a node handle.
    pub open spec fn spec_tag(self) -> usize {
        match self {
            CacheRegion::Window => 0,
            CacheRegion::MainProbation => 1,
            CacheRegion::MainProtected => 2,
            CacheRegion::Other => 3,
        }
    }

    /// The region that a tag stands for; every tag above two means `Other`.
    pub open spec fn spec_from_tag(tag: usize) -> CacheRegion {
        if tag == 0 {
            CacheRegion::Window
        } else if tag == 1 {
            CacheRegion::MainProbation
        } else if tag == 2 {
            CacheRegion::MainProtected
        } else {
            CacheRegion::Other
        }
    }

    pub fn tag(self) -> (tag: usize)
        ensures
            tag == self.spec_tag(),
            tag < 4,
    {
        match self {
            CacheRegion::Window => 0,
            CacheRegion::MainProbation => 1,
            CacheRegion::MainProtected => 2,
            CacheRegion::Other => 3,
        }
    }

    pub fn from_tag(tag: usize) -> (region: CacheRegion)
        ensures
            region == Self::spec_from_tag(tag),
    {
        if tag == 0 {
            CacheRegion::Window
        } else if tag == 1 {
            CacheRegion::MainProbation
        } else if tag == 2 {
            CacheRegion::MainProtected
        } else {
            CacheRegion::Other
        }
    }
}

/// Converting a region to its tag and back gives the region again.
pub proof fn lemma_region_tag_round_trip(region: CacheRegion)
    ensures
        CacheRegion::spec_from_tag(region.spec_tag()) == region,
{
}

/// The number of counters asked of the frequency sketch for a cache bounded
/// by `max_capacity` entries: the capacity, held between 128 and `u32::MAX`.
pub open spec fn spec_sketch_capacity(max_capacity: u64) -> u32 {
    if max_capacity < 128 {
        128u32
    } else if max_capacity > u32::MAX {
        u32::MAX
    } else {
        max_capacity as u32
    }
}

pub fn sketch_capacity(max_capacity: u64) -> (capacity: u32)
    ensures
        capacity == spec_sketch_capacity(max_capacity),
{
    if max_capacity < 128 {
        128
    } else if max_capacity > 0xFFFF_FFFF {
        u32::MAX
    } else {
        max_capacity as u32
    }
}

} // verus!
