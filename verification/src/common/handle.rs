//! Node handles: the slot of a deque node packed together with the two-bit
//! tag of the region whose deque holds the node.
use tagptr::TagPtr;
use vstd::prelude::*;

use crate::common::CacheRegion;

verus! {

/// The largest slot number that can be packed into a handle.
pub const MAX_SLOT: usize = usize::MAX / 4;

/// `TagPtr::set_tag` on a pointer-sized word with two tag bits: the two low
/// bits of `word` are replaced by the two low bits of `tag`, the other bits
/// are kept.  Trusted: the body is not verified.
#[verifier::external_body]
fn word_set_tag(word: usize, tag: usize) -> (tagged: usize)
    ensures
        tagged == word - word % 4 + tag % 4,
{
    TagPtr::<u32, 2>::from_usize(word).set_tag(tag).into_usize()
}

/// `TagPtr::decompose_tag` on a pointer-sized word with two tag bits: the
/// value of the two low bits.  Trusted: the body is not verified.
#[verifier::external_body]
fn word_tag(word: usize) -> (tag: usize)
    ensures
        tag == word % 4,
{
    TagPtr::<u32, 2>::from_usize(word).decompose_tag()
}

/// `TagPtr::clear_tag` on a pointer-sized word with two tag bits: the word
/// with its two low bits set to zero.  Trusted: the body is not verified.
#[verifier::external_body]
fn word_clear_tag(word: usize) -> (cleared: usize)
    ensures
        cleared == word - word % 4,
{
    TagPtr::<u32, 2>::from_usize(word).clear_tag().into_usize()
}

/// The handle of the node in `slot` of the deque of `region`.
pub open spec fn spec_handle(slot: usize, region: CacheRegion) -> usize {
    (slot * 4 + region.spec_tag()) as usize
}

/// The slot that a handle names.
pub open spec fn spec_handle_slot(handle: usize) -> usize {
    handle / 4
}

/// The region that a handle names.
pub open spec fn spec_handle_region(handle: usize) -> CacheRegion {
    CacheRegion::spec_from_tag(handle % 4)
}

/// Packs a slot and the tag of a region into one handle.
pub fn compose_handle(slot: usize, region: CacheRegion) -> (handle: usize)
    requires
        slot <= MAX_SLOT,
    ensures
        handle == spec_handle(slot, region),
        spec_handle_slot(handle) == slot,
        spec_handle_region(handle) == region,
{
    let base: usize = slot * 4;
    word_set_tag(base, region.tag())
}

/// The handle without its tag: the handle of the same slot in the window
/// region, whose tag is zero.
pub fn clear_region(handle: usize) -> (cleared: usize)
    ensures
        cleared == handle - handle % 4,
        spec_handle_slot(cleared) == spec_handle_slot(handle),
        spec_handle_region(cleared) == CacheRegion::Window,
{
    word_clear_tag(handle)
}

/// Splits a handle into the slot and the region that it names.
pub fn decompose_handle(handle: usize) -> (parts: (usize, CacheRegion))
    ensures
        parts.0 == spec_handle_slot(handle),
        parts.1 == spec_handle_region(handle),
{
    let base: usize = clear_region(handle);
    (base / 4, CacheRegion::from_tag(word_tag(handle)))
}

/// The region that a handle names, without its slot.
pub fn decompose_region(handle: usize) -> (region: CacheRegion)
    ensures
        region == spec_handle_region(handle),
{
    CacheRegion::from_tag(word_tag(handle))
}

/// A handle names the slot and the region that it was composed of, and
/// handles of different slots or regions differ.
pub proof fn lemma_handle_round_trip(slot: usize, region: CacheRegion)
    requires
        slot <= MAX_SLOT,
    ensures
        spec_handle_slot(spec_handle(slot, region)) == slot,
        spec_handle_region(spec_handle(slot, region)) == region,
{
}

} // verus!
