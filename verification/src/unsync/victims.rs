//! The list of victims that an admission collects.
use smallvec::SmallVec;
use vstd::prelude::*;

verus! {

/// The list in which the victims of an admission are collected: a
/// `smallvec::SmallVec` of slots with room for eight of them inline.
#[verifier::external_body]
pub struct VictimList {
    slots: SmallVec<[usize; 8]>,
}

/// The slots that a list of victims holds, in the order in which they were
/// pushed.
pub uninterp spec fn victim_slots(victims: VictimList) -> Seq<usize>;

/// `SmallVec::new`: a list that holds nothing.  Trusted: the body is not
/// verified.
#[verifier::external_body]
pub(crate) fn victims_new() -> (victims: VictimList)
    ensures
        victim_slots(victims) == Seq::<usize>::empty(),
{
    VictimList { slots: SmallVec::new() }
}

/// `SmallVec::push`: the slot is appended behind what the list holds.  While
/// the list holds fewer than eight slots it stays within its inline storage.
/// Trusted: the body is not verified.
#[verifier::external_body]
pub(crate) fn victims_push(victims: &mut VictimList, slot: usize)
    requires
        victim_slots(*old(victims)).len() < 8,
    ensures
        victim_slots(*final(victims)) == victim_slots(*old(victims)).push(slot),
{
    victims.slots.push(slot)
}

/// `SmallVec::len`: the number of slots in the list.  Trusted: the body is
/// not verified.
#[verifier::external_body]
pub(crate) fn victims_len(victims: &VictimList) -> (len: usize)
    ensures
        len == victim_slots(*victims).len(),
{
    victims.slots.len()
}

/// `SmallVec::index`: the slot at position `i` of the list.  Trusted: the
/// body is not verified.
#[verifier::external_body]
pub(crate) fn victims_at(victims: &VictimList, i: usize) -> (slot: usize)
    requires
        i < victim_slots(*victims).len(),
    ensures
        slot == victim_slots(*victims)[i as int],
{
    victims.slots[i]
}

} // verus!
