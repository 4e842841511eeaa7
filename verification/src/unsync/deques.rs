use vstd::prelude::*;

use crate::common::deque::Deque;
use crate::common::handle::{
    compose_handle, decompose_handle, spec_handle, spec_handle_region, spec_handle_slot, MAX_SLOT,
};
use crate::common::CacheRegion;
use crate::unsync::{KeyHashDate, ValueEntry};

verus! {

/// The three access-order deques of a cache.  Only `probation` is populated;
/// `window` and `protected` are reserved regions.
pub struct Deques<K> {
    pub window: Deque<KeyHashDate<K>>,
    pub probation: Deque<KeyHashDate<K>>,
    pub protected: Deque<KeyHashDate<K>>,
}

impl<K> Deques<K> {
    /// Each deque is well formed and carries the tag of its own region.
    pub open spec fn wf(&self) -> bool {
        &&& self.window.wf()
        &&& self.probation.wf()
        &&& self.protected.wf()
        &&& self.window.spec_region() == CacheRegion::Window
        &&& self.probation.spec_region() == CacheRegion::MainProbation
        &&& self.protected.spec_region() == CacheRegion::MainProtected
    }

    /// The deque that serves `region`; `Other` has none and stands for the
    /// probation deque here.
    pub open spec fn spec_deque(&self, region: CacheRegion) -> Deque<KeyHashDate<K>> {
        match region {
            CacheRegion::Window => self.window,
            CacheRegion::MainProtected => self.protected,
            _ => self.probation,
        }
    }

    /// The bundle with the deque of `region` replaced.
    pub open spec fn spec_with_deque(
        &self,
        region: CacheRegion,
        deque: Deque<KeyHashDate<K>>,
    ) -> Deques<K> {
        match region {
            CacheRegion::Window => Deques {
                window: deque,
                probation: self.probation,
                protected: self.protected,
            },
            CacheRegion::MainProtected => Deques {
                window: self.window,
                probation: self.probation,
                protected: deque,
            },
            _ => Deques { window: self.window, probation: deque, protected: self.protected },
        }
    }

    /// Whether `handle` names a node that is linked in the deque of its
    /// region.
    pub open spec fn spec_links(&self, handle: usize) -> bool {
        &&& spec_handle_region(handle) != CacheRegion::Other
        &&& self.spec_deque(spec_handle_region(handle)).slots().contains(
            spec_handle_slot(handle),
        )
    }

    pub fn new() -> (deques: Self)
        ensures
            deques.wf(),
            deques.window.slots() == Seq::<usize>::empty(),
            deques.probation.slots() == Seq::<usize>::empty(),
            deques.protected.slots() == Seq::<usize>::empty(),
    {
        Deques {
            window: Deque::new(CacheRegion::Window),
            probation: Deque::new(CacheRegion::MainProbation),
            protected: Deque::new(CacheRegion::MainProtected),
        }
    }

    /// Drops every node of every deque.
    pub fn clear(&mut self)
        ensures
            final(self).wf(),
            final(self).window.slots() == Seq::<usize>::empty(),
            final(self).probation.slots() == Seq::<usize>::empty(),
            final(self).protected.slots() == Seq::<usize>::empty(),
    {
        self.window = Deque::new(CacheRegion::Window);
        self.probation = Deque::new(CacheRegion::MainProbation);
        self.protected = Deque::new(CacheRegion::MainProtected);
    }

    /// Links a fresh node that holds `kh` at the back of the deque of
    /// `region` and stores its handle in `entry`.
    pub fn push_back_ao<V>(
        &mut self,
        region: CacheRegion,
        kh: KeyHashDate<K>,
        entry: &mut ValueEntry<V>,
    )
        requires
            old(self).wf(),
            region != CacheRegion::Other,
            old(self).spec_deque(region).slots().len() < MAX_SLOT,
        ensures
            final(self).wf(),
            final(entry).value == old(entry).value,
            final(entry).node is Some,
            final(self).spec_links(final(entry).node.unwrap()),
            spec_handle_region(final(entry).node.unwrap()) == region,
            spec_handle_slot(final(entry).node.unwrap()) < MAX_SLOT,
            final(entry).node.unwrap() == spec_handle(
                spec_handle_slot(final(entry).node.unwrap()),
                region,
            ),
            *final(self) == old(self).spec_with_deque(region, final(self).spec_deque(region)),
            !old(self).spec_deque(region).slots().contains(
                spec_handle_slot(final(entry).node.unwrap()),
            ),
            final(self).spec_deque(region).slots() == old(self).spec_deque(region).slots().push(
                spec_handle_slot(final(entry).node.unwrap()),
            ),
            final(self).spec_deque(region).element_at(spec_handle_slot(final(entry).node.unwrap()))
                == kh,
            forall|s: usize|
                old(self).spec_deque(region).slots().contains(s) ==> final(self).spec_deque(
                    region,
                ).element_at(s) == old(self).spec_deque(region).element_at(s),
    {
        let slot = match region {
            CacheRegion::Window => self.window.push_back(kh),
            CacheRegion::MainProtected => self.protected.push_back(kh),
            _ => self.probation.push_back(kh),
        };
        let tagged_node = compose_handle(slot, region);
        entry.set_access_order_q_node(Some(tagged_node));
        proof {
            let slots = self.spec_deque(region).slots();
            assert(slots[slots.len() - 1] == slot);
        }
    }

    /// Moves the node of `entry`, if it has one, to the back of the deque of
    /// its region.
    pub fn move_to_back_ao<V>(&mut self, entry: &ValueEntry<V>)
        requires
            old(self).wf(),
            entry.node is Some ==> old(self).spec_links(entry.node.unwrap()),
        ensures
            final(self).wf(),
            entry.node is None ==> *final(self) == *old(self),
            entry.node is Some ==> final(self).spec_links(entry.node.unwrap()),
            entry.node is Some ==> {
                let region = spec_handle_region(entry.node.unwrap());
                let slot = spec_handle_slot(entry.node.unwrap());
                let before = old(self).spec_deque(region);
                let after = final(self).spec_deque(region);
                &&& *final(self) == old(self).spec_with_deque(region, after)
                &&& after.slots() == before.slots().remove(before.slots().index_of(slot)).push(
                    slot,
                )
                &&& forall|s: usize| after.element_at(s) == before.element_at(s)
            },
    {
        if let Some(tagged_node) = entry.access_order_q_node() {
            let (slot, region) = decompose_handle(tagged_node);
            match region {
                CacheRegion::Window => self.window.move_to_back(slot),
                CacheRegion::MainProtected => self.protected.move_to_back(slot),
                _ => self.probation.move_to_back(slot),
            }
            proof {
                let slots = self.spec_deque(region).slots();
                assert(slots[slots.len() - 1] == slot);
            }
        }
    }

    /// Unlinks the node of `entry`, if it has one, from the deque of its
    /// region; the entry is left without a handle.
    pub fn unlink_ao<V>(&mut self, entry: &mut ValueEntry<V>)
        requires
            old(self).wf(),
            old(entry).node is Some ==> old(self).spec_links(old(entry).node.unwrap()),
        ensures
            final(self).wf(),
            final(entry).node is None,
            final(entry).value == old(entry).value,
            old(entry).node is None ==> *final(self) == *old(self),
            old(entry).node is Some ==> Self::spec_unlinked(
                *old(self),
                *final(self),
                old(entry).node.unwrap(),
            ),
    {
        if let Some(node) = entry.take_access_order_q_node() {
            self.unlink_node_ao(node);
        }
    }

    /// Unlinks the node of `entry`, if it has one, from `deq`, which must be
    /// the deque of the node's region.
    pub fn unlink_ao_from_deque<V>(deq: &mut Deque<KeyHashDate<K>>, entry: &mut ValueEntry<V>)
        requires
            old(deq).wf(),
            old(entry).node is Some ==> {
                &&& spec_handle_region(old(entry).node.unwrap()) == old(deq).spec_region()
                &&& old(deq).slots().contains(spec_handle_slot(old(entry).node.unwrap()))
            },
        ensures
            final(deq).wf(),
            final(entry).node is None,
            final(entry).value == old(entry).value,
            old(entry).node is None ==> *final(deq) == *old(deq),
            old(entry).node is Some ==> Self::spec_unlinked_from(
                *old(deq),
                *final(deq),
                spec_handle_slot(old(entry).node.unwrap()),
            ),
    {
        if let Some(node) = entry.take_access_order_q_node() {
            Self::unlink_node_ao_from_deque(deq, node);
        }
    }

    /// `after` is `before` without the node in `slot`.
    pub open spec fn spec_unlinked_from(
        before: Deque<KeyHashDate<K>>,
        after: Deque<KeyHashDate<K>>,
        slot: usize,
    ) -> bool {
        &&& after.slots() == before.slots().remove(before.slots().index_of(slot))
        &&& !after.slots().contains(slot)
        &&& after.spec_region() == before.spec_region()
        &&& forall|s: usize|
            after.slots().contains(s) ==> after.element_at(s) == before.element_at(s)
    }

    /// `after` is `before` without the node that `handle` names; the deques
    /// of the other regions are the same.
    pub open spec fn spec_unlinked(before: Deques<K>, after: Deques<K>, handle: usize) -> bool {
        let region = spec_handle_region(handle);
        &&& after == before.spec_with_deque(region, after.spec_deque(region))
        &&& Self::spec_unlinked_from(
            before.spec_deque(region),
            after.spec_deque(region),
            spec_handle_slot(handle),
        )
    }

    /// Unlinks the node that `tagged_node` names from the deque of its
    /// region and drops it.
    pub fn unlink_node_ao(&mut self, tagged_node: usize)
        requires
            old(self).wf(),
            old(self).spec_links(tagged_node),
        ensures
            final(self).wf(),
            Self::spec_unlinked(*old(self), *final(self), tagged_node),
    {
        let (_slot, region) = decompose_handle(tagged_node);
        match region {
            CacheRegion::Window => Self::unlink_node_ao_from_deque(&mut self.window, tagged_node),
            CacheRegion::MainProtected => Self::unlink_node_ao_from_deque(
                &mut self.protected,
                tagged_node,
            ),
            _ => Self::unlink_node_ao_from_deque(&mut self.probation, tagged_node),
        }
    }

    /// Unlinks the node that `tagged_node` names from `deq` and drops it.
    /// The handle must carry the tag of the region of `deq`.
    pub fn unlink_node_ao_from_deque(deq: &mut Deque<KeyHashDate<K>>, tagged_node: usize)
        requires
            old(deq).wf(),
            spec_handle_region(tagged_node) == old(deq).spec_region(),
            old(deq).slots().contains(spec_handle_slot(tagged_node)),
        ensures
            final(deq).wf(),
            Self::spec_unlinked_from(*old(deq), *final(deq), spec_handle_slot(tagged_node)),
    {
        let (slot, _tag) = decompose_handle(tagged_node);
        deq.unlink_and_drop(slot);
    }
}

impl<K> Default for Deques<K> {
    fn default() -> (deques: Self)
        ensures
            deques.wf(),
            deques.window.slots() == Seq::<usize>::empty(),
            deques.probation.slots() == Seq::<usize>::empty(),
            deques.protected.slots() == Seq::<usize>::empty(),
    {
        Deques::new()
    }
}

} // verus!
