//! The access-order deque: a doubly-linked list whose nodes live in the
//! slots of an arena, so that a node is named by a stable slot number.
use vstd::prelude::*;

use crate::common::handle::MAX_SLOT;
use crate::common::CacheRegion;

verus! {

/// The neighbours of a node in its deque.
#[derive(Clone, Copy, Debug)]
pub struct Links {
    pub prev: Option<usize>,
    pub next: Option<usize>,
}

/// A doubly-linked list of elements, tagged with the region it serves.
///
/// The model of a deque is the sequence of its occupied slots from front
/// (least recently used) to back, `slots()`, and the element that each of
/// them holds, `element_at(slot)`.
pub struct Deque<T> {
    region: CacheRegion,
    elements: Vec<Option<T>>,
    links: Vec<Links>,
    free: Vec<usize>,
    head: Option<usize>,
    tail: Option<usize>,
    order: Ghost<Seq<usize>>,
}

impl<T> Deque<T> {
    /// The occupied slots, from the front of the deque to its back.
    pub closed spec fn slots(&self) -> Seq<usize> {
        self.order@
    }

    /// The element held in `slot`.
    pub closed spec fn element_at(&self, slot: usize) -> T {
        self.elements@[slot as int].unwrap()
    }

    /// The region that this deque was made for.
    pub closed spec fn spec_region(&self) -> CacheRegion {
        self.region
    }

    /// The elements from front to back.
    pub open spec fn view(&self) -> Seq<T> {
        Seq::new(self.slots().len(), |i: int| self.element_at(self.slots()[i]))
    }

    /// The links of the arena describe the sequence `order`, and the arena
    /// holds `spare` occupied slots that are linked nowhere.
    spec fn inv(&self, spare: int) -> bool {
        let order = self.order@;
        let n = order.len();
        &&& self.elements.len() == self.links.len()
        &&& self.elements.len() <= MAX_SLOT
        &&& self.elements.len() == n + self.free.len() + spare
        &&& order.no_duplicates()
        &&& self.free@.no_duplicates()
        &&& forall|i: int|
            0 <= i < n ==> {
                let s = #[trigger] order[i];
                &&& s < self.elements.len()
                &&& self.elements@[s as int] is Some
                &&& self.links@[s as int].prev == (if i == 0 {
                    None
                } else {
                    Some(order[i - 1])
                })
                &&& self.links@[s as int].next == (if i == n - 1 {
                    None
                } else {
                    Some(order[i + 1])
                })
            }
        &&& forall|j: int|
            0 <= j < self.free.len() ==> {
                let s = #[trigger] self.free@[j];
                &&& s < self.elements.len()
                &&& self.elements@[s as int] is None
            }
        &&& self.head == (if n == 0 {
            None
        } else {
            Some(order[0])
        })
        &&& self.tail == (if n == 0 {
            None
        } else {
            Some(order[n - 1])
        })
    }

    /// The deque is well formed: its links describe `slots()`, every slot in
    /// `slots()` is occupied and occurs once, and `slots()` is no longer than
    /// `MAX_SLOT`.
    pub closed spec fn wf(&self) -> bool {
        self.inv(0)
    }

    /// In a well-formed deque no slot occurs twice and every slot can be
    /// packed into a handle.
    pub proof fn lemma_slots(&self)
        requires
            self.wf(),
        ensures
            self.slots().no_duplicates(),
            self.slots().len() <= MAX_SLOT,
            forall|i: int| 0 <= i < self.slots().len() ==> #[trigger] self.slots()[i] < MAX_SLOT,
    {
    }

    pub fn new(region: CacheRegion) -> (deque: Self)
        ensures
            deque.wf(),
            deque.slots() == Seq::<usize>::empty(),
            deque.spec_region() == region,
    {
        Deque {
            region,
            elements: Vec::new(),
            links: Vec::new(),
            free: Vec::new(),
            head: None,
            tail: None,
            order: Ghost(Seq::empty()),
        }
    }

    pub fn region(&self) -> (region: CacheRegion)
        ensures
            region == self.spec_region(),
    {
        self.region
    }

    /// The number of linked nodes.
    pub fn len(&self) -> (len: usize)
        requires
            self.wf(),
        ensures
            len == self.slots().len(),
    {
        self.elements.len() - self.free.len()
    }

    /// The slot of the node at the front, if there is one.
    pub fn peek_front_slot(&self) -> (front: Option<usize>)
        requires
            self.wf(),
        ensures
            front == (if self.slots().len() == 0 {
                None
            } else {
                Some(self.slots()[0])
            }),
    {
        self.head
    }

    /// The element at the front, if there is one.
    pub fn peek_front(&self) -> (front: Option<&T>)
        requires
            self.wf(),
        ensures
            self.slots().len() == 0 ==> front is None,
            self.slots().len() > 0 ==> front is Some && *front.unwrap() == self.element_at(
                self.slots()[0],
            ),
    {
        match self.head {
            Some(slot) => {
                assert(self.order@[0] == slot);
                self.elements[slot].as_ref()
            },
            None => None,
        }
    }

    /// The slot of the node that follows the node in `slot`, if there is one.
    pub fn next_slot(&self, slot: usize) -> (next: Option<usize>)
        requires
            self.wf(),
            self.slots().contains(slot),
        ensures
            next == (if self.slots().index_of(slot) == self.slots().len() - 1 {
                None
            } else {
                Some(self.slots()[self.slots().index_of(slot) + 1])
            }),
    {
        proof {
            let i = self.order@.index_of(slot);
            assert(self.order@[i] == slot);
        }
        self.links[slot].next
    }

    /// The element of the node in `slot`.
    pub fn element(&self, slot: usize) -> (element: &T)
        requires
            self.wf(),
            self.slots().contains(slot),
        ensures
            *element == self.element_at(slot),
    {
        proof {
            let i = self.order@.index_of(slot);
            assert(self.order@[i] == slot);
        }
        self.elements[slot].as_ref().unwrap()
    }

    /// Takes the node in `slot` out of the chain of links; its slot stays
    /// occupied.
    fn detach(&mut self, slot: usize)
        requires
            old(self).inv(0),
            old(self).order@.contains(slot),
        ensures
            final(self).inv(1),
            final(self).order@ == old(self).order@.remove(old(self).order@.index_of(slot)),
            final(self).elements@ == old(self).elements@,
            final(self).region == old(self).region,
            slot < final(self).elements.len(),
            final(self).elements@[slot as int] is Some,
            !final(self).order@.contains(slot),
    {
        let ghost order = self.order@;
        let ghost n = order.len() as int;
        let ghost p = order.index_of(slot);
        assert(order[p] == slot);
        let l = self.links[slot];
        match l.prev {
            Some(before) => {
                assert(order[p - 1] == before);
                let bl = self.links[before];
                self.links.set(before, Links { prev: bl.prev, next: l.next });
            },
            None => {
                self.head = l.next;
            },
        }
        match l.next {
            Some(after) => {
                assert(order[p + 1] == after);
                let al = self.links[after];
                self.links.set(after, Links { prev: l.prev, next: al.next });
            },
            None => {
                self.tail = l.prev;
            },
        }
        proof {
            let rest = order.remove(p);
            self.order = Ghost(rest);
            assert forall|i: int| 0 <= i < rest.len() implies rest[i] == (if i < p {
                order[i]
            } else {
                order[i + 1]
            }) by {}
            assert(rest.no_duplicates()) by {
                assert forall|i: int, j: int|
                    0 <= i < rest.len() && 0 <= j < rest.len() && i != j implies rest[i]
                    != rest[j] by {
                    let oi = if i < p { i } else { i + 1 };
                    let oj = if j < p { j } else { j + 1 };
                    assert(order[oi] != order[oj]);
                }
            }
            assert(!rest.contains(slot)) by {
                if rest.contains(slot) {
                    let i = choose|i: int| 0 <= i < rest.len() && rest[i] == slot;
                    let oi = if i < p { i } else { i + 1 };
                    assert(order[oi] == order[p]);
                }
            }
            assert forall|i: int| 0 <= i < rest.len() implies {
                let s = #[trigger] rest[i];
                &&& s < self.elements.len()
                &&& self.elements@[s as int] is Some
                &&& self.links@[s as int].prev == (if i == 0 {
                    None
                } else {
                    Some(rest[i - 1])
                })
                &&& self.links@[s as int].next == (if i == rest.len() - 1 {
                    None
                } else {
                    Some(rest[i + 1])
                })
            } by {
                let oi = if i < p { i } else { i + 1 };
                assert(order[oi] == rest[i]);
                if p > 0 {
                    assert(order[p - 1] != order[oi] || oi == p - 1);
                }
                if p < n - 1 {
                    assert(order[p + 1] != order[oi] || oi == p + 1);
                }
            }
        }
    }

    /// Links the occupied, unlinked node in `slot` at the back.
    fn attach_back(&mut self, slot: usize)
        requires
            old(self).inv(1),
            slot < old(self).elements.len(),
            old(self).elements@[slot as int] is Some,
            !old(self).order@.contains(slot),
        ensures
            final(self).inv(0),
            final(self).order@ == old(self).order@.push(slot),
            final(self).elements@ == old(self).elements@,
            final(self).region == old(self).region,
    {
        let ghost order = self.order@;
        let ghost n = order.len() as int;
        match self.tail {
            Some(last) => {
                assert(order[n - 1] == last);
                let ll = self.links[last];
                self.links.set(last, Links { prev: ll.prev, next: Some(slot) });
                self.links.set(slot, Links { prev: Some(last), next: None });
            },
            None => {
                self.links.set(slot, Links { prev: None, next: None });
                self.head = Some(slot);
            },
        }
        self.tail = Some(slot);
        proof {
            let grown = order.push(slot);
            self.order = Ghost(grown);
            assert(grown.no_duplicates()) by {
                assert forall|i: int, j: int|
                    0 <= i < grown.len() && 0 <= j < grown.len() && i != j implies grown[i]
                    != grown[j] by {
                    if i < n && j < n {
                        assert(order[i] != order[j]);
                    } else if i < n {
                        assert(order.contains(order[i]));
                    } else {
                        assert(order.contains(order[j]));
                    }
                }
            }
            assert forall|i: int| 0 <= i < grown.len() implies {
                let s = #[trigger] grown[i];
                &&& s < self.elements.len()
                &&& self.elements@[s as int] is Some
                &&& self.links@[s as int].prev == (if i == 0 {
                    None
                } else {
                    Some(grown[i - 1])
                })
                &&& self.links@[s as int].next == (if i == grown.len() - 1 {
                    None
                } else {
                    Some(grown[i + 1])
                })
            } by {
                if i < n {
                    assert(order[i] == grown[i]);
                    assert(order.contains(order[i]));
                    if n > 0 {
                        assert(order[n - 1] != order[i] || i == n - 1);
                    }
                    if i > 0 {
                        assert(grown[i - 1] == order[i - 1]);
                    }
                }
            }
        }
    }

    /// Links a fresh node that holds `element` at the back and returns its
    /// slot.
    pub fn push_back(&mut self, element: T) -> (slot: usize)
        requires
            old(self).wf(),
            old(self).slots().len() < MAX_SLOT,
        ensures
            final(self).wf(),
            final(self).slots() == old(self).slots().push(slot),
            !old(self).slots().contains(slot),
            slot < MAX_SLOT,
            final(self).element_at(slot) == element,
            forall|s: usize|
                old(self).slots().contains(s) ==> final(self).element_at(s) == old(
                    self,
                ).element_at(s),
            final(self).spec_region() == old(self).spec_region(),
    {
        let ghost order = self.order@;
        let slot: usize;
        if self.free.len() > 0 {
            let ghost free = self.free@;
            slot = self.free.pop().unwrap();
            assert(free[free.len() - 1] == slot);
            assert(!order.contains(slot)) by {
                if order.contains(slot) {
                    let i = order.index_of(slot);
                    assert(order[i] == slot);
                }
            }
            self.elements.set(slot, Some(element));
            proof {
                assert forall|j: int| 0 <= j < self.free.len() implies {
                    let s = #[trigger] self.free@[j];
                    &&& s < self.elements.len()
                    &&& self.elements@[s as int] is None
                } by {
                    assert(free[j] == self.free@[j]);
                    assert(free[j] != free[free.len() - 1]);
                }
                assert forall|i: int| 0 <= i < order.len() implies (#[trigger] order[i]) != slot by {
                    assert(order.contains(order[i]));
                }
            }
        } else {
            slot = self.elements.len();
            assert(!order.contains(slot)) by {
                if order.contains(slot) {
                    let i = order.index_of(slot);
                    assert(order[i] == slot);
                }
            }
            self.elements.push(Some(element));
            self.links.push(Links { prev: None, next: None });
        }
        assert(self.inv(1));
        self.attach_back(slot);
        proof {
            assert forall|s: usize| order.contains(s) implies self.element_at(s) == old(
                self,
            ).element_at(s) by {
                let i = order.index_of(s);
                assert(order[i] == s);
            }
        }
        slot
    }

    /// Moves the node in `slot` to the back.
    pub fn move_to_back(&mut self, slot: usize)
        requires
            old(self).wf(),
            old(self).slots().contains(slot),
        ensures
            final(self).wf(),
            final(self).slots() == old(self).slots().remove(
                old(self).slots().index_of(slot),
            ).push(slot),
            forall|s: usize| final(self).element_at(s) == old(self).element_at(s),
            final(self).spec_region() == old(self).spec_region(),
    {
        if self.tail == Some(slot) {
            proof {
                let order = self.order@;
                let p = order.index_of(slot);
                assert(order[p] == slot);
                assert(order[order.len() - 1] == slot);
                assert(p == order.len() - 1);
                assert(order.remove(p).push(slot) =~= order);
            }
            return ;
        }
        self.detach(slot);
        self.attach_back(slot);
    }

    /// Unlinks the node in `slot` and drops its element; the slot is free
    /// for a later node.
    pub fn unlink_and_drop(&mut self, slot: usize)
        requires
            old(self).wf(),
            old(self).slots().contains(slot),
        ensures
            final(self).wf(),
            final(self).slots() == old(self).slots().remove(old(self).slots().index_of(slot)),
            !final(self).slots().contains(slot),
            forall|s: usize|
                final(self).slots().contains(s) ==> final(self).element_at(s) == old(
                    self,
                ).element_at(s),
            final(self).spec_region() == old(self).spec_region(),
    {
        self.detach(slot);
        let ghost free = self.free@;
        assert(!free.contains(slot)) by {
            if free.contains(slot) {
                let j = free.index_of(slot);
                assert(free[j] == slot);
            }
        }
        self.elements.set(slot, None);
        self.free.push(slot);
        proof {
            let order = self.order@;
            assert forall|i: int| 0 <= i < order.len() implies (#[trigger] order[i]) != slot by {
                assert(order.contains(order[i]));
            }
            assert(self.free@.no_duplicates()) by {
                assert forall|i: int, j: int|
                    0 <= i < self.free@.len() && 0 <= j < self.free@.len() && i != j implies self.free@[i]
                    != self.free@[j] by {
                    if i < free.len() && j < free.len() {
                        assert(free[i] != free[j]);
                    } else if i < free.len() {
                        assert(free.contains(free[i]));
                    } else {
                        assert(free.contains(free[j]));
                    }
                }
            }
            assert forall|j: int| 0 <= j < self.free.len() implies {
                let s = #[trigger] self.free@[j];
                &&& s < self.elements.len()
                &&& self.elements@[s as int] is None
            } by {
                if j < free.len() {
                    assert(free[j] == self.free@[j]);
                }
            }
        }
    }

    /// Unlinks the node at the front, if there is one, and drops its element.
    pub fn pop_front(&mut self) -> (popped: bool)
        requires
            old(self).wf(),
        ensures
            final(self).wf(),
            popped == (old(self).slots().len() > 0),
            final(self).slots() == (if popped {
                old(self).slots().remove(0)
            } else {
                old(self).slots()
            }),
            forall|s: usize|
                final(self).slots().contains(s) ==> final(self).element_at(s) == old(
                    self,
                ).element_at(s),
            final(self).spec_region() == old(self).spec_region(),
    {
        match self.head {
            Some(slot) => {
                proof {
                    assert(self.order@[0] == slot);
                    assert(self.order@.contains(slot));
                    self.lemma_slots();
                    assert(self.order@.index_of(slot) == 0) by {
                        let p = self.order@.index_of(slot);
                        assert(self.order@[p] == slot);
                    }
                }
                self.unlink_and_drop(slot);
                true
            },
            None => false,
        }
    }
}

} // verus!
