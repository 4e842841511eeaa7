use vstd::prelude::*;

verus! {

/// The entries of a cache, each yielded once, in the order of its hash table.
pub struct Iter<'i, K, V> {
    items: Vec<(&'i K, &'i V)>,
    position: usize,
}

impl<'i, K, V> Iter<'i, K, V> {
    /// The entries that are still to come.
    pub closed spec fn view(&self) -> Seq<(K, V)> {
        Seq::new(
            (self.items@.len() - self.position) as nat,
            |i: int| (*self.items@[self.position + i].0, *self.items@[self.position + i].1),
        )
    }

    /// The iterator has not run past its end.
    pub closed spec fn wf(&self) -> bool {
        self.position <= self.items@.len()
    }

    /// An iterator that yields `items` from the first to the last.
    pub fn new(items: Vec<(&'i K, &'i V)>) -> (iter: Self)
        ensures
            iter.wf(),
            iter@ == Seq::new(items@.len(), |i: int| (*items@[i].0, *items@[i].1)),
    {
        let iter = Iter { items, position: 0 };
        assert(iter@ =~= Seq::new(items@.len(), |i: int| (*items@[i].0, *items@[i].1)));
        iter
    }

    /// The number of entries that are still to come.
    pub fn len(&self) -> (len: usize)
        requires
            self.wf(),
        ensures
            len == self@.len(),
    {
        self.items.len() - self.position
    }

    /// Yields the next entry, or `None` when there is none left.
    pub fn next(&mut self) -> (item: Option<(&'i K, &'i V)>)
        requires
            old(self).wf(),
        ensures
            final(self).wf(),
            old(self)@.len() == 0 ==> item is None && final(self)@ == old(self)@,
            old(self)@.len() > 0 ==> item is Some && (*item.unwrap().0, *item.unwrap().1) == old(
                self,
            )@[0] && final(self)@ == old(self)@.skip(1),
    {
        if self.position < self.items.len() {
            let item = self.items[self.position];
            self.position += 1;
            assert(self@ =~= old(self)@.skip(1));
            Some(item)
        } else {
            None
        }
    }
}

} // verus!
