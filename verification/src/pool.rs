//! The per-core recycling pools of the proxy: read buffers, and "hot pipes",
//! connections to the backend kept open for the next client. Items are handed
//! out oldest first; a bounded pool turns items away once it is full.
use vstd::prelude::*;
use std::collections::VecDeque;

verus! {

/// Number of read buffers made for each core at start-up.
pub const POOL_CAPACITY: usize = 1024;

/// Size of a read buffer.
pub const BUFFER_SIZE: usize = 4096;

/// Most backend connections a core keeps open.
pub const MAX_HOT_PIPES: usize = 64;

/// A first-in first-out pool of reusable items, with an optional bound.
pub struct Pool<T> {
    items: VecDeque<T>,
    bound: Option<usize>,
}

impl<T> Pool<T> {
    /// The pooled items, oldest first.
    pub closed spec fn items(&self) -> Seq<T> {
        self.items@
    }

    /// The most items the pool keeps, if it is bounded.
    pub closed spec fn bound(&self) -> Option<usize> {
        self.bound
    }

    /// A bounded pool never holds more than its bound.
    pub open spec fn wf(&self) -> bool {
        self.bound() matches Some(b) ==> self.items().len() <= b
    }

    /// An empty pool that keeps any number of items.
    pub fn unbounded() -> (p: Pool<T>)
        ensures
            p.wf(),
            p.items() == Seq::<T>::empty(),
            p.bound() is None,
    {
        Pool { items: VecDeque::new(), bound: None }
    }

    /// An empty pool that keeps at most `bound` items.
    pub fn bounded(bound: usize) -> (p: Pool<T>)
        ensures
            p.wf(),
            p.items() == Seq::<T>::empty(),
            p.bound() == Some(bound),
    {
        Pool { items: VecDeque::new(), bound: Some(bound) }
    }

    /// How many items the pool holds.
    pub fn len(&self) -> (n: usize)
        ensures
            n == self.items().len(),
    {
        self.items.len()
    }

    /// Hands out the oldest item, if any.
    pub fn take(&mut self) -> (r: Option<T>)
        requires
            old(self).wf(),
        ensures
            final(self).wf(),
            final(self).bound() == old(self).bound(),
            old(self).items().len() == 0 ==> r is None && final(self).items() == old(self).items(),
            old(self).items().len() > 0 ==> r == Some(old(self).items()[0]) && final(self).items()
                == old(self).items().drop_first(),
    {
        self.items.pop_front()
    }

    /// Takes `item` back. A bounded pool that is full turns it away and hands
    /// it back to the caller (who drops it); otherwise it is kept as the newest.
    pub fn give(&mut self, item: T) -> (rejected: Option<T>)
        requires
            old(self).wf(),
        ensures
            final(self).wf(),
            final(self).bound() == old(self).bound(),
            (old(self).bound() matches Some(b) && old(self).items().len() >= b) ==> rejected == Some(item)
                && final(self).items() == old(self).items(),
            !(old(self).bound() matches Some(b) && old(self).items().len() >= b) ==> rejected is None
                && final(self).items() == old(self).items().push(item),
    {
        match self.bound {
            Some(b) => {
                if self.items.len() >= b {
                    return Some(item);
                }
            },
            None => {},
        }
        self.items.push_back(item);
        None
    }
}

} // verus!
