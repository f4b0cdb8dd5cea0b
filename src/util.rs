//! A vector with a fixed capacity.

use vstd::prelude::*;

verus! {

/// A vector that holds at most `N` items.
#[derive(Clone, Debug, PartialEq, Eq)]
pub struct FixedVec<T, const N: usize> {
    items: Vec<T>,
}

impl<T: Copy, const N: usize> FixedVec<T, N> {
    /// The items held, in the order they were pushed.
    pub closed spec fn view(&self) -> Seq<T> {
        self.items@
    }

    /// At most `N` items are held.
    pub closed spec fn wf(&self) -> bool {
        self.items@.len() <= N
    }

    /// An empty vector.
    pub fn new() -> (r: Self)
        ensures
            r.wf(),
            r.view() == Seq::<T>::empty(),
    {
        FixedVec { items: Vec::new() }
    }

    /// The item at `index`, if there is one.
    pub fn get(&self, index: u32) -> (r: Option<&T>)
        ensures
            (index as int) < self.view().len() ==> r == Some(&self.view()[index as int]),
            (index as int) >= self.view().len() ==> r is None,
    {
        if (index as usize) < self.items.len() {
            Some(&self.items[index as usize])
        } else {
            None
        }
    }

    /// Appends `item` and returns `None` when there is room; otherwise
    /// leaves the vector as it is and hands `item` back.
    pub fn push(&mut self, item: T) -> (r: Option<T>)
        requires
            old(self).wf(),
        ensures
            final(self).wf(),
            old(self).view().len() < N ==> r is None && final(self).view() == old(self).view().push(item),
            old(self).view().len() >= N ==> r == Some(item) && final(self).view() == old(self).view(),
    {
        if self.items.len() < N {
            self.items.push(item);
            None
        } else {
            Some(item)
        }
    }

    /// The number of items held.
    pub fn len(&self) -> (r: usize)
        ensures
            r == self.view().len(),
    {
        self.items.len()
    }

    /// The items held, in order.
    pub fn as_slice(&self) -> (r: &[T])
        ensures
            r@ == self.view(),
    {
        self.items.as_slice()
    }
}

} // verus!
