use std::collections::VecDeque;
use vstd::prelude::*;

verus! {

/// The most recent values, oldest first: never more than `capacity` of them,
/// the oldest evicted first.
pub struct RollingHistory<T> {
    items: VecDeque<T>,
    capacity: usize,
}

impl<T> View for RollingHistory<T> {
    type V = Seq<T>;

    closed spec fn view(&self) -> Seq<T> {
        self.items@
    }
}

impl<T> RollingHistory<T> {
    /// The configured capacity.
    pub closed spec fn limit(&self) -> nat {
        self.capacity as nat
    }

    pub open spec fn wf(&self) -> bool {
        self@.len() <= self.limit()
    }

    /// An empty history that keeps at most `capacity` values.
    pub fn new(capacity: usize) -> (r: RollingHistory<T>)
        ensures
            r.wf(),
            r@ == Seq::<T>::empty(),
            r.limit() == capacity,
    {
        RollingHistory { items: VecDeque::new(), capacity }
    }

    /// Appends `value`, evicting the oldest value where the history is full.
    pub fn push(&mut self, value: T)
        requires
            old(self).wf(),
        ensures
            final(self).wf(),
            final(self).limit() == old(self).limit(),
            final(self)@ == (if old(self).limit() == 0 {
                old(self)@
            } else if old(self)@.len() < old(self).limit() {
                old(self)@.push(value)
            } else {
                old(self)@.drop_first().push(value)
            }),
    {
        if self.capacity == 0 {
            return;
        }
        if self.items.len() >= self.capacity {
            let _evicted = self.items.pop_front();
        }
        self.items.push_back(value);
    }

    pub fn len(&self) -> (r: usize)
        ensures
            r == self@.len(),
    {
        self.items.len()
    }

    pub fn capacity(&self) -> (r: usize)
        ensures
            r == self.limit(),
    {
        self.capacity
    }

    /// The `i`-th value, counted from the oldest.
    pub fn get(&self, i: usize) -> (r: &T)
        requires
            i < self@.len(),
        ensures
            *r == self@[i as int],
    {
        &self.items[i]
    }
}

} // verus!
