//! A queue that forgets its oldest element when it is full.

use std::collections::VecDeque;
use vstd::prelude::*;

verus! {

/// A queue with a maximum length: pushing onto a full queue drops the element
/// at the front.
pub struct FixedVecDeque<T> {
    inner: VecDeque<T>,
    max_len: usize,
}

impl<T> View for FixedVecDeque<T> {
    type V = Seq<T>;

    closed spec fn view(&self) -> Seq<T> {
        self.inner@
    }
}

impl<T> FixedVecDeque<T> {
    /// The maximum length the queue was made with.
    pub closed spec fn spec_max_len(&self) -> nat {
        self.max_len as nat
    }

    /// An empty queue that holds up to `max_len` elements.
    pub fn with_max_len(max_len: usize) -> (queue: Self)
        ensures
            queue@ == Seq::<T>::empty(),
            queue.spec_max_len() == max_len,
    {
        Self { inner: VecDeque::new(), max_len }
    }

    /// Appends an element to the back of the queue. Where the queue holds as
    /// many elements as its maximum length, the front element is removed
    /// first and returned.
    ///
    /// A queue made with a maximum length of zero has no front element to
    /// give up when it is empty, and takes the element in.
    pub fn push_back(&mut self, value: T) -> (popped: Option<T>)
        ensures
            final(self).spec_max_len() == old(self).spec_max_len(),
            old(self)@.len() == old(self).spec_max_len() && old(self)@.len() > 0 ==> popped
                == Some(old(self)@[0]) && final(self)@ == old(self)@.drop_first().push(value),
            !(old(self)@.len() == old(self).spec_max_len() && old(self)@.len() > 0) ==> popped
                is None && final(self)@ == old(self)@.push(value),
            old(self)@.len() <= old(self).spec_max_len() && old(self).spec_max_len() > 0
                ==> final(self)@.len() <= final(self).spec_max_len(),
    {
        let popped = if self.inner.len() == self.max_len {
            self.inner.pop_front()
        } else {
            None
        };
        self.inner.push_back(value);
        popped
    }

    /// The number of elements in the queue.
    pub fn len(&self) -> (n: usize)
        ensures
            n == self@.len(),
    {
        self.inner.len()
    }

    /// Whether the queue holds no element.
    pub fn is_empty(&self) -> (r: bool)
        ensures
            r == (self@.len() == 0),
    {
        self.inner.len() == 0
    }

    /// The maximum length the queue was made with.
    pub fn max_len(&self) -> (n: usize)
        ensures
            n == self.spec_max_len(),
    {
        self.max_len
    }

    /// The element at offset `index`, counted from the front.
    pub fn get(&self, index: usize) -> (element: Option<&T>)
        ensures
            index < self@.len() ==> element == Some(&self@[index as int]),
            index >= self@.len() ==> element is None,
    {
        if index < self.inner.len() {
            Some(&self.inner[index])
        } else {
            None
        }
    }
}

} // verus!
