//! A bounded history: pushing beyond the capacity drops the oldest item.

use std::collections::VecDeque;
use vstd::prelude::*;

verus! {

/// A queue that keeps the most recent items, oldest first.
pub struct RingBuffer<T> {
    buffer: VecDeque<T>,
    capacity: usize,
}

impl<T> View for RingBuffer<T> {
    type V = Seq<T>;

    /// The stored items, oldest first.
    closed spec fn view(&self) -> Seq<T> {
        self.buffer@
    }
}

/// What a buffer holding `items` under `capacity` holds after `item` is pushed.
pub open spec fn pushed<T>(items: Seq<T>, capacity: usize, item: T) -> Seq<T> {
    if items.len() >= capacity && items.len() > 0 {
        items.drop_first().push(item)
    } else {
        items.push(item)
    }
}

impl<T> RingBuffer<T> {
    /// The number of items the buffer keeps before it starts dropping the oldest.
    pub closed spec fn spec_capacity(&self) -> usize {
        self.capacity
    }

    /// A buffer never holds more than its capacity, except that a buffer of
    /// capacity zero still keeps the single most recent item.
    pub open spec fn wf(&self) -> bool {
        self@.len() <= self.spec_capacity() || self@.len() <= 1
    }

    /// The number of stored items.
    pub open spec fn spec_len(&self) -> usize {
        self@.len() as usize
    }

    pub fn new(capacity: usize) -> (r: Self)
        ensures
            r@ == Seq::<T>::empty(),
            r.spec_capacity() == capacity,
            r.wf(),
    {
        Self { buffer: VecDeque::new(), capacity }
    }

    #[verifier::when_used_as_spec(spec_capacity)]
    pub fn capacity(&self) -> (n: usize)
        ensures
            n == self.spec_capacity(),
    {
        self.capacity
    }

    #[verifier::when_used_as_spec(spec_len)]
    pub fn len(&self) -> (n: usize)
        ensures
            n == self@.len(),
    {
        self.buffer.len()
    }

    /// Appends `item`, first dropping the oldest item if the buffer is full.
    pub fn push(&mut self, item: T)
        ensures
            final(self)@ == pushed(old(self)@, old(self).spec_capacity(), item),
            final(self).spec_capacity() == old(self).spec_capacity(),
            old(self).wf() ==> final(self).wf(),
    {
        if self.buffer.len() >= self.capacity {
            self.buffer.pop_front();
        }
        self.buffer.push_back(item);
    }

    pub fn get_last(&self) -> (r: Option<&T>)
        ensures
            self@.len() == 0 ==> r is None,
            self@.len() > 0 ==> r == Some(&self@.last()),
    {
        let n = self.buffer.len();
        if n == 0 {
            None
        } else {
            Some(&self.buffer[n - 1])
        }
    }

    /// Raises the capacity to `new_capacity`; a smaller or equal value changes nothing.
    pub fn increase_capacity(&mut self, new_capacity: usize)
        ensures
            final(self)@ == old(self)@,
            final(self).spec_capacity() == if new_capacity > old(self).spec_capacity() {
                new_capacity
            } else {
                old(self).spec_capacity()
            },
            old(self).wf() ==> final(self).wf(),
    {
        if new_capacity > self.capacity {
            self.capacity = new_capacity;
        }
    }

    /// A cursor over the stored items, positioned at the oldest.
    pub fn iter(&self) -> (it: RingBufferIterator<'_, T>)
        ensures
            it.items() == self@,
            it.position() == 0,
    {
        RingBufferIterator { buffer: &self.buffer, index: 0 }
    }
}

impl<T> Default for RingBuffer<T> {
    fn default() -> (r: Self)
        ensures
            r@ == Seq::<T>::empty(),
            r.spec_capacity() == 10,
            r.wf(),
    {
        Self::new(10)
    }
}

/// A cursor that walks a [`RingBuffer`] from the oldest item to the newest.
pub struct RingBufferIterator<'a, T> {
    buffer: &'a VecDeque<T>,
    index: usize,
}

impl<'a, T> RingBufferIterator<'a, T> {
    /// All items of the buffer the cursor walks, oldest first.
    pub closed spec fn items(&self) -> Seq<T> {
        self.buffer@
    }

    /// How many items the cursor has handed out.
    pub closed spec fn position(&self) -> int {
        self.index as int
    }

    /// Hands out the item under the cursor and steps past it; `None` at the end.
    pub fn next(&mut self) -> (r: Option<&'a T>)
        ensures
            final(self).items() == old(self).items(),
            old(self).position() < old(self).items().len() ==> r == Some(
                &old(self).items()[old(self).position()],
            ) && final(self).position() == old(self).position() + 1,
            old(self).position() >= old(self).items().len() ==> r is None && final(self).position()
                == old(self).position(),
    {
        if self.index < self.buffer.len() {
            let item = &self.buffer[self.index];
            self.index += 1;
            Some(item)
        } else {
            None
        }
    }
}

} // verus!
