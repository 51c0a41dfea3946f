//! The slots of a ring buffer and the two indices that move around them.
use vstd::prelude::*;

use crate::ring::{cloned_entries, cloned_entry, lemma_around, Ring};
use crate::text::{bracketed, bracketed_text, chars_of, showable, shown_by};

verus! {

/// Holds the items of a ring buffer, and the slots at which the next item is
/// put in and taken out.
pub struct InnerRingBuffer<T> {
    items: Vec<Option<T>>,
    enqueue_index: usize,
    dequeue_index: usize,
    queue: Ghost<Seq<Option<T>>>,
}

impl<T> View for InnerRingBuffer<T> {
    type V = Ring<T>;

    closed spec fn view(&self) -> Ring<T> {
        Ring {
            capacity: self.items@.len(),
            head: self.dequeue_index as nat,
            queue: self.queue@,
        }
    }
}

impl<T> InnerRingBuffer<T> {
    /// The enqueue index and the slots are those of the queue that the buffer
    /// stands for.
    pub closed spec fn laid_out(&self) -> bool {
        &&& self.enqueue_index == self@.tail()
        &&& self.items@ == self@.slots()
    }

    /// The buffer stands for a ring and is laid out as that ring.
    pub open spec fn wf(&self) -> bool {
        &&& self@.wf()
        &&& self@.capacity <= usize::MAX
        &&& self.laid_out()
    }

    /// Instantiates the InnerRingBuffer with `capacity` empty slots.
    pub fn new(capacity: usize) -> (inner: Self)
        ensures
            inner.wf(),
            inner@ == Ring::<T>::empty(capacity as nat),
    {
        let mut items: Vec<Option<T>> = Vec::with_capacity(capacity);
        let mut i: usize = 0;
        while i < capacity
            invariant
                i <= capacity,
                items@.len() == i,
                forall|k: int| 0 <= k < i ==> items@[k] is None,
            decreases capacity - i,
        {
            items.push(None);
            i += 1;
        }
        let inner = InnerRingBuffer {
            items,
            enqueue_index: 0,
            dequeue_index: 0,
            queue: Ghost(Seq::empty()),
        };
        proof {
            if capacity > 0 {
                lemma_around(0, 0, capacity as int);
            }
            assert(inner.items@ =~= inner@.slots());
        }
        inner
    }

    /// Puts `item` in the next slot and moves the enqueue index on.
    pub fn put(&mut self, item: Option<T>)
        requires
            old(self).wf(),
            !old(self)@.is_full(),
        ensures
            final(self).wf(),
            final(self)@ == old(self)@.push(item),
    {
        let ghost before = self@;
        let enqueue_index: usize = self.enqueue_index;
        let capacity: usize = self.items.len();
        proof {
            lemma_around(before.head as int, before.queue.len() as int, capacity as int);
            lemma_around(enqueue_index as int, 1, capacity as int);
            lemma_around(before.head as int, before.queue.len() as int + 1, capacity as int);
        }
        self.items[enqueue_index] = item;
        self.enqueue_index = (enqueue_index + 1) % capacity;
        self.queue = Ghost(self.queue@.push(item));
        assert(self.items@ =~= self@.slots());
    }

    /// Takes the item out of the oldest slot and moves the dequeue index on.
    pub fn take(&mut self) -> (item: Option<T>)
        requires
            old(self).wf(),
            !old(self)@.is_empty(),
        ensures
            final(self).wf(),
            item == old(self)@.queue[0],
            final(self)@ == old(self)@.pop(),
    {
        let ghost before = self@;
        let dequeue_index: usize = self.dequeue_index;
        let capacity: usize = self.items.len();
        proof {
            lemma_around(before.head as int, before.queue.len() as int, capacity as int);
            lemma_around(before.head as int, 1, capacity as int);
            let head = crate::ring::around(before.head as int, 1, capacity as int);
            lemma_around(head, before.queue.len() - 1, capacity as int);
            assert(before.slots()[dequeue_index as int] == before.slot(dequeue_index as int));
        }
        let item = self.items[dequeue_index].take();
        self.dequeue_index = (dequeue_index + 1) % capacity;
        self.queue = Ghost(self.queue@.drop_first());
        assert(self.items@ =~= self@.slots());
        item
    }

    /// Empties every slot and moves both indices back to the first slot.
    pub fn clear(&mut self)
        requires
            old(self).wf(),
        ensures
            final(self).wf(),
            final(self)@ == Ring::<T>::empty(old(self)@.capacity),
    {
        let capacity: usize = self.items.len();
        let mut i: usize = 0;
        while i < capacity
            invariant
                i <= capacity,
                self.items@.len() == capacity,
                forall|k: int| 0 <= k < i ==> self.items@[k] is None,
            decreases capacity - i,
        {
            self.items[i] = None;
            i += 1;
        }
        self.enqueue_index = 0;
        self.dequeue_index = 0;
        self.queue = Ghost(Seq::empty());
        proof {
            if capacity > 0 {
                lemma_around(0, 0, capacity as int);
            }
            assert(self.items@ =~= self@.slots());
        }
    }

    /// The slot that the next item goes to.
    pub fn enqueue_index(&self) -> (index: usize)
        requires
            self.wf(),
        ensures
            index == self@.tail(),
    {
        self.enqueue_index
    }

    /// The slot that the next item comes from.
    pub fn dequeue_index(&self) -> (index: usize)
        requires
            self.wf(),
        ensures
            index == self@.head,
    {
        self.dequeue_index
    }

    /// Returns a clone of what slot `index` holds.
    pub fn get(&self, index: usize) -> (item: Option<T>) where T: Clone
        requires
            self.wf(),
            index < self@.capacity,
        ensures
            cloned_entry(self@.slot(index as int), item),
    {
        assert(self@.slots()[index as int] == self@.slot(index as int));
        self.items[index].clone()
    }

    /// Returns a clone of what all slots hold.
    pub fn items(&self) -> (items: Vec<Option<T>>) where T: Clone
        requires
            self.wf(),
        ensures
            cloned_entries(self@.slots(), items@),
    {
        self.items.clone()
    }

    /// Writes out what all slots hold, each as `show` gives it.
    pub fn text<F: Fn(&Option<T>) -> String>(&self, show: &F) -> (text: String)
        requires
            self.wf(),
            showable(*show, self@.slots()),
        ensures
            exists|texts: Seq<String>|
                #![trigger chars_of(texts)]
                shown_by(*show, self@.slots(), texts) && text@ == bracketed(chars_of(texts)),
    {
        bracketed_text(&self.items, show)
    }
}

} // verus!
