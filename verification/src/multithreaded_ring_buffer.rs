//! A ring buffer whose producers wait while it is full or poisoned and whose
//! consumers wait while it is empty.
//!
//! Every operation is a single step on the buffer, to be taken while no other
//! task is at it. A step that cannot be taken yet says so and leaves the buffer
//! as it was: the task waits until it is notified, and tries again. A step that
//! puts an entry in, takes one out or resets the buffer is to be followed by
//! notifying the waiting tasks.
use vstd::prelude::*;

use crate::inner_ring_buffer::InnerRingBuffer;
use crate::ring::{cloned_entries, cloned_entry, Ring};
use crate::text::{bracketed, chars_of, showable, shown_by};

verus! {

/// A ring (circular) buffer for a *multi-threaded environment*.
/// See the [Wikipedia article](https://en.wikipedia.org/wiki/Circular_buffer) for more info.
pub struct MultiThreadedRingBuffer<T> {
    num_jobs: usize,
    capacity: usize,
    inner_rb: InnerRingBuffer<T>,
    poisoned: bool,
}

/// What a dequeue came to.
#[derive(Debug)]
pub enum Dequeued<T> {
    /// The buffer is empty: wait until notified, then try again.
    Wait,
    /// This entry was taken out; it is `None` where the buffer was poisoned.
    Entry(Option<T>),
}

/// What a step of poisoning came to.
#[derive(Debug)]
pub enum PoisonStep {
    /// The buffer is full: wait until notified, then try again.
    Wait,
    /// One more entry without an item was put in.
    Sent,
    /// As many entries as the buffer has slots have been put in: the buffer is
    /// poisoned.
    Done,
}

impl<T> View for MultiThreadedRingBuffer<T> {
    type V = Ring<T>;

    closed spec fn view(&self) -> Ring<T> {
        self.inner_rb@
    }
}

impl<T> MultiThreadedRingBuffer<T> {
    /// The count of jobs and the capacity are those of the ring.
    pub closed spec fn counted(&self) -> bool {
        &&& self.inner_rb.wf()
        &&& self.num_jobs == self@.queue.len()
        &&& self.capacity == self@.capacity
    }

    /// The buffer has been poisoned, and has not been reset since.
    pub closed spec fn poisoned(&self) -> bool {
        self.poisoned
    }

    pub open spec fn wf(&self) -> bool {
        &&& self@.wf()
        &&& self@.capacity <= usize::MAX
        &&& self.counted()
    }

    /// Instantiates the MultiThreadedRingBuffer.
    pub fn new(capacity: usize) -> (rb: Self)
        ensures
            rb.wf(),
            rb@ == Ring::<T>::empty(capacity as nat),
            !rb.poisoned(),
    {
        MultiThreadedRingBuffer {
            num_jobs: 0,
            capacity,
            inner_rb: InnerRingBuffer::new(capacity),
            poisoned: false,
        }
    }

    /// Adds an entry, with or without an item, if there is space for it.
    ///
    /// A full buffer hands the entry back. This is necessary so that the buffer
    /// can be poisoned with entries that hold no item.
    fn enqueue_item(&mut self, item: Option<T>) -> (result: Result<(), Option<T>>)
        requires
            old(self).wf(),
        ensures
            final(self).wf(),
            final(self).poisoned() == old(self).poisoned(),
            match result {
                Ok(_) => !old(self)@.is_full() && final(self)@ == old(self)@.push(item),
                Err(back) => old(self)@.is_full() && back == item && final(self)@ == old(self)@,
            },
    {
        if self.num_jobs == self.capacity {
            return Err(item);
        }
        self.inner_rb.put(item);
        self.num_jobs += 1;
        Ok(())
    }

    /// Adds an item of type T to the ring buffer if there is space for it and
    /// the buffer is not [poisoned][Self::poison].
    ///
    /// Otherwise the item is handed back: the task waits until it is notified
    /// and tries again. If the item is added, the waiting tasks are to be
    /// notified.
    pub fn enqueue(&mut self, item: T) -> (result: Result<(), T>)
        requires
            old(self).wf(),
        ensures
            final(self).wf(),
            final(self).poisoned() == old(self).poisoned(),
            match result {
                Ok(_) => {
                    &&& !old(self).poisoned()
                    &&& !old(self)@.is_full()
                    &&& final(self)@ == old(self)@.push(Some(item))
                },
                Err(back) => {
                    &&& old(self).poisoned() || old(self)@.is_full()
                    &&& back == item
                    &&& final(self)@ == old(self)@
                },
            },
    {
        if self.poisoned {
            return Err(item);
        }
        match self.enqueue_item(Some(item)) {
            Ok(_) => Ok(()),
            Err(entry) => Err(entry.unwrap()),
        }
    }

    /// Retrieves the oldest entry of the ring buffer if there is one; the waiting
    /// tasks are to be notified then.
    pub fn dequeue(&mut self) -> (dequeued: Dequeued<T>)
        requires
            old(self).wf(),
        ensures
            final(self).wf(),
            final(self).poisoned() == old(self).poisoned(),
            match dequeued {
                Dequeued::Wait => old(self)@.is_empty() && final(self)@ == old(self)@,
                Dequeued::Entry(item) => {
                    &&& !old(self)@.is_empty()
                    &&& item == old(self)@.queue[0]
                    &&& final(self)@ == old(self)@.pop()
                },
            },
    {
        if self.num_jobs == 0 {
            return Dequeued::Wait;
        }
        let item = self.inner_rb.take();
        self.num_jobs -= 1;
        Dequeued::Entry(item)
    }

    /// Poisons the ring buffer, preventing any more items from being enqueued:
    /// puts in as many entries without an item as the buffer has slots, one with
    /// each step. `sent` says how many of them have been put in by the steps
    /// before. The step that finds all of them sent makes the buffer poisoned,
    /// which it stays until it is [cleared][Self::clear] or its
    /// [poison is cleared][Self::clear_poison].
    ///
    /// If an entry is put in, the waiting tasks are to be notified.
    pub fn poison(&mut self, sent: usize) -> (step: PoisonStep)
        requires
            old(self).wf(),
        ensures
            final(self).wf(),
            match step {
                PoisonStep::Done => {
                    &&& sent >= old(self)@.capacity
                    &&& final(self).poisoned()
                    &&& final(self)@ == old(self)@
                },
                PoisonStep::Wait => {
                    &&& sent < old(self)@.capacity
                    &&& old(self)@.is_full()
                    &&& final(self).poisoned() == old(self).poisoned()
                    &&& final(self)@ == old(self)@
                },
                PoisonStep::Sent => {
                    &&& sent < old(self)@.capacity
                    &&& !old(self)@.is_full()
                    &&& final(self).poisoned() == old(self).poisoned()
                    &&& final(self)@ == old(self)@.push(None)
                },
            },
    {
        if sent >= self.capacity {
            self.poisoned = true;
            return PoisonStep::Done;
        }
        match self.enqueue_item(None) {
            Ok(_) => PoisonStep::Sent,
            Err(_) => PoisonStep::Wait,
        }
    }

    /// If the ring buffer is [poisoned][Self::poison] or is at capacity, resets
    /// it to an empty state, so that it can be used again; the waiting tasks are
    /// to be notified then. Says whether the buffer was reset.
    pub fn clear_poison(&mut self) -> (cleared: bool)
        requires
            old(self).wf(),
        ensures
            final(self).wf(),
            cleared == (old(self).poisoned() || old(self)@.is_full()),
            !final(self).poisoned(),
            final(self)@ == if cleared {
                Ring::<T>::empty(old(self)@.capacity)
            } else {
                old(self)@
            },
    {
        if self.poisoned || self.num_jobs == self.capacity {
            self.clear();
            true
        } else {
            false
        }
    }

    /// Clears the ring buffer back to an empty state, in which it is not
    /// poisoned; the waiting tasks are to be notified.
    ///
    /// To clear it *only* when it is *poisoned*, see [Self::clear_poison].
    pub fn clear(&mut self)
        requires
            old(self).wf(),
        ensures
            final(self).wf(),
            final(self)@ == Ring::<T>::empty(old(self)@.capacity),
            !final(self).poisoned(),
    {
        self.num_jobs = 0;
        self.inner_rb = InnerRingBuffer::new(self.capacity);
        self.poisoned = false;
    }

    /// Checks whether the ring buffer is empty or not.
    pub fn is_empty(&self) -> (empty: bool)
        requires
            self.wf(),
        ensures
            empty == self@.is_empty(),
    {
        self.num_jobs == 0
    }

    /// Checks whether the ring buffer is full or not.
    pub fn is_full(&self) -> (full: bool)
        requires
            self.wf(),
        ensures
            full == self@.is_full(),
    {
        self.num_jobs == self.capacity
    }

    /// The slot that the next item goes to.
    pub fn next_enqueue_index(&self) -> (index: usize)
        requires
            self.wf(),
        ensures
            index == self@.tail(),
    {
        self.inner_rb.enqueue_index()
    }

    /// The slot that the next item comes from.
    pub fn next_dequeue_index(&self) -> (index: usize)
        requires
            self.wf(),
        ensures
            index == self@.head,
    {
        self.inner_rb.dequeue_index()
    }

    /// Returns a clone of what slot `index` holds.
    pub fn get(&self, index: usize) -> (item: Option<T>) where T: Clone
        requires
            self.wf(),
            index < self@.capacity,
        ensures
            cloned_entry(self@.slot(index as int), item),
    {
        self.inner_rb.get(index)
    }

    /// Returns a clone of what all slots hold.
    pub fn rb_items(&self) -> (items: Vec<Option<T>>) where T: Clone
        requires
            self.wf(),
        ensures
            cloned_entries(self@.slots(), items@),
    {
        self.inner_rb.items()
    }

    /// Writes out what the ring buffer holds, each slot as `show` gives it.
    pub fn print_buffer<F: Fn(&Option<T>) -> String>(&self, show: F) -> (text: String)
        requires
            self.wf(),
            showable(show, self@.slots()),
        ensures
            exists|texts: Seq<String>|
                #![trigger chars_of(texts)]
                shown_by(show, self@.slots(), texts) && text@ == bracketed(chars_of(texts)),
    {
        self.inner_rb.text(&show)
    }
}

} // verus!
