//! A sharded ring buffer that is guarded by a lock with readers and writers.
//!
//! Tasks that enqueue or dequeue share the buffer: each of them holds the lock
//! as a reader from its search for a shard until it has released the shard, and
//! the steps of several tasks may come in any order. To poison the buffer, to take
//! the poison back, and to ask whether the buffer or a shard is empty or full
//! needs no lock: each is a single step that may come at any time. All other
//! operations are single steps of a task that holds the lock as a writer.
use vstd::prelude::*;

use crate::cursor::{backoff, Cursor, ShardCursor};
use crate::ring::{around, cloned_entries, cloned_entry};
pub use crate::shard_set::EnqStatus;
use crate::shard_set::{AcquireStep, ShardSet};
use crate::shards::{shard_capacity, Acquire, InvalidIndex, Shards};
use crate::text::{chars_of_all, shard_lines};

verus! {

/// A sharded ring (circular) buffer for a *multi-threaded environment*.
/// See the [Wikipedia article](https://en.wikipedia.org/wiki/Circular_buffer) for more info.
pub struct ShardedMultiThreadedRingBuffer<T> {
    set: ShardSet<T>,
}

impl<T> View for ShardedMultiThreadedRingBuffer<T> {
    type V = Shards<T>;

    closed spec fn view(&self) -> Shards<T> {
        self.set@
    }
}

impl<T> ShardedMultiThreadedRingBuffer<T> {
    /// The shards are counted right.
    pub closed spec fn counted(&self) -> bool {
        self.set.wf()
    }

    pub open spec fn wf(&self) -> bool {
        &&& self@.wf()
        &&& self@.capacity() <= usize::MAX
        &&& self@.count() <= usize::MAX
        &&& self.counted()
    }

    /// Instantiates the ShardedMultiThreadedRingBuffer.
    ///
    /// Note: The capacity of this buffer will always be rounded up to
    /// the next positive integer that is divisible by the provided shards.
    /// The provided shard value can only be a *positive* integer.
    pub fn new(capacity: usize, shards: usize) -> (rb: Self)
        requires
            shards > 0,
            capacity + shards - 1 <= usize::MAX,
        ensures
            rb.wf(),
            rb@ == Shards::<T>::empty(
                shard_capacity(capacity as nat, shards as nat),
                shards as nat,
            ),
    {
        ShardedMultiThreadedRingBuffer { set: ShardSet::new(capacity, shards) }
    }

    /// Starts the search of a thread for a shard; `thread_index` is where the
    /// thread remembers the shard that it started with the last time.
    pub fn begin_acquire(&self, thread_index: &mut Option<usize>) -> (cursor: ShardCursor)
        requires
            self.wf(),
            *old(thread_index) matches Some(last) ==> last < usize::MAX,
        ensures
            cursor@.wf(self@.count()),
            cursor@ == Cursor::starting_at(cursor@.current),
            *old(thread_index) matches Some(last) ==> cursor@.current == around(
                last as int,
                1,
                self@.count() as int,
            ),
            *final(thread_index) matches Some(start) && start == cursor@.current,
    {
        ShardCursor::begin(self.set.shards(), thread_index)
    }

    /// Searches for a shard for enqueuing or dequeuing purposes, for the rest of
    /// a round around the shards; each shard has equal weight. If the round ends
    /// without a result, the task sleeps for the time that is returned, which
    /// grows exponentially (capped at 20 ms) and has a random jitter, and goes on.
    ///
    /// A task that wants to dequeue gets no shard if the buffer is poisoned and
    /// empty.
    pub fn acquire_shard(&mut self, acquire: Acquire, cursor: &mut ShardCursor) -> (step:
        AcquireStep)
        requires
            old(self).wf(),
            old(cursor)@.wf(old(self)@.count()),
        ensures
            final(self).wf(),
            final(cursor)@.wf(old(self)@.count()),
            step matches AcquireStep::Done(Some(s)) ==> final(self)@.held_for(acquire, s as int),
            match step {
                AcquireStep::Done(found) => old(self)@.search_ends(
                    acquire,
                    false,
                    old(cursor)@,
                    found,
                    final(self)@,
                    final(cursor)@,
                ),
                AcquireStep::Sleep(ms) => {
                    &&& old(self)@.search_goes_on(
                        acquire,
                        false,
                        old(cursor)@,
                        final(cursor)@,
                    )
                    &&& final(self)@ == old(self)@
                    &&& ms <= backoff(old(cursor)@.attempt as nat)
                },
            },
    {
        self.set.acquire_shard(acquire, false, cursor)
    }

    /// Adds an item of type T to the shard that the task has taken, and releases
    /// the shard.
    pub fn enqueue(&mut self, current: Option<usize>, item: T) -> (status: EnqStatus)
        requires
            old(self).wf(),
            current matches Some(s) ==> old(self)@.held_for(Acquire::Enqueue, s as int),
        ensures
            final(self).wf(),
            match current {
                Some(s) => {
                    &&& status == EnqStatus::Success
                    &&& final(self)@ == old(self)@.store(s as int, Some(item))
                },
                None => status == EnqStatus::Poisoned && final(self)@ == old(self)@,
            },
    {
        self.set.enqueue_item(current, Some(item))
    }

    /// Retrieves the oldest item of the shard that the task has taken, and
    /// releases the shard. A task that got no shard gets no item.
    pub fn dequeue(&mut self, current: Option<usize>) -> (item: Option<T>)
        requires
            old(self).wf(),
            current matches Some(s) ==> old(self)@.held_for(Acquire::Dequeue, s as int),
        ensures
            final(self).wf(),
            match current {
                Some(s) => {
                    &&& item == old(self)@.rings[s as int].queue[0]
                    &&& final(self)@ == old(self)@.remove(s as int)
                },
                None => item is None && final(self)@ == old(self)@,
            },
    {
        self.set.dequeue(current)
    }

    /// Poisons the ring buffer: once it is empty, dequeuing tasks get no item
    /// instead of waiting for one.
    pub fn poison(&mut self)
        requires
            old(self).wf(),
        ensures
            final(self).wf(),
            final(self)@ == (Shards { poisoned: true, ..old(self)@ }),
    {
        self.set.poison()
    }

    /// If the ring buffer is [poisoned][Self::poison],
    /// this method will allow the ring buffer to be used again. Says whether it
    /// was poisoned.
    pub fn clear_poison(&mut self) -> (cleared: bool)
        requires
            old(self).wf(),
        ensures
            final(self).wf(),
            cleared == old(self)@.poisoned,
            final(self)@ == (Shards { poisoned: false, ..old(self)@ }),
    {
        self.set.clear_poison()
    }

    /// Clears the ring buffer back to an empty state.
    ///
    /// To clear only the poison, see [Self::clear_poison].
    pub fn clear(&mut self)
        requires
            old(self).wf(),
        ensures
            final(self).wf(),
            final(self)@ == old(self)@.cleared(),
    {
        self.set.clear()
    }

    /// Checks whether the ring buffer is empty or not.
    pub fn is_empty(&self) -> (empty: bool)
        requires
            self.wf(),
        ensures
            empty == self@.is_empty(),
    {
        self.set.is_empty()
    }

    /// Checks whether a shard is empty or not.
    pub fn is_shard_empty(&self, shard_ind: usize) -> (empty: bool)
        requires
            self.wf(),
            shard_ind < self@.count(),
        ensures
            empty == self@.rings[shard_ind as int].is_empty(),
    {
        self.set.is_shard_empty(shard_ind)
    }

    /// Checks whether the ring buffer is full or not.
    pub fn is_full(&self) -> (full: bool)
        requires
            self.wf(),
        ensures
            full == self@.is_full(),
    {
        self.set.is_full()
    }

    /// Checks whether a shard is full or not.
    pub fn is_shard_full(&self, shard_ind: usize) -> (full: bool)
        requires
            self.wf(),
            shard_ind < self@.count(),
        ensures
            full == self@.rings[shard_ind as int].is_full(),
    {
        self.set.is_shard_full(shard_ind)
    }

    /// Which of the indices, if any, the ring buffer does not have.
    pub fn invalid_index(&self, shard_ind: usize, item_index: Option<usize>) -> (invalid: Option<
        InvalidIndex,
    >)
        requires
            self.wf(),
        ensures
            invalid == self@.invalid_index(shard_ind as int, item_index),
    {
        self.set.invalid_index(shard_ind, item_index)
    }

    /// The slot of a shard that the next item goes to, if there is such a shard.
    pub fn next_enqueue_index_for_shard(&self, shard_ind: usize) -> (index: Option<usize>)
        requires
            self.wf(),
        ensures
            match index {
                Some(i) => shard_ind < self@.count() && i == self@.rings[shard_ind as int].tail(),
                None => shard_ind >= self@.count(),
            },
    {
        self.set.next_enqueue_index_for_shard(shard_ind)
    }

    /// The slot of a shard that the next item comes from, if there is such a
    /// shard.
    pub fn next_dequeue_index_for_shard(&self, shard_ind: usize) -> (index: Option<usize>)
        requires
            self.wf(),
        ensures
            match index {
                Some(i) => shard_ind < self@.count() && i == self@.rings[shard_ind as int].head,
                None => shard_ind >= self@.count(),
            },
    {
        self.set.next_dequeue_index_for_shard(shard_ind)
    }

    /// Returns a clone of what a slot of a shard holds, if there is such a slot.
    pub fn get_item_in_shard(&self, item_index: usize, shard_ind: usize) -> (item: Option<
        T,
    >) where T: Clone
        requires
            self.wf(),
        ensures
            if self@.invalid_index(shard_ind as int, Some(item_index)) is Some {
                item is None
            } else {
                cloned_entry(self@.rings[shard_ind as int].slot(item_index as int), item)
            },
    {
        self.set.get_item_in_shard(item_index, shard_ind)
    }

    /// Returns a clone of what all slots of a shard hold, if there is such a
    /// shard.
    pub fn rb_items_at_shard(&self, shard_ind: usize) -> (items: Option<
        Vec<Option<T>>,
    >) where T: Clone
        requires
            self.wf(),
        ensures
            match items {
                Some(copies) => shard_ind < self@.count() && cloned_entries(
                    self@.rings[shard_ind as int].slots(),
                    copies@,
                ),
                None => shard_ind >= self@.count(),
            },
    {
        self.set.rb_items_at_shard(shard_ind)
    }

    /// Returns a clone of what all slots of all shards hold.
    pub fn rb_items(&self) -> (items: Vec<Vec<Option<T>>>) where T: Clone
        requires
            self.wf(),
        ensures
            self@.cloned_as(items@),
    {
        self.set.rb_items()
    }

    /// Writes out what the ring buffer holds, with one line for each shard and
    /// each slot as `show` gives it.
    pub fn print_buffer<F: Fn(&Option<T>) -> String>(&self, show: F) -> (text: String)
        requires
            self.wf(),
            self@.showable(show),
        ensures
            exists|texts: Seq<Seq<String>>|
                #![trigger chars_of_all(texts)]
                self@.shown_by(show, texts) && text@ == shard_lines(chars_of_all(texts)),
    {
        self.set.text(&show)
    }
}

} // verus!
