//! A sharded ring buffer without a lock.
//!
//! Each shard has a flag that says whether a task has taken it. Enqueuing and
//! dequeuing tasks take one shard at a time; the steps of several tasks may come
//! in any order. A task that needs all shards raises the global flag, which
//! keeps others from taking shards, and then takes one shard after the other as
//! they become free. A step that has to wait for another task says that the
//! buffer is busy: the task yields and tries again.
use vstd::prelude::*;

use crate::cursor::{backoff, Cursor, ShardCursor};
use crate::ring::{around, cloned_entries, cloned_entry};
pub use crate::shard_set::EnqStatus;
use crate::shard_set::{AcquireStep, ShardSet};
use crate::shards::{shard_capacity, Acquire, InvalidIndex, Shards};
use crate::sweep::{first_taken, LockFree, Progress};
use crate::text::{chars_of_all, shard_lines};

verus! {

/// A sharded ring (circular) buffer for a *multi-threaded environment*.
/// See the [Wikipedia article](https://en.wikipedia.org/wiki/Circular_buffer) for more info.
pub struct LFShardedMultiThreadedRingBuffer<T> {
    set: ShardSet<T>,
    global_flag: bool,
}

/// What an attempt came to that may have to wait for other tasks.
#[derive(Debug, PartialEq, Eq)]
pub enum Attempt<R> {
    /// Another task is at work: yield, then try again.
    Busy,
    /// The attempt came to this.
    Ready(R),
}

/// How far a task has got that takes all shards of a buffer.
#[derive(Debug)]
pub struct Sweep {
    flagged: bool,
    held: usize,
}

impl View for Sweep {
    type V = Progress;

    closed spec fn view(&self) -> Progress {
        Progress { flagged: self.flagged, held: self.held as nat }
    }
}

impl Sweep {
    /// A task that has not begun to take shards.
    pub fn new() -> (sweep: Self)
        ensures
            sweep@ == Progress::none(),
    {
        Sweep { flagged: false, held: 0 }
    }
}

impl<T> View for LFShardedMultiThreadedRingBuffer<T> {
    type V = LockFree<T>;

    closed spec fn view(&self) -> LockFree<T> {
        LockFree { shards: self.set@, global_flag: self.global_flag }
    }
}

impl<T> LFShardedMultiThreadedRingBuffer<T> {
    /// The shards are counted right.
    pub closed spec fn counted(&self) -> bool {
        self.set.wf()
    }

    pub open spec fn wf(&self) -> bool {
        &&& self@.shards.wf()
        &&& self@.shards.capacity() <= usize::MAX
        &&& self@.shards.count() <= usize::MAX
        &&& self.counted()
    }

    /// Instantiates the LFShardedMultiThreadedRingBuffer.
    ///
    /// Note: The capacity of this buffer will always be rounded up to
    /// the next positive integer that is divisible by the provided shards.
    /// The provided shard value can only be a *positive* integer.
    pub fn new(capacity: usize, shards: usize) -> (rb: Self)
        requires
            shards > 0,
            capacity + shards - 1 <= usize::MAX,
        ensures
            rb.wf(),
            rb@ == LockFree::<T>::empty(
                shard_capacity(capacity as nat, shards as nat),
                shards as nat,
            ),
    {
        LFShardedMultiThreadedRingBuffer {
            set: ShardSet::new(capacity, shards),
            global_flag: false,
        }
    }

    /// Starts the search of a thread for a shard; `thread_index` is where the
    /// thread remembers the shard that it started with the last time.
    pub fn begin_acquire(&self, thread_index: &mut Option<usize>) -> (cursor: ShardCursor)
        requires
            self.wf(),
            *old(thread_index) matches Some(last) ==> last < usize::MAX,
        ensures
            cursor@.wf(self@.shards.count()),
            cursor@ == Cursor::starting_at(cursor@.current),
            *old(thread_index) matches Some(last) ==> cursor@.current == around(
                last as int,
                1,
                self@.shards.count() as int,
            ),
            *final(thread_index) matches Some(start) && start == cursor@.current,
    {
        ShardCursor::begin(self.set.shards(), thread_index)
    }

    /// Searches for a shard for enqueuing or dequeuing purposes, for the rest of
    /// a round around the shards; each shard has equal weight. If the round ends
    /// without a result, the task sleeps for the time that is returned, which
    /// grows exponentially (capped at 20 ms) and has a random jitter, and goes on.
    ///
    /// A task that wants to dequeue gets no shard if the buffer is poisoned and
    /// empty. While the global flag is raised no task gets a result.
    pub fn acquire_shard(&mut self, acquire: Acquire, cursor: &mut ShardCursor) -> (step:
        AcquireStep)
        requires
            old(self).wf(),
            old(cursor)@.wf(old(self)@.shards.count()),
        ensures
            final(self).wf(),
            final(self)@.global_flag == old(self)@.global_flag,
            final(cursor)@.wf(old(self)@.shards.count()),
            step matches AcquireStep::Done(Some(s)) ==> final(self)@.shards.held_for(
                acquire,
                s as int,
            ),
            match step {
                AcquireStep::Done(found) => old(self)@.shards.search_ends(
                    acquire,
                    old(self)@.global_flag,
                    old(cursor)@,
                    found,
                    final(self)@.shards,
                    final(cursor)@,
                ),
                AcquireStep::Sleep(ms) => {
                    &&& old(self)@.shards.search_goes_on(
                        acquire,
                        old(self)@.global_flag,
                        old(cursor)@,
                        final(cursor)@,
                    )
                    &&& final(self)@.shards == old(self)@.shards
                    &&& ms <= backoff(old(cursor)@.attempt as nat)
                },
            },
    {
        self.set.acquire_shard(acquire, self.global_flag, cursor)
    }

    /// Adds an item of type T to the shard that the task has taken, and releases
    /// the shard.
    pub fn enqueue(&mut self, current: Option<usize>, item: T) -> (status: EnqStatus)
        requires
            old(self).wf(),
            current matches Some(s) ==> old(self)@.shards.held_for(Acquire::Enqueue, s as int),
        ensures
            final(self).wf(),
            final(self)@.global_flag == old(self)@.global_flag,
            match current {
                Some(s) => {
                    &&& status == EnqStatus::Success
                    &&& final(self)@.shards == old(self)@.shards.store(s as int, Some(item))
                },
                None => status == EnqStatus::Poisoned && final(self)@.shards == old(self)@.shards,
            },
    {
        self.set.enqueue_item(current, Some(item))
    }

    /// Retrieves the oldest item of the shard that the task has taken, and
    /// releases the shard. A task that got no shard gets no item.
    pub fn dequeue(&mut self, current: Option<usize>) -> (item: Option<T>)
        requires
            old(self).wf(),
            current matches Some(s) ==> old(self)@.shards.held_for(Acquire::Dequeue, s as int),
        ensures
            final(self).wf(),
            final(self)@.global_flag == old(self)@.global_flag,
            match current {
                Some(s) => {
                    &&& item == old(self)@.shards.rings[s as int].queue[0]
                    &&& final(self)@.shards == old(self)@.shards.remove(s as int)
                },
                None => item is None && final(self)@.shards == old(self)@.shards,
            },
    {
        self.set.dequeue(current)
    }

    /// Poisons the ring buffer: once it is empty, dequeuing tasks get no item
    /// instead of waiting for one.
    pub fn poison(&mut self)
        requires
            old(self).wf(),
        ensures
            final(self).wf(),
            final(self)@.global_flag == old(self)@.global_flag,
            final(self)@.shards == (Shards { poisoned: true, ..old(self)@.shards }),
    {
        self.set.poison()
    }

    /// If the ring buffer is [poisoned][Self::poison],
    /// this method will allow the ring buffer to be used again. Says whether it
    /// was poisoned.
    pub fn clear_poison(&mut self) -> (cleared: bool)
        requires
            old(self).wf(),
        ensures
            final(self).wf(),
            final(self)@.global_flag == old(self)@.global_flag,
            cleared == old(self)@.shards.poisoned,
            final(self)@.shards == (Shards { poisoned: false, ..old(self)@.shards }),
    {
        self.set.clear_poison()
    }

    /// Raises the global flag, unless another task has raised it, and takes
    /// shards from the first one that it has not taken yet up to the first one
    /// that another task has taken. Says whether the task holds all shards.
    fn take_all(&mut self, sweep: &mut Sweep) -> (done: bool)
        requires
            old(self).wf(),
            old(self)@.under_way(old(sweep)@),
        ensures
            final(self).wf(),
            final(self)@ == old(self)@.swept(old(sweep)@),
            final(sweep)@ == old(self)@.reach(old(sweep)@),
            final(self)@.under_way(final(sweep)@),
            done == old(self)@.sweeps_all(old(sweep)@),
    {
        if !sweep.flagged {
            if self.global_flag {
                return false;
            }
            self.global_flag = true;
            sweep.flagged = true;
        }
        let ghost m = old(self)@.shards;
        let ghost from = old(sweep)@.held as int;
        let shards: usize = self.set.shards();
        assert(self@.shards.taken =~= Seq::new(
            m.count(),
            |s: int| from <= s < from || m.taken[s],
        ));
        while sweep.held < shards && !self.set.is_shard_taken(sweep.held)
            invariant
                self.set.wf(),
                self.global_flag,
                sweep.flagged,
                shards == m.count(),
                m.taken.len() == m.count(),
                from <= sweep.held <= m.count(),
                first_taken(m.taken, from) == first_taken(m.taken, sweep.held as int),
                self@.shards == (Shards {
                    taken: Seq::new(
                        m.count(),
                        |s: int| from <= s < sweep.held || m.taken[s],
                    ),
                    ..m
                }),
            decreases shards - sweep.held,
        {
            assert(!m.taken[sweep.held as int]);
            self.set.mark_shard(sweep.held, true);
            sweep.held += 1;
            assert(self@.shards.taken =~= Seq::new(
                m.count(),
                |s: int| from <= s < sweep.held || m.taken[s],
            ));
        }
        sweep.held == shards
    }

    /// Clears the ring buffer back to an empty state, once the task has got hold
    /// of all shards.
    ///
    /// To clear only the poison, see [Self::clear_poison].
    pub fn clear(&mut self, sweep: &mut Sweep) -> (attempt: Attempt<()>)
        requires
            old(self).wf(),
            old(self)@.under_way(old(sweep)@),
        ensures
            final(self).wf(),
            final(self)@.under_way(final(sweep)@),
            match attempt {
                Attempt::Busy => {
                    &&& !old(self)@.sweeps_all(old(sweep)@)
                    &&& final(self)@ == old(self)@.swept(old(sweep)@)
                    &&& final(sweep)@ == old(self)@.reach(old(sweep)@)
                },
                Attempt::Ready(_) => {
                    &&& old(self)@.sweeps_all(old(sweep)@)
                    &&& final(self)@ == old(self)@.cleared()
                    &&& final(sweep)@ == Progress::none()
                },
            },
    {
        if !self.take_all(sweep) {
            return Attempt::Busy;
        }
        self.set.clear();
        self.global_flag = false;
        *sweep = Sweep::new();
        Attempt::Ready(())
    }

    /// Checks whether the ring buffer is empty or not.
    pub fn is_empty(&self) -> (empty: bool)
        requires
            self.wf(),
        ensures
            empty == self@.shards.is_empty(),
    {
        self.set.is_empty()
    }

    /// Checks whether a shard is empty or not.
    pub fn is_shard_empty(&self, shard_ind: usize) -> (empty: bool)
        requires
            self.wf(),
            shard_ind < self@.shards.count(),
        ensures
            empty == self@.shards.rings[shard_ind as int].is_empty(),
    {
        self.set.is_shard_empty(shard_ind)
    }

    /// Checks whether the ring buffer is full or not.
    pub fn is_full(&self) -> (full: bool)
        requires
            self.wf(),
        ensures
            full == self@.shards.is_full(),
    {
        self.set.is_full()
    }

    /// Checks whether a shard is full or not.
    pub fn is_shard_full(&self, shard_ind: usize) -> (full: bool)
        requires
            self.wf(),
            shard_ind < self@.shards.count(),
        ensures
            full == self@.shards.rings[shard_ind as int].is_full(),
    {
        self.set.is_shard_full(shard_ind)
    }

    /// Which of the indices, if any, the ring buffer does not have.
    pub fn invalid_index(&self, shard_ind: usize, item_index: Option<usize>) -> (invalid: Option<
        InvalidIndex,
    >)
        requires
            self.wf(),
        ensures
            invalid == self@.shards.invalid_index(shard_ind as int, item_index),
    {
        self.set.invalid_index(shard_ind, item_index)
    }

    /// Whether a task has taken a shard; a shard that does not exist is free.
    fn shard_busy(&self, shard_ind: usize) -> (busy: bool)
        requires
            self.wf(),
        ensures
            busy == (shard_ind < self@.shards.count() && self@.shards.taken[shard_ind as int]),
    {
        shard_ind < self.set.shards() && self.set.is_shard_taken(shard_ind)
    }

    /// The slot of a shard that the next item goes to, if there is such a shard.
    pub fn next_enqueue_index_for_shard(&self, shard_ind: usize) -> (attempt: Attempt<
        Option<usize>,
    >)
        requires
            self.wf(),
        ensures
            match attempt {
                Attempt::Busy => shard_ind < self@.shards.count()
                    && self@.shards.taken[shard_ind as int],
                Attempt::Ready(Some(i)) => {
                    &&& shard_ind < self@.shards.count()
                    &&& !self@.shards.taken[shard_ind as int]
                    &&& i == self@.shards.rings[shard_ind as int].tail()
                },
                Attempt::Ready(None) => shard_ind >= self@.shards.count(),
            },
    {
        if self.shard_busy(shard_ind) {
            return Attempt::Busy;
        }
        Attempt::Ready(self.set.next_enqueue_index_for_shard(shard_ind))
    }

    /// The slot of a shard that the next item comes from, if there is such a
    /// shard.
    pub fn next_dequeue_index_for_shard(&self, shard_ind: usize) -> (attempt: Attempt<
        Option<usize>,
    >)
        requires
            self.wf(),
        ensures
            match attempt {
                Attempt::Busy => shard_ind < self@.shards.count()
                    && self@.shards.taken[shard_ind as int],
                Attempt::Ready(Some(i)) => {
                    &&& shard_ind < self@.shards.count()
                    &&& !self@.shards.taken[shard_ind as int]
                    &&& i == self@.shards.rings[shard_ind as int].head
                },
                Attempt::Ready(None) => shard_ind >= self@.shards.count(),
            },
    {
        if self.shard_busy(shard_ind) {
            return Attempt::Busy;
        }
        Attempt::Ready(self.set.next_dequeue_index_for_shard(shard_ind))
    }

    /// Returns a clone of what a slot of a shard holds, if there is such a slot.
    pub fn get_item_in_shard(&self, item_index: usize, shard_ind: usize) -> (attempt: Attempt<
        Option<T>,
    >) where T: Clone
        requires
            self.wf(),
        ensures
            ({
                let m = self@.shards;
                let invalid = m.invalid_index(shard_ind as int, Some(item_index)) is Some;
                match attempt {
                    Attempt::Busy => !invalid && m.taken[shard_ind as int],
                    Attempt::Ready(item) => if invalid {
                        item is None
                    } else {
                        &&& !m.taken[shard_ind as int]
                        &&& cloned_entry(m.rings[shard_ind as int].slot(item_index as int), item)
                    },
                }
            }),
    {
        if self.invalid_index(shard_ind, Some(item_index)).is_some() {
            return Attempt::Ready(None);
        }
        if self.shard_busy(shard_ind) {
            return Attempt::Busy;
        }
        Attempt::Ready(self.set.get_item_in_shard(item_index, shard_ind))
    }

    /// Returns a clone of what all slots of a shard hold, if there is such a
    /// shard.
    pub fn rb_items_at_shard(&self, shard_ind: usize) -> (attempt: Attempt<
        Option<Vec<Option<T>>>,
    >) where T: Clone
        requires
            self.wf(),
        ensures
            match attempt {
                Attempt::Busy => shard_ind < self@.shards.count()
                    && self@.shards.taken[shard_ind as int],
                Attempt::Ready(Some(copies)) => {
                    &&& shard_ind < self@.shards.count()
                    &&& !self@.shards.taken[shard_ind as int]
                    &&& cloned_entries(self@.shards.rings[shard_ind as int].slots(), copies@)
                },
                Attempt::Ready(None) => shard_ind >= self@.shards.count(),
            },
    {
        if self.shard_busy(shard_ind) {
            return Attempt::Busy;
        }
        Attempt::Ready(self.set.rb_items_at_shard(shard_ind))
    }

    /// Returns a clone of what all slots of all shards hold, once the task has
    /// got hold of all shards.
    pub fn rb_items(&mut self, sweep: &mut Sweep) -> (attempt: Attempt<
        Vec<Vec<Option<T>>>,
    >) where T: Clone
        requires
            old(self).wf(),
            old(self)@.under_way(old(sweep)@),
        ensures
            final(self).wf(),
            final(self)@.under_way(final(sweep)@),
            match attempt {
                Attempt::Busy => {
                    &&& !old(self)@.sweeps_all(old(sweep)@)
                    &&& final(self)@ == old(self)@.swept(old(sweep)@)
                    &&& final(sweep)@ == old(self)@.reach(old(sweep)@)
                },
                Attempt::Ready(items) => {
                    &&& old(self)@.sweeps_all(old(sweep)@)
                    &&& old(self)@.shards.cloned_as(items@)
                    &&& final(self)@ == old(self)@.reopened()
                    &&& final(sweep)@ == Progress::none()
                },
            },
    {
        if !self.take_all(sweep) {
            return Attempt::Busy;
        }
        let items = self.set.rb_items();
        self.set.release_all();
        self.global_flag = false;
        *sweep = Sweep::new();
        Attempt::Ready(items)
    }

    /// Writes out what the ring buffer holds, once the task has got hold of all
    /// shards, with one line for each shard and each slot as `show` gives it.
    pub fn print_buffer<F: Fn(&Option<T>) -> String>(
        &mut self,
        sweep: &mut Sweep,
        show: F,
    ) -> (attempt: Attempt<String>)
        requires
            old(self).wf(),
            old(self)@.under_way(old(sweep)@),
            old(self)@.shards.showable(show),
        ensures
            final(self).wf(),
            final(self)@.under_way(final(sweep)@),
            match attempt {
                Attempt::Busy => {
                    &&& !old(self)@.sweeps_all(old(sweep)@)
                    &&& final(self)@ == old(self)@.swept(old(sweep)@)
                    &&& final(sweep)@ == old(self)@.reach(old(sweep)@)
                },
                Attempt::Ready(text) => {
                    &&& old(self)@.sweeps_all(old(sweep)@)
                    &&& exists|texts: Seq<Seq<String>>|
                        #![trigger chars_of_all(texts)]
                        old(self)@.shards.shown_by(show, texts) && text@ == shard_lines(
                            chars_of_all(texts),
                        )
                    &&& final(self)@ == old(self)@.reopened()
                    &&& final(sweep)@ == Progress::none()
                },
            },
    {
        if !self.take_all(sweep) {
            return Attempt::Busy;
        }
        let text = self.set.text(&show);
        self.set.release_all();
        self.global_flag = false;
        *sweep = Sweep::new();
        Attempt::Ready(text)
    }
}

} // verus!
