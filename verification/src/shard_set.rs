//! The shards of a sharded ring buffer, and the steps that tasks take on them.
use vstd::prelude::*;
use vstd::string::StringExecFns;

use crate::cursor::{backoff, Cursor, ShardCursor};
use crate::inner_ring_buffer::InnerRingBuffer;
use crate::random::random_jitter;
use crate::ring::{cloned_entries, cloned_entry, lemma_around, Ring};
use crate::shard_laws::law_found_shard_is_held;
use crate::shards::{
    lemma_shard_capacity, lemma_total_bounds, lemma_total_update, shard_capacity, Acquire,
    InvalidIndex, Shards,
};
use crate::text::{
    bracketed, chars_of, chars_of_all, decimal_text, shard_lines, showable, shown_by,
};

verus! {

/// What became of an item that was to be enqueued.
#[derive(Debug, Clone, Copy, PartialEq, Eq, Structural)]
pub enum EnqStatus {
    Poisoned,
    Success,
}

/// What a look at one shard came to.
#[derive(Debug)]
pub enum Probe {
    /// The search is over: a shard was taken, or there is nothing to wait for.
    Done(Option<usize>),
    /// The shard was passed over; says whether it was the last of its round.
    Passed(bool),
}

/// What a stretch of searching came to.
#[derive(Debug)]
pub enum AcquireStep {
    /// The search is over: a shard was taken, or there is nothing to wait for.
    Done(Option<usize>),
    /// The round is over without a result: sleep for so many milliseconds, then
    /// go on searching.
    Sleep(u64),
}

/// Whether a shard is taken by a task, and how many entries it holds.
struct ShardJobs {
    taken: bool,
    jobs: usize,
}

/// The shards of a sharded ring buffer.
pub struct ShardSet<T> {
    capacity: usize,
    shards: usize,
    max_capacity_per_shard: usize,
    num_jobs: usize,
    shard_jobs: Vec<ShardJobs>,
    inner_rb: Vec<InnerRingBuffer<T>>,
    poisoned: bool,
}

impl<T> View for ShardSet<T> {
    type V = Shards<T>;

    closed spec fn view(&self) -> Shards<T> {
        Shards {
            per_shard: self.max_capacity_per_shard as nat,
            poisoned: self.poisoned,
            taken: Seq::new(self.shard_jobs@.len(), |s: int| self.shard_jobs@[s].taken),
            rings: Seq::new(self.inner_rb@.len(), |s: int| self.inner_rb@[s]@),
        }
    }
}

impl<T> ShardSet<T> {
    /// All counts are those of the rings.
    pub closed spec fn counted(&self) -> bool {
        &&& self.shards == self@.count()
        &&& self.capacity == self@.capacity()
        &&& self.num_jobs == self@.jobs()
        &&& self.shard_jobs@.len() == self.inner_rb@.len()
        &&& forall|s: int|
            0 <= s < self.inner_rb@.len() ==> (#[trigger] self.inner_rb@[s]).wf()
        &&& forall|s: int|
            0 <= s < self.inner_rb@.len() ==> (#[trigger] self.shard_jobs@[s]).jobs
                == self.inner_rb@[s]@.queue.len()
    }

    pub open spec fn wf(&self) -> bool {
        &&& self@.wf()
        &&& self@.count() <= usize::MAX
        &&& self@.per_shard <= usize::MAX
        &&& self@.capacity() <= usize::MAX
        &&& self.counted()
    }

    /// Makes `shards` shards with room for at least `capacity` entries in all.
    pub fn new(capacity: usize, shards: usize) -> (set: Self)
        requires
            shards > 0,
            capacity + shards - 1 <= usize::MAX,
        ensures
            set.wf(),
            set@ == Shards::<T>::empty(
                shard_capacity(capacity as nat, shards as nat),
                shards as nat,
            ),
    {
        let quotient: usize = (capacity + (shards - 1)) / shards;
        let max_capacity_per_shard: usize = if quotient < 1 {
            1
        } else {
            quotient
        };
        proof {
            lemma_shard_capacity(capacity as nat, shards as nat);
            assert(max_capacity_per_shard == shard_capacity(capacity as nat, shards as nat));
            assert(max_capacity_per_shard * shards <= usize::MAX);
        }
        let mut shard_jobs: Vec<ShardJobs> = Vec::with_capacity(shards);
        let mut inner_rb: Vec<InnerRingBuffer<T>> = Vec::with_capacity(shards);
        let mut i: usize = 0;
        while i < shards
            invariant
                i <= shards,
                shard_jobs@.len() == i,
                inner_rb@.len() == i,
                forall|s: int|
                    0 <= s < i ==> !(#[trigger] shard_jobs@[s]).taken && shard_jobs@[s].jobs == 0,
                forall|s: int|
                    0 <= s < i ==> (#[trigger] inner_rb@[s]).wf() && inner_rb@[s]@
                        == Ring::<T>::empty(max_capacity_per_shard as nat),
            decreases shards - i,
        {
            shard_jobs.push(ShardJobs { taken: false, jobs: 0 });
            inner_rb.push(InnerRingBuffer::new(max_capacity_per_shard));
            i += 1;
        }
        let set = ShardSet {
            capacity: max_capacity_per_shard * shards,
            shards,
            max_capacity_per_shard,
            num_jobs: 0,
            shard_jobs,
            inner_rb,
            poisoned: false,
        };
        proof {
            let empty = Shards::<T>::empty(max_capacity_per_shard as nat, shards as nat);
            assert(set@ =~~= empty);
            lemma_total_bounds(empty.rings, max_capacity_per_shard as nat);
        }
        set
    }

    /// The number of shards.
    pub(crate) fn shards(&self) -> (shards: usize)
        requires
            self.wf(),
        ensures
            shards == self@.count(),
    {
        self.shards
    }

    /// Checks whether the shards hold nothing.
    pub fn is_empty(&self) -> (empty: bool)
        requires
            self.wf(),
        ensures
            empty == self@.is_empty(),
    {
        self.num_jobs == 0
    }

    /// Checks whether the shards hold as many entries as they can.
    pub fn is_full(&self) -> (full: bool)
        requires
            self.wf(),
        ensures
            full == self@.is_full(),
    {
        self.num_jobs == self.capacity
    }

    /// Checks whether a shard holds nothing.
    pub fn is_shard_empty(&self, shard_ind: usize) -> (empty: bool)
        requires
            self.wf(),
            shard_ind < self@.count(),
        ensures
            empty == self@.rings[shard_ind as int].is_empty(),
    {
        self.shard_jobs[shard_ind].jobs == 0
    }

    /// Checks whether a shard holds as many entries as it can.
    pub fn is_shard_full(&self, shard_ind: usize) -> (full: bool)
        requires
            self.wf(),
            shard_ind < self@.count(),
        ensures
            full == self@.rings[shard_ind as int].is_full(),
    {
        assert(self@.rings[shard_ind as int].capacity == self.max_capacity_per_shard);
        self.shard_jobs[shard_ind].jobs == self.max_capacity_per_shard
    }

    /// Checks whether a task has taken a shard.
    pub fn is_shard_taken(&self, shard_ind: usize) -> (taken: bool)
        requires
            self.wf(),
            shard_ind < self@.count(),
        ensures
            taken == self@.taken[shard_ind as int],
    {
        self.shard_jobs[shard_ind].taken
    }

    /// Marks a shard as taken, or as free.
    pub(crate) fn mark_shard(&mut self, shard_ind: usize, taken: bool)
        requires
            old(self).wf(),
            shard_ind < old(self)@.count(),
        ensures
            final(self).wf(),
            final(self)@ == (Shards {
                taken: old(self)@.taken.update(shard_ind as int, taken),
                ..old(self)@
            }),
    {
        self.shard_jobs[shard_ind].taken = taken;
        proof {
            assert(self@.taken =~= old(self)@.taken.update(shard_ind as int, taken));
            assert(self@.rings =~= old(self)@.rings);
        }
    }

    /// Looks at the shard under the cursor, and takes it if it is free and fit
    /// for the task. While the buffer is closed every shard is passed over.
    ///
    /// A task that wants to dequeue is told to stop if the buffer is poisoned
    /// and nothing is left in it.
    pub fn probe_shard(
        &mut self,
        acquire: Acquire,
        closed: bool,
        cursor: &mut ShardCursor,
    ) -> (probe: Probe)
        requires
            old(self).wf(),
            old(cursor)@.wf(old(self)@.count()),
        ensures
            final(self).wf(),
            final(cursor)@.wf(old(self)@.count()),
            match probe {
                Probe::Done(found) => {
                    let s = old(cursor)@.current;
                    &&& old(self)@.decides(acquire, closed, s)
                    &&& found == old(self)@.verdict(acquire, s)
                    &&& final(self)@ == old(self)@.decided(acquire, s)
                    &&& final(cursor)@ == old(cursor)@
                },
                Probe::Passed(over) => {
                    &&& !old(self)@.decides(acquire, closed, old(cursor)@.current)
                    &&& final(self)@ == old(self)@
                    &&& final(cursor)@ == old(cursor)@.moved(1, old(self)@.count())
                    &&& over == (old(cursor)@.left(old(self)@.count()) == 1)
                },
            },
    {
        let current: usize = cursor.current();
        if !closed && !self.is_shard_taken(current) {
            self.mark_shard(current, true);
            let fit = match acquire {
                Acquire::Enqueue => !self.is_shard_full(current),
                Acquire::Dequeue => {
                    if self.poisoned && self.is_empty() {
                        self.mark_shard(current, false);
                        assert(self@.taken =~= old(self)@.taken);
                        return Probe::Done(None);
                    }
                    !self.is_shard_empty(current)
                },
            };
            if fit {
                return Probe::Done(Some(current));
            }
            self.mark_shard(current, false);
            assert(self@.taken =~= old(self)@.taken);
        }
        Probe::Passed(cursor.advance(self.shards))
    }

    /// Looks at one shard after the other, from the cursor on, until the search
    /// is decided or the round is over; then says how long to sleep at most.
    pub fn scan_shards(
        &mut self,
        acquire: Acquire,
        closed: bool,
        cursor: &mut ShardCursor,
    ) -> (step: AcquireStep)
        requires
            old(self).wf(),
            old(cursor)@.wf(old(self)@.count()),
        ensures
            final(self).wf(),
            final(cursor)@.wf(old(self)@.count()),
            step matches AcquireStep::Done(Some(s)) ==> final(self)@.held_for(acquire, s as int),
            match step {
                AcquireStep::Done(found) => old(self)@.search_ends(
                    acquire,
                    closed,
                    old(cursor)@,
                    found,
                    final(self)@,
                    final(cursor)@,
                ),
                AcquireStep::Sleep(ms) => {
                    &&& old(self)@.search_goes_on(
                        acquire,
                        closed,
                        old(cursor)@,
                        final(cursor)@,
                    )
                    &&& final(self)@ == old(self)@
                    &&& ms == backoff(old(cursor)@.attempt as nat)
                },
            },
    {
        let ghost m = self@;
        let ghost n = self@.count();
        let ghost start = cursor@;
        let ghost mut k: int = 0;
        proof {
            lemma_moved(start, 0, n);
        }
        loop
            invariant
                self.wf(),
                self@ == m,
                m == old(self)@,
                n == m.count(),
                start == old(cursor)@,
                start.wf(n),
                cursor@.wf(n),
                0 <= k < start.left(n),
                cursor@ == start.moved(k, n),
                cursor@.left(n) == start.left(n) - k,
                m.undecided(acquire, closed, start, k),
            decreases start.left(n) - k,
        {
            proof {
                lemma_moved(start, k, n);
                lemma_moved(start, k + 1, n);
            }
            match self.probe_shard(acquire, closed, cursor) {
                Probe::Done(found) => {
                    assert(m.decided_after(acquire, closed, start, k));
                    assert(m.search_ends(acquire, closed, start, found, self@, cursor@));
                    proof {
                        if found is Some {
                            law_found_shard_is_held(
                                m,
                                acquire,
                                closed,
                                start,
                                found->0,
                                self@,
                                cursor@,
                            );
                        }
                    }
                    return AcquireStep::Done(found);
                },
                Probe::Passed(over) => {
                    proof {
                        k = k + 1;
                    }
                    if over {
                        return AcquireStep::Sleep(cursor.back_off());
                    }
                },
            }
        }
    }

    /// Searches for a shard, as [Self::scan_shards] does, and draws at random
    /// how long to sleep once the round is over.
    pub fn acquire_shard(
        &mut self,
        acquire: Acquire,
        closed: bool,
        cursor: &mut ShardCursor,
    ) -> (step: AcquireStep)
        requires
            old(self).wf(),
            old(cursor)@.wf(old(self)@.count()),
        ensures
            final(self).wf(),
            final(cursor)@.wf(old(self)@.count()),
            step matches AcquireStep::Done(Some(s)) ==> final(self)@.held_for(acquire, s as int),
            match step {
                AcquireStep::Done(found) => old(self)@.search_ends(
                    acquire,
                    closed,
                    old(cursor)@,
                    found,
                    final(self)@,
                    final(cursor)@,
                ),
                AcquireStep::Sleep(ms) => {
                    &&& old(self)@.search_goes_on(
                        acquire,
                        closed,
                        old(cursor)@,
                        final(cursor)@,
                    )
                    &&& final(self)@ == old(self)@
                    &&& ms <= backoff(old(cursor)@.attempt as nat)
                },
            },
    {
        match self.scan_shards(acquire, closed, cursor) {
            AcquireStep::Done(found) => AcquireStep::Done(found),
            AcquireStep::Sleep(ms) => AcquireStep::Sleep(random_jitter(ms)),
        }
    }

    /// Puts an entry into the shard that the task has taken, and releases the
    /// shard. A task that found no shard learns that the buffer is poisoned.
    ///
    /// This is necessary so that the buffer can hold entries without an item.
    pub fn enqueue_item(&mut self, current: Option<usize>, item: Option<T>) -> (status: EnqStatus)
        requires
            old(self).wf(),
            current matches Some(s) ==> old(self)@.held_for(Acquire::Enqueue, s as int),
        ensures
            final(self).wf(),
            match current {
                Some(s) => {
                    &&& status == EnqStatus::Success
                    &&& final(self)@ == old(self)@.store(s as int, item)
                },
                None => status == EnqStatus::Poisoned && final(self)@ == old(self)@,
            },
    {
        let current: usize = match current {
            Some(cur) => cur,
            None => return EnqStatus::Poisoned,
        };
        let ghost m = self@;
        let ghost grown = m.rings[current as int].push(item);
        proof {
            assert(m.rings[current as int].capacity == m.per_shard);
            lemma_total_update(m.rings, current as int, grown);
            let rings = m.rings.update(current as int, grown);
            lemma_total_bounds(rings, m.per_shard);
        }
        self.inner_rb[current].put(item);
        self.num_jobs += 1;
        self.shard_jobs[current].jobs += 1;
        self.shard_jobs[current].taken = false;
        proof {
            assert(self@.rings =~= m.rings.update(current as int, grown));
            assert(self@.taken =~= m.taken.update(current as int, false));
        }
        EnqStatus::Success
    }

    /// Takes the oldest entry out of the shard that the task has taken, and
    /// releases the shard. A task that found no shard gets nothing.
    pub fn dequeue(&mut self, current: Option<usize>) -> (item: Option<T>)
        requires
            old(self).wf(),
            current matches Some(s) ==> old(self)@.held_for(Acquire::Dequeue, s as int),
        ensures
            final(self).wf(),
            match current {
                Some(s) => {
                    &&& item == old(self)@.rings[s as int].queue[0]
                    &&& final(self)@ == old(self)@.remove(s as int)
                },
                None => item is None && final(self)@ == old(self)@,
            },
    {
        let current: usize = match current {
            Some(cur) => cur,
            None => return None,
        };
        let ghost m = self@;
        let ghost shrunk = m.rings[current as int].pop();
        proof {
            lemma_total_update(m.rings, current as int, shrunk);
            assert(m.rings[current as int].wf());
        }
        let item = self.inner_rb[current].take();
        self.num_jobs -= 1;
        self.shard_jobs[current].jobs -= 1;
        self.shard_jobs[current].taken = false;
        proof {
            assert(self@.rings =~= m.rings.update(current as int, shrunk));
            assert(self@.taken =~= m.taken.update(current as int, false));
        }
        item
    }

    /// Poisons the shards.
    pub fn poison(&mut self)
        requires
            old(self).wf(),
        ensures
            final(self).wf(),
            final(self)@ == (Shards { poisoned: true, ..old(self)@ }),
    {
        self.poisoned = true;
    }

    /// Takes the poison back. Says whether the shards were poisoned.
    pub fn clear_poison(&mut self) -> (cleared: bool)
        requires
            old(self).wf(),
        ensures
            final(self).wf(),
            cleared == old(self)@.poisoned,
            final(self)@ == (Shards { poisoned: false, ..old(self)@ }),
    {
        if self.poisoned {
            self.poisoned = false;
            true
        } else {
            false
        }
    }

    /// Empties and releases every shard.
    pub fn clear(&mut self)
        requires
            old(self).wf(),
        ensures
            final(self).wf(),
            final(self)@ == old(self)@.cleared(),
    {
        let ghost m = self@;
        assert forall|s: int| 0 <= s < m.count() implies (#[trigger] self.inner_rb@[s])@.capacity
            == m.per_shard by {
            assert(m.rings[s] == self.inner_rb@[s]@);
        }
        self.num_jobs = 0;
        let mut i: usize = 0;
        while i < self.shards
            invariant
                i <= self.shards,
                self.shards == m.count(),
                m == old(self)@,
                m.wf(),
                self.capacity == m.capacity(),
                self.max_capacity_per_shard == m.per_shard,
                self.poisoned == m.poisoned,
                self.num_jobs == 0,
                self.inner_rb@.len() == m.count(),
                self.shard_jobs@.len() == m.count(),
                forall|s: int|
                    0 <= s < m.count() ==> (#[trigger] self.inner_rb@[s]).wf()
                        && self.inner_rb@[s]@.capacity == m.per_shard,
                forall|s: int|
                    0 <= s < i ==> (#[trigger] self.inner_rb@[s])@ == Ring::<T>::empty(m.per_shard),
                forall|s: int|
                    0 <= s < i ==> !(#[trigger] self.shard_jobs@[s]).taken
                        && self.shard_jobs@[s].jobs == 0,
            decreases self.shards - i,
        {
            self.inner_rb[i].clear();
            self.shard_jobs[i].jobs = 0;
            self.shard_jobs[i].taken = false;
            i += 1;
        }
        proof {
            let cleared = m.cleared();
            assert(self@.rings =~= cleared.rings);
            assert(self@.taken =~= cleared.taken);
            lemma_total_bounds(cleared.rings, m.per_shard);
        }
    }

    /// Releases every shard.
    pub(crate) fn release_all(&mut self)
        requires
            old(self).wf(),
        ensures
            final(self).wf(),
            final(self)@ == old(self)@.released(),
    {
        let mut i: usize = 0;
        while i < self.shards
            invariant
                i <= self.shards,
                self.wf(),
                self@.count() == old(self)@.count(),
                self@ == (Shards { taken: self@.taken, ..old(self)@ }),
                forall|s: int| 0 <= s < i ==> !#[trigger] self@.taken[s],
            decreases self.shards - i,
        {
            self.mark_shard(i, false);
            i += 1;
        }
        assert(self@.taken =~= old(self)@.released().taken);
    }

    /// Which of the indices, if any, the buffer does not have.
    pub fn invalid_index(&self, shard_ind: usize, item_index: Option<usize>) -> (invalid: Option<
        InvalidIndex,
    >)
        requires
            self.wf(),
        ensures
            invalid == self@.invalid_index(shard_ind as int, item_index),
    {
        if shard_ind >= self.shards {
            return Some(InvalidIndex::Shard);
        }
        match item_index {
            Some(index) if index >= self.max_capacity_per_shard => Some(InvalidIndex::Item),
            _ => None,
        }
    }

    /// The slot of a shard that the next item goes to.
    pub fn next_enqueue_index_for_shard(&self, shard_ind: usize) -> (index: Option<usize>)
        requires
            self.wf(),
        ensures
            match index {
                Some(i) => shard_ind < self@.count() && i == self@.rings[shard_ind as int].tail(),
                None => shard_ind >= self@.count(),
            },
    {
        if self.invalid_index(shard_ind, None).is_some() {
            return None;
        }
        Some(self.inner_rb[shard_ind].enqueue_index())
    }

    /// The slot of a shard that the next item comes from.
    pub fn next_dequeue_index_for_shard(&self, shard_ind: usize) -> (index: Option<usize>)
        requires
            self.wf(),
        ensures
            match index {
                Some(i) => shard_ind < self@.count() && i == self@.rings[shard_ind as int].head,
                None => shard_ind >= self@.count(),
            },
    {
        if self.invalid_index(shard_ind, None).is_some() {
            return None;
        }
        Some(self.inner_rb[shard_ind].dequeue_index())
    }

    /// Returns a clone of what a slot of a shard holds.
    pub fn get_item_in_shard(&self, item_index: usize, shard_ind: usize) -> (item: Option<
        T,
    >) where T: Clone
        requires
            self.wf(),
        ensures
            if self@.invalid_index(shard_ind as int, Some(item_index)) is Some {
                item is None
            } else {
                cloned_entry(self@.rings[shard_ind as int].slot(item_index as int), item)
            },
    {
        if self.invalid_index(shard_ind, Some(item_index)).is_some() {
            return None;
        }
        assert(self@.rings[shard_ind as int].capacity == self.max_capacity_per_shard);
        self.inner_rb[shard_ind].get(item_index)
    }

    /// Returns a clone of what all slots of a shard hold.
    pub fn rb_items_at_shard(&self, shard_ind: usize) -> (items: Option<
        Vec<Option<T>>,
    >) where T: Clone
        requires
            self.wf(),
        ensures
            match items {
                Some(copies) => shard_ind < self@.count() && cloned_entries(
                    self@.rings[shard_ind as int].slots(),
                    copies@,
                ),
                None => shard_ind >= self@.count(),
            },
    {
        if self.invalid_index(shard_ind, None).is_some() {
            return None;
        }
        Some(self.inner_rb[shard_ind].items())
    }

    /// Returns a clone of what all slots of all shards hold.
    pub fn rb_items(&self) -> (items: Vec<Vec<Option<T>>>) where T: Clone
        requires
            self.wf(),
        ensures
            self@.cloned_as(items@),
    {
        let mut items: Vec<Vec<Option<T>>> = Vec::new();
        let mut i: usize = 0;
        while i < self.shards
            invariant
                self.wf(),
                i <= self.shards,
                items@.len() == i,
                forall|s: int|
                    0 <= s < i ==> cloned_entries(self@.rings[s].slots(), (#[trigger] items@[s])@),
            decreases self.shards - i,
        {
            items.push(self.inner_rb[i].items());
            i += 1;
        }
        items
    }

    /// Writes out what all slots of all shards hold, each as `show` gives it,
    /// with one line for each shard.
    pub fn text<F: Fn(&Option<T>) -> String>(&self, show: &F) -> (text: String)
        requires
            self.wf(),
            self@.showable(*show),
        ensures
            exists|texts: Seq<Seq<String>>|
                #![trigger chars_of_all(texts)]
                self@.shown_by(*show, texts) && text@ == shard_lines(chars_of_all(texts)),
    {
        proof {
            reveal_strlit("Shard ");
            reveal_strlit(": ");
            reveal_strlit("\n");
        }
        let mut text = String::new();
        let ghost mut texts: Seq<Seq<String>> = Seq::empty();
        let mut i: usize = 0;
        while i < self.shards
            invariant
                self.wf(),
                self@.showable(*show),
                i <= self.shards,
                texts.len() == i,
                forall|s: int|
                    0 <= s < i ==> shown_by(*show, self@.rings[s].slots(), #[trigger] texts[s]),
                text@ == shard_lines(chars_of_all(texts)),
                "Shard "@ =~= seq!['S', 'h', 'a', 'r', 'd', ' '],
                ": "@ =~= seq![':', ' '],
                "\n"@ =~= seq!['\n'],
            decreases self.shards - i,
        {
            let number = decimal_text(i);
            assert(self@.rings[i as int] == self.inner_rb@[i as int]@);
            let line = self.inner_rb[i].text(show);
            text.append("Shard ");
            text.append(number.as_str());
            text.append(": ");
            text.append(line.as_str());
            text.append("\n");
            proof {
                let shown: Seq<String> = choose|shown: Seq<String>|
                    #![trigger chars_of(shown)]
                    shown_by(*show, self@.rings[i as int].slots(), shown) && line@ == bracketed(
                        chars_of(shown),
                    );
                let grown = texts.push(shown);
                assert(chars_of_all(grown).drop_last() =~= chars_of_all(texts));
                assert(text@ =~= shard_lines(chars_of_all(grown)));
                texts = grown;
            }
            i += 1;
        }
        text
    }
}

/// The cursor moves on step by step, and a round is over once all of its steps
/// have been taken.
proof fn lemma_moved(cursor: Cursor, steps: int, shards: nat)
    requires
        cursor.wf(shards),
        0 <= steps <= cursor.left(shards),
    ensures
        cursor.moved(0, shards) == cursor,
        steps > 0 ==> cursor.moved(steps - 1, shards).moved(1, shards) == cursor.moved(
            steps,
            shards,
        ),
        steps < cursor.left(shards) ==> cursor.moved(steps, shards).left(shards) == cursor.left(
            shards,
        ) - steps,
        steps == cursor.left(shards) ==> cursor.moved(steps, shards).spins == 0,
{
    let n = shards as int;
    lemma_around(cursor.current, 0, n);
    lemma_around(cursor.spins, 0, n);
    lemma_around(cursor.spins, steps, n);
    if steps > 0 {
        vstd::arithmetic::div_mod::lemma_add_mod_noop_right(1, cursor.current + steps - 1, n);
        vstd::arithmetic::div_mod::lemma_add_mod_noop_right(1, cursor.spins + steps - 1, n);
    }
}

} // verus!
