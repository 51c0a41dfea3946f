//! The mathematical model of a ring buffer that is split into shards.
use vstd::prelude::*;

use crate::cursor::Cursor;
use crate::ring::{around, cloned_entries, Ring};
use crate::text::{showable, shown_by};

verus! {

/// What a task wants to do with the shard that it looks for.
#[derive(Debug, Clone, Copy, PartialEq, Eq, Structural)]
pub enum Acquire {
    Enqueue,
    Dequeue,
}

/// Which index a call was given that the buffer does not have.
#[derive(Debug, Clone, Copy, PartialEq, Eq, Structural)]
pub enum InvalidIndex {
    Shard,
    Item,
}

impl InvalidIndex {
    /// Says in words which index is invalid.
    pub fn message(&self) -> (text: &'static str)
        ensures
            text@ == match *self {
                InvalidIndex::Shard => "Invalid shard index"@,
                InvalidIndex::Item => "Invalid item index"@,
            },
    {
        match self {
            InvalidIndex::Shard => "Invalid shard index",
            InvalidIndex::Item => "Invalid item index",
        }
    }
}

/// A buffer of several rings, the shards, each of `per_shard` slots.
///
/// A task works on a shard only while the shard is `taken` by that task.
#[verifier::ext_equal]
pub struct Shards<T> {
    pub per_shard: nat,
    pub poisoned: bool,
    pub taken: Seq<bool>,
    pub rings: Seq<Ring<T>>,
}

/// How many entries all the rings hold together.
pub open spec fn total<T>(rings: Seq<Ring<T>>) -> nat
    decreases rings.len(),
{
    if rings.len() == 0 {
        0
    } else {
        total(rings.drop_last()) + rings.last().queue.len()
    }
}

/// How many slots each of `shards` shards needs for `capacity` slots in all: the
/// quotient, rounded up, but at least one.
pub open spec fn shard_capacity(capacity: nat, shards: nat) -> nat {
    let quotient = (capacity + shards - 1) / shards as int;
    if quotient < 1 {
        1
    } else {
        quotient as nat
    }
}

impl<T> Shards<T> {
    /// Shards that hold nothing and that nobody has taken.
    pub open spec fn empty(per_shard: nat, count: nat) -> Self {
        Shards {
            per_shard,
            poisoned: false,
            taken: Seq::new(count, |s: int| false),
            rings: Seq::new(count, |s: int| Ring::empty(per_shard)),
        }
    }

    /// There is a shard, every shard has a slot, and every shard is a ring of
    /// the same size.
    pub open spec fn wf(self) -> bool {
        &&& self.rings.len() > 0
        &&& self.taken.len() == self.rings.len()
        &&& self.per_shard > 0
        &&& forall|s: int|
            0 <= s < self.rings.len() ==> (#[trigger] self.rings[s]).wf() && self.rings[s].capacity
                == self.per_shard
    }

    /// The number of shards.
    pub open spec fn count(self) -> nat {
        self.rings.len()
    }

    /// How many entries fit into all shards together.
    pub open spec fn capacity(self) -> nat {
        self.per_shard * self.count()
    }

    /// How many entries all shards hold together.
    pub open spec fn jobs(self) -> nat {
        total(self.rings)
    }

    pub open spec fn is_empty(self) -> bool {
        self.jobs() == 0
    }

    pub open spec fn is_full(self) -> bool {
        self.jobs() == self.capacity()
    }

    /// The buffer is poisoned and nothing is left in it.
    pub open spec fn drained(self) -> bool {
        self.poisoned && self.is_empty()
    }

    /// Shard `s` has room for an entry, or holds one, as the task needs it.
    pub open spec fn admits(self, acquire: Acquire, s: int) -> bool {
        match acquire {
            Acquire::Enqueue => !self.rings[s].is_full(),
            Acquire::Dequeue => !self.rings[s].is_empty(),
        }
    }

    /// A task that wants to dequeue ends its search with nothing.
    pub open spec fn stops(self, acquire: Acquire) -> bool {
        acquire is Dequeue && self.drained()
    }

    /// A look at shard `s` ends the search of a task: the shard is free and
    /// either fit for the task or proof that there is nothing to wait for. While
    /// the buffer is closed no look ends a search.
    pub open spec fn decides(self, acquire: Acquire, closed: bool, s: int) -> bool {
        &&& !closed
        &&& !self.taken[s]
        &&& self.stops(acquire) || self.admits(acquire, s)
    }

    /// What a search ends with that is decided at shard `s`.
    pub open spec fn verdict(self, acquire: Acquire, s: int) -> Option<usize> {
        if self.stops(acquire) {
            None
        } else {
            Some(s as usize)
        }
    }

    /// The shards after a search has been decided at shard `s`.
    pub open spec fn decided(self, acquire: Acquire, s: int) -> Self {
        if self.stops(acquire) {
            self
        } else {
            self.take(s)
        }
    }

    /// None of the first `steps` shards that the cursor comes to ends a search.
    pub open spec fn undecided(
        self,
        acquire: Acquire,
        closed: bool,
        cursor: Cursor,
        steps: int,
    ) -> bool {
        forall|k: int|
            0 <= k < steps ==> !#[trigger] self.decides(
                acquire,
                closed,
                around(cursor.current, k, self.count() as int),
            )
    }

    /// The search is decided at the shard `steps` places past the cursor, the
    /// first one of this round that ends it.
    pub open spec fn decided_after(
        self,
        acquire: Acquire,
        closed: bool,
        cursor: Cursor,
        steps: int,
    ) -> bool {
        &&& 0 <= steps < cursor.left(self.count())
        &&& self.undecided(acquire, closed, cursor, steps)
        &&& self.decides(acquire, closed, around(cursor.current, steps, self.count() as int))
    }

    /// The search of a task ends within this round: `found` is what it ends with
    /// at the first shard that ends it, `after` are the shards then, and
    /// `stopped` is the cursor then.
    pub open spec fn search_ends(
        self,
        acquire: Acquire,
        closed: bool,
        cursor: Cursor,
        found: Option<usize>,
        after: Self,
        stopped: Cursor,
    ) -> bool {
        exists|steps: int|
            {
                let s = around(cursor.current, steps, self.count() as int);
                &&& #[trigger] self.decided_after(acquire, closed, cursor, steps)
                &&& found == self.verdict(acquire, s)
                &&& after == self.decided(acquire, s)
                &&& stopped == cursor.moved(steps, self.count())
            }
    }

    /// No shard that is left of this round ends the search of a task: `stopped`
    /// is the cursor once the round is over.
    pub open spec fn search_goes_on(
        self,
        acquire: Acquire,
        closed: bool,
        cursor: Cursor,
        stopped: Cursor,
    ) -> bool {
        let left = cursor.left(self.count());
        &&& self.undecided(acquire, closed, cursor, left)
        &&& stopped == cursor.moved(left, self.count()).retried()
    }

    /// A task has taken shard `s`, and the shard is fit for it.
    pub open spec fn held_for(self, acquire: Acquire, s: int) -> bool {
        &&& 0 <= s < self.count()
        &&& self.taken[s]
        &&& self.admits(acquire, s)
    }

    /// The shards after shard `s` has been taken.
    pub open spec fn take(self, s: int) -> Self {
        Shards { taken: self.taken.update(s, true), ..self }
    }

    /// The shards after an entry has been put into shard `s` and the shard has
    /// been released.
    pub open spec fn store(self, s: int, entry: Option<T>) -> Self {
        Shards {
            taken: self.taken.update(s, false),
            rings: self.rings.update(s, self.rings[s].push(entry)),
            ..self
        }
    }

    /// The shards after the oldest entry has been taken out of shard `s` and the
    /// shard has been released.
    pub open spec fn remove(self, s: int) -> Self {
        Shards {
            taken: self.taken.update(s, false),
            rings: self.rings.update(s, self.rings[s].pop()),
            ..self
        }
    }

    /// The shards after all of them have been released.
    pub open spec fn released(self) -> Self {
        Shards { taken: Seq::new(self.count(), |s: int| false), ..self }
    }

    /// The shards after all of them have been emptied and released.
    pub open spec fn cleared(self) -> Self {
        Shards { poisoned: self.poisoned, ..Shards::empty(self.per_shard, self.count()) }
    }

    /// Which of the indices, if any, the buffer does not have; that of the shard
    /// comes first.
    pub open spec fn invalid_index(self, shard: int, item: Option<usize>) -> Option<InvalidIndex> {
        if shard >= self.count() {
            Some(InvalidIndex::Shard)
        } else if item matches Some(i) && i >= self.per_shard {
            Some(InvalidIndex::Item)
        } else {
            None
        }
    }

    /// `copies` holds, for each shard, clones of what its slots hold.
    pub open spec fn cloned_as(self, copies: Seq<Vec<Option<T>>>) -> bool where T: Clone {
        &&& copies.len() == self.count()
        &&& forall|s: int|
            0 <= s < self.count() ==> cloned_entries(
                self.rings[s].slots(),
                (#[trigger] copies[s])@,
            )
    }

    /// `show` can be called on what any slot holds.
    pub open spec fn showable<F: Fn(&Option<T>) -> String>(self, show: F) -> bool {
        forall|s: int| 0 <= s < self.count() ==> showable(show, (#[trigger] self.rings[s]).slots())
    }

    /// `texts` holds, for each shard, what `show` may give for its slots.
    pub open spec fn shown_by<F: Fn(&Option<T>) -> String>(
        self,
        show: F,
        texts: Seq<Seq<String>>,
    ) -> bool {
        &&& texts.len() == self.count()
        &&& forall|s: int|
            0 <= s < self.count() ==> shown_by(show, self.rings[s].slots(), #[trigger] texts[s])
    }
}

/// Putting another ring in the place of one changes the total by the difference
/// of their lengths.
pub proof fn lemma_total_update<T>(rings: Seq<Ring<T>>, s: int, ring: Ring<T>)
    requires
        0 <= s < rings.len(),
    ensures
        total(rings.update(s, ring)) == total(rings) - rings[s].queue.len() + ring.queue.len(),
    decreases rings.len(),
{
    let updated = rings.update(s, ring);
    if s == rings.len() - 1 {
        assert(updated.drop_last() =~= rings.drop_last());
    } else {
        assert(updated.drop_last() =~= rings.drop_last().update(s, ring));
        lemma_total_update(rings.drop_last(), s, ring);
    }
}

/// Rings of at most `size` entries each hold at most that many times their
/// number in all; they hold so many only if each of them is full, and they hold
/// nothing only if each of them is empty.
pub proof fn lemma_total_bounds<T>(rings: Seq<Ring<T>>, size: nat)
    requires
        forall|s: int| 0 <= s < rings.len() ==> (#[trigger] rings[s]).queue.len() <= size,
    ensures
        total(rings) <= size * rings.len(),
        total(rings) == size * rings.len() <==> forall|s: int|
            0 <= s < rings.len() ==> (#[trigger] rings[s]).queue.len() == size,
        total(rings) == 0 <==> forall|s: int|
            0 <= s < rings.len() ==> (#[trigger] rings[s]).queue.len() == 0,
    decreases rings.len(),
{
    if rings.len() > 0 {
        let shorter = rings.drop_last();
        let last = rings.len() - 1;
        assert forall|s: int| 0 <= s < shorter.len() implies (#[trigger] shorter[s]).queue.len()
            <= size by {
            assert(shorter[s] == rings[s]);
        }
        lemma_total_bounds(shorter, size);
        assert(size * rings.len() == size * shorter.len() + size) by (nonlinear_arith)
            requires
                rings.len() == shorter.len() + 1,
        ;
        assert(rings[last] == rings.last());
        assert forall|s: int| 0 <= s < rings.len() && s != last implies rings[s]
            == #[trigger] shorter[s] by {}
        if total(rings) == size * rings.len() {
            assert forall|s: int| 0 <= s < rings.len() implies (#[trigger] rings[s]).queue.len()
                == size by {
                if s != last {
                    assert(shorter[s].queue.len() == size);
                }
            }
        }
        if forall|s: int| 0 <= s < rings.len() ==> (#[trigger] rings[s]).queue.len() == size {
            assert forall|s: int| 0 <= s < shorter.len() implies (#[trigger] shorter[s]).queue.len()
                == size by {
                assert(rings[s].queue.len() == size);
            }
        }
        if total(rings) == 0 {
            assert forall|s: int| 0 <= s < rings.len() implies (#[trigger] rings[s]).queue.len()
                == 0 by {
                if s != last {
                    assert(shorter[s].queue.len() == 0);
                }
            }
        }
        if forall|s: int| 0 <= s < rings.len() ==> (#[trigger] rings[s]).queue.len() == 0 {
            assert forall|s: int| 0 <= s < shorter.len() implies (#[trigger] shorter[s]).queue.len()
                == 0 by {
                assert(rings[s].queue.len() == 0);
            }
        }
    } else {
        assert(size * rings.len() == 0) by (nonlinear_arith)
            requires
                rings.len() == 0,
        ;
    }
}

/// The rounded capacity is the number of shards times the size of a shard, and
/// no more than `capacity + shards - 1` unless it is one slot per shard.
pub proof fn lemma_shard_capacity(capacity: nat, shards: nat)
    requires
        shards > 0,
    ensures
        shard_capacity(capacity, shards) >= 1,
        shard_capacity(capacity, shards) * shards >= capacity,
        capacity > 0 ==> shard_capacity(capacity, shards) * shards < capacity + shards,
        capacity == 0 ==> shard_capacity(capacity, shards) == 1,
{
    let sum = capacity + shards - 1;
    let quotient = sum / shards as int;
    vstd::arithmetic::div_mod::lemma_fundamental_div_mod(sum, shards as int);
    vstd::arithmetic::div_mod::lemma_mod_bound(sum, shards as int);
    assert(shards * quotient == quotient * shards) by (nonlinear_arith);
    if capacity == 0 {
        vstd::arithmetic::div_mod::lemma_basic_div(sum, shards as int);
    } else {
        assert(quotient >= 1) by (nonlinear_arith)
            requires
                sum == shards * quotient + sum % (shards as int),
                sum >= shards,
                (sum % (shards as int)) < shards,
                shards > 0,
        ;
    }
}

} // verus!
