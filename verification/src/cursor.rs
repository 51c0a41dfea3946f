//! How a task walks around the shards in search of one to work on, and how long
//! it pauses between two rounds.
use vstd::arithmetic::power2::pow2;
use vstd::prelude::*;

use crate::random::random_shard;
use crate::ring::around;

verus! {

/// The longest pause between two rounds, in milliseconds.
pub const MAX_BACKOFF_MS: u64 = 20;

/// The longest pause after a task has been around for the `attempt`-th time,
/// counted from zero: it doubles each time, up to a limit.
pub open spec fn backoff(attempt: nat) -> nat {
    let doubled = pow2(if attempt < 5 { attempt } else { 5 });
    if doubled < MAX_BACKOFF_MS {
        doubled
    } else {
        MAX_BACKOFF_MS as nat
    }
}

/// Where a task stands in its search for a shard.
#[derive(Debug)]
pub struct ShardCursor {
    current: usize,
    spins: usize,
    attempt: i32,
}

/// The model of a cursor: the shard to look at next, how many shards of this
/// round have been looked at, and how many rounds are over.
#[verifier::ext_equal]
pub struct Cursor {
    pub current: int,
    pub spins: int,
    pub attempt: int,
}

impl Cursor {
    pub open spec fn wf(self, shards: nat) -> bool {
        &&& 0 <= self.current < shards
        &&& 0 <= self.spins < shards
        &&& 0 <= self.attempt <= i32::MAX
    }

    /// The cursor of a task that has not looked at any shard and starts with
    /// shard `start`.
    pub open spec fn starting_at(start: int) -> Self {
        Cursor { current: start, spins: 0, attempt: 0 }
    }

    /// How many shards of this round have not been looked at.
    pub open spec fn left(self, shards: nat) -> int {
        shards - self.spins
    }

    /// The cursor `steps` shards on, within this round.
    pub open spec fn moved(self, steps: int, shards: nat) -> Self {
        Cursor {
            current: around(self.current, steps, shards as int),
            spins: around(self.spins, steps, shards as int),
            attempt: self.attempt,
        }
    }

    /// The cursor once one more round is over.
    pub open spec fn retried(self) -> Self {
        Cursor {
            attempt: if self.attempt < i32::MAX {
                self.attempt + 1
            } else {
                self.attempt
            },
            ..self
        }
    }
}

impl View for ShardCursor {
    type V = Cursor;

    closed spec fn view(&self) -> Cursor {
        Cursor {
            current: self.current as int,
            spins: self.spins as int,
            attempt: self.attempt as int,
        }
    }
}

/// The longest pause, in milliseconds, after `attempt` rounds before this one.
pub fn backoff_ms(attempt: i32) -> (ms: u64)
    requires
        attempt >= 0,
    ensures
        ms == backoff(attempt as nat),
{
    let shift: u64 = if attempt < 5 {
        attempt as u64
    } else {
        5
    };
    proof {
        vstd::arithmetic::power2::lemma2_to64();
        vstd::bits::lemma_u64_shl_is_mul(1, shift);
    }
    let doubled: u64 = 1u64 << shift;
    if doubled < MAX_BACKOFF_MS {
        doubled
    } else {
        MAX_BACKOFF_MS
    }
}

impl ShardCursor {
    /// A cursor that starts its first round with shard `start`.
    pub fn starting_at(start: usize) -> (cursor: Self)
        ensures
            cursor@ == Cursor::starting_at(start as int),
    {
        ShardCursor { current: start, spins: 0, attempt: 0 }
    }

    /// A cursor for a new search among `shards` shards by a thread.
    ///
    /// The thread starts with the shard after the one that it started with the
    /// last time, which `thread_index` remembers; a thread that never searched
    /// starts with a random shard.
    pub fn begin(shards: usize, thread_index: &mut Option<usize>) -> (cursor: Self)
        requires
            shards > 0,
            *old(thread_index) matches Some(last) ==> last < usize::MAX,
        ensures
            cursor@.wf(shards as nat),
            cursor@ == Cursor::starting_at(cursor@.current),
            *old(thread_index) matches Some(last) ==> cursor@.current == around(
                last as int,
                1,
                shards as int,
            ),
            *final(thread_index) matches Some(start) && start == cursor@.current,
    {
        let start: usize = match *thread_index {
            Some(last) => (last + 1) % shards,
            None => random_shard(shards),
        };
        *thread_index = Some(start);
        ShardCursor::starting_at(start)
    }

    /// The shard to look at next.
    pub fn current(&self) -> (current: usize)
        ensures
            current == self@.current,
    {
        self.current
    }

    /// Moves on to the next shard. Says whether the round is over.
    pub fn advance(&mut self, shards: usize) -> (over: bool)
        requires
            old(self)@.wf(shards as nat),
        ensures
            final(self)@.wf(shards as nat),
            final(self)@ == old(self)@.moved(1, shards as nat),
            over == (final(self)@.spins == 0),
            over == (old(self)@.left(shards as nat) == 1),
    {
        self.current = (self.current + 1) % shards;
        self.spins = (self.spins + 1) % shards;
        proof {
            crate::ring::lemma_around(old(self)@.spins, 1, shards as int);
        }
        self.spins == 0
    }

    /// Counts one more round and returns the longest pause that is to follow
    /// it.
    pub fn back_off(&mut self) -> (ms: u64)
        requires
            old(self)@.attempt >= 0,
        ensures
            final(self)@ == old(self)@.retried(),
            ms == backoff(old(self)@.attempt as nat),
    {
        let ms: u64 = backoff_ms(self.attempt);
        if self.attempt < i32::MAX {
            self.attempt += 1;
        }
        ms
    }
}

} // verus!
