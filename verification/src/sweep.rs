//! The mathematical model of a sharded ring buffer without a lock, and of a task
//! that takes all of its shards, one after the other.
use vstd::prelude::*;

use crate::shards::Shards;

verus! {

/// The shards of a buffer, and the flag that keeps tasks from taking one of them
/// while a sweep is on its way.
#[verifier::ext_equal]
pub struct LockFree<T> {
    pub shards: Shards<T>,
    pub global_flag: bool,
}

/// How far a task has got that takes all shards: whether it has raised the flag,
/// and how many shards, from the first on, it has taken.
#[verifier::ext_equal]
pub struct Progress {
    pub flagged: bool,
    pub held: nat,
}

/// The first shard from `from` on that is taken, or the number of shards if
/// there is none.
pub open spec fn first_taken(taken: Seq<bool>, from: int) -> int
    decreases taken.len() - from,
{
    if from >= taken.len() {
        taken.len() as int
    } else if taken[from] {
        from
    } else {
        first_taken(taken, from + 1)
    }
}

impl Progress {
    /// The progress of a task that has not begun.
    pub open spec fn none() -> Self {
        Progress { flagged: false, held: 0 }
    }
}

impl<T> LockFree<T> {
    /// A buffer that holds nothing and that nobody works on.
    pub open spec fn empty(per_shard: nat, count: nat) -> Self {
        LockFree { shards: Shards::empty(per_shard, count), global_flag: false }
    }

    /// A task may have got so far: the flag is raised if the task has raised it,
    /// and the shards that it holds are taken.
    pub open spec fn under_way(self, progress: Progress) -> bool {
        &&& progress.held <= self.shards.count()
        &&& if progress.flagged {
            self.global_flag
        } else {
            progress.held == 0
        }
        &&& forall|s: int| 0 <= s < progress.held ==> #[trigger] self.shards.taken[s]
    }

    /// The task has raised the flag, or can do so now.
    pub open spec fn may_sweep(self, progress: Progress) -> bool {
        progress.flagged || !self.global_flag
    }

    /// How far the task gets now.
    pub open spec fn reach(self, progress: Progress) -> Progress {
        if self.may_sweep(progress) {
            Progress {
                flagged: true,
                held: first_taken(self.shards.taken, progress.held as int) as nat,
            }
        } else {
            progress
        }
    }

    /// The buffer once the task has got so far.
    pub open spec fn swept(self, progress: Progress) -> Self {
        if self.may_sweep(progress) {
            let held = self.reach(progress).held;
            LockFree {
                shards: Shards {
                    taken: Seq::new(
                        self.shards.count(),
                        |s: int| progress.held <= s < held || self.shards.taken[s],
                    ),
                    ..self.shards
                },
                global_flag: true,
            }
        } else {
            self
        }
    }

    /// The task gets hold of all shards now.
    pub open spec fn sweeps_all(self, progress: Progress) -> bool {
        self.may_sweep(progress) && self.reach(progress).held == self.shards.count()
    }

    /// The buffer once a task that held all shards has let go of them and has
    /// lowered the flag.
    pub open spec fn reopened(self) -> Self {
        LockFree { shards: self.shards.released(), global_flag: false }
    }

    /// The buffer once a task that held all shards has emptied them, has let go
    /// of them and has lowered the flag.
    pub open spec fn cleared(self) -> Self {
        LockFree { shards: self.shards.cleared(), global_flag: false }
    }
}

} // verus!
