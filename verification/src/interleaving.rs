//! Any number of tasks at one sharded ring buffer, whose steps come in any
//! order, and what holds however they come.
//!
//! Tasks at a buffer without a lock take any of the steps, except that they clear
//! the buffer only after they have taken all shards. Tasks at a buffer behind a
//! lock never raise the global flag; they clear the buffer, as writers, while no
//! other task is at work. Any task may poison the buffer, or take the poison back,
//! at any time.
use vstd::prelude::*;

use crate::cursor::Cursor;
use crate::ring::{lemma_around, Ring};
use crate::shard_laws::{
    law_found_shard_is_held, law_full_and_empty_go_by_the_shards,
    law_release_and_clear_reach_every_shard,
};
use crate::shards::{total, Acquire, Shards};
use crate::sweep::{first_taken, LockFree, Progress};

verus! {

/// What a task is at.
pub enum Phase {
    /// The task holds nothing; it may be searching for a shard.
    Idle,
    /// The task has taken a shard to enqueue to it or to dequeue from it.
    Holding { acquire: Acquire, shard: int },
    /// The task has raised the global flag and takes all shards.
    Sweeping(Progress),
}

/// A buffer, the tasks at work on it, and, for each shard, the entries that went
/// in and those that came out, in order, since the buffer was last cleared.
pub struct System<T> {
    pub buffer: LockFree<T>,
    pub tasks: Map<int, Phase>,
    pub entered: Seq<Seq<Option<T>>>,
    pub left: Seq<Seq<Option<T>>>,
}

/// A step of one task.
pub enum Step<T> {
    /// A search ends.
    Search { cursor: Cursor, acquire: Acquire, found: Option<usize>, stopped: Cursor },
    /// An item is put into the shard that the task holds.
    Enqueue(T),
    /// An entry is taken out of the shard that the task holds.
    Dequeue,
    /// The buffer is poisoned, or the poison is taken back.
    SetPoison(bool),
    /// The task takes more of the shards, without getting hold of all of them.
    Sweep,
    /// The task gets hold of all shards, and empties and releases them.
    Clear,
    /// The task gets hold of all shards, reads them and releases them.
    Read,
    /// The buffer is cleared under a lock that keeps all other tasks out.
    ClearAlone,
}

impl Phase {
    /// The task holds shard `s`.
    pub open spec fn claims(self, s: int) -> bool {
        match self {
            Phase::Idle => false,
            Phase::Holding { acquire: _, shard } => shard == s,
            Phase::Sweeping(progress) => 0 <= s < progress.held,
        }
    }

    /// How far the task has got with taking all shards.
    pub open spec fn progress(self) -> Progress {
        match self {
            Phase::Sweeping(progress) => progress,
            _ => Progress::none(),
        }
    }

    /// What the phase says of the buffer.
    pub open spec fn fits<T>(self, buffer: LockFree<T>) -> bool {
        match self {
            Phase::Idle => true,
            Phase::Holding { acquire, shard } => buffer.shards.held_for(acquire, shard),
            Phase::Sweeping(progress) => progress.flagged && buffer.under_way(progress),
        }
    }
}

impl<T> System<T> {
    /// A buffer that nothing has been put into, and tasks that have not begun.
    pub open spec fn starts(self) -> bool {
        let m = self.buffer.shards;
        &&& m.wf()
        &&& m.count() <= usize::MAX
        &&& self.buffer == LockFree::<T>::empty(m.per_shard, m.count())
        &&& forall|t: int| #[trigger] self.tasks.contains_key(t) ==> self.tasks[t] is Idle
        &&& self.entered == Seq::new(m.count(), |s: int| Seq::<Option<T>>::empty())
        &&& self.left == Seq::new(m.count(), |s: int| Seq::<Option<T>>::empty())
    }

    /// Task `t` holds shard `s`.
    pub open spec fn claims(self, t: int, s: int) -> bool {
        self.tasks.contains_key(t) && self.tasks[t].claims(s)
    }

    /// Task `t` has raised the global flag.
    pub open spec fn sweeping(self, t: int) -> bool {
        self.tasks.contains_key(t) && self.tasks[t] is Sweeping
    }

    /// The buffer is sound, and every task has what it believes to have.
    pub open spec fn sound(self) -> bool {
        &&& self.buffer.shards.wf()
        &&& self.buffer.shards.count() <= usize::MAX
        &&& forall|t: int| #[trigger] self.tasks.contains_key(t) ==> self.tasks[t].fits(self.buffer)
    }

    /// No shard is held by two tasks, and no two tasks have raised the flag.
    pub open spec fn exclusive(self) -> bool {
        &&& forall|t: int, u: int, s: int| #[trigger]
            self.claims(t, s) && #[trigger] self.claims(u, s) ==> t == u
        &&& forall|t: int, u: int| #[trigger]
            self.sweeping(t) && #[trigger] self.sweeping(u) ==> t == u
    }

    /// No shard is taken that no task holds, and the flag is not raised unless a
    /// task has raised it.
    pub open spec fn accounted(self) -> bool {
        &&& forall|s: int|
            0 <= s < self.buffer.shards.count() && #[trigger] self.buffer.shards.taken[s]
                ==> exists|t: int| #[trigger] self.claims(t, s)
        &&& self.buffer.global_flag ==> exists|t: int| #[trigger] self.sweeping(t)
    }

    /// What went into a shard came out of it in the same order, or is still in
    /// it, and all of it are items.
    pub open spec fn ordered(self) -> bool {
        let m = self.buffer.shards;
        &&& self.entered.len() == m.count()
        &&& self.left.len() == m.count()
        &&& forall|s: int|
            0 <= s < m.count() ==> (#[trigger] self.entered[s]) == self.left[s] + m.rings[s].queue
        &&& forall|s: int, i: int|
            0 <= s < m.count() && 0 <= i < self.entered[s].len() ==> (
            #[trigger] self.entered[s][i]) is Some
    }

    pub open spec fn inv(self) -> bool {
        &&& self.sound()
        &&& self.exclusive()
        &&& self.accounted()
        &&& self.ordered()
    }

    /// Task `t` takes a step that leads to `post`.
    pub open spec fn next(self, post: Self, t: int, step: Step<T>) -> bool {
        let m = self.buffer.shards;
        let phase = self.tasks[t];
        &&& self.tasks.contains_key(t)
        &&& match step {
            Step::Search { cursor, acquire, found, stopped } => {
                &&& phase is Idle
                &&& cursor.wf(m.count())
                &&& m.search_ends(
                    acquire,
                    self.buffer.global_flag,
                    cursor,
                    found,
                    post.buffer.shards,
                    stopped,
                )
                &&& post == (System {
                    buffer: LockFree { shards: post.buffer.shards, ..self.buffer },
                    tasks: self.tasks.insert(
                        t,
                        match found {
                            Some(s) => Phase::Holding { acquire, shard: s as int },
                            None => Phase::Idle,
                        },
                    ),
                    ..self
                })
            },
            Step::Enqueue(item) => {
                &&& phase is Holding
                &&& phase->acquire is Enqueue
                &&& post == (System {
                    buffer: LockFree { shards: m.store(phase->shard, Some(item)), ..self.buffer },
                    tasks: self.tasks.insert(t, Phase::Idle),
                    entered: self.entered.update(
                        phase->shard,
                        self.entered[phase->shard].push(Some(item)),
                    ),
                    left: self.left,
                })
            },
            Step::Dequeue => {
                &&& phase is Holding
                &&& phase->acquire is Dequeue
                &&& post == (System {
                    buffer: LockFree { shards: m.remove(phase->shard), ..self.buffer },
                    tasks: self.tasks.insert(t, Phase::Idle),
                    entered: self.entered,
                    left: self.left.update(
                        phase->shard,
                        self.left[phase->shard].push(m.rings[phase->shard].queue[0]),
                    ),
                })
            },
            Step::SetPoison(poisoned) => post == (System {
                buffer: LockFree { shards: Shards { poisoned, ..m }, ..self.buffer },
                ..self
            }),
            Step::Sweep => {
                &&& !(phase is Holding)
                &&& !self.buffer.sweeps_all(phase.progress())
                &&& post == (System {
                    buffer: self.buffer.swept(phase.progress()),
                    tasks: self.tasks.insert(
                        t,
                        if self.buffer.may_sweep(phase.progress()) {
                            Phase::Sweeping(self.buffer.reach(phase.progress()))
                        } else {
                            phase
                        },
                    ),
                    ..self
                })
            },
            Step::Clear => {
                &&& !(phase is Holding)
                &&& self.buffer.sweeps_all(phase.progress())
                &&& post == (System {
                    buffer: self.buffer.cleared(),
                    tasks: self.tasks.insert(t, Phase::Idle),
                    entered: Seq::new(m.count(), |s: int| Seq::<Option<T>>::empty()),
                    left: Seq::new(m.count(), |s: int| Seq::<Option<T>>::empty()),
                })
            },
            Step::Read => {
                &&& !(phase is Holding)
                &&& self.buffer.sweeps_all(phase.progress())
                &&& post == (System {
                    buffer: self.buffer.reopened(),
                    tasks: self.tasks.insert(t, Phase::Idle),
                    ..self
                })
            },
            Step::ClearAlone => {
                &&& forall|u: int| #[trigger] self.tasks.contains_key(u) ==> self.tasks[u] is Idle
                &&& post == (System {
                    buffer: LockFree { shards: m.cleared(), ..self.buffer },
                    entered: Seq::new(m.count(), |s: int| Seq::<Option<T>>::empty()),
                    left: Seq::new(m.count(), |s: int| Seq::<Option<T>>::empty()),
                    ..self
                })
            },
        }
    }
}

/// A sweep stops only at a shard that is taken, or once it has come by all of them:
/// all shards before are free.
pub proof fn law_sweep_stops_only_at_a_taken_shard(taken: Seq<bool>, from: int)
    requires
        0 <= from <= taken.len(),
    ensures
        from <= first_taken(taken, from) <= taken.len(),
        first_taken(taken, from) == taken.len() || taken[first_taken(taken, from)],
        forall|s: int| from <= s < first_taken(taken, from) ==> !#[trigger] taken[s],
    decreases taken.len() - from,
{
    if from < taken.len() && !taken[from] {
        law_sweep_stops_only_at_a_taken_shard(taken, from + 1);
    }
}

/// A task that has not raised the flag gets nowhere while another one has. Any other
/// task raises the flag, if it has not done so, and takes every shard from the first
/// one that it does not hold up to the first one that is taken; nothing else changes.
/// It gets hold of all shards if and only if none of those that it does not hold is
/// taken.
pub proof fn law_sweep_takes_every_free_shard<T>(buffer: LockFree<T>, progress: Progress)
    requires
        buffer.shards.wf(),
        progress.held <= buffer.shards.rings.len(),
    ensures
        !progress.flagged && buffer.global_flag ==> {
            &&& !buffer.may_sweep(progress)
            &&& buffer.reach(progress) == progress
            &&& buffer.swept(progress) == buffer
            &&& !buffer.sweeps_all(progress)
        },
        progress.flagged || !buffer.global_flag ==> {
            let m = buffer.shards;
            let n = m.rings.len();
            let reach = buffer.reach(progress);
            let swept = buffer.swept(progress);
            &&& buffer.may_sweep(progress)
            &&& reach.flagged
            &&& progress.held <= reach.held <= n
            &&& reach.held == n || m.taken[reach.held as int]
            &&& forall|s: int| progress.held <= s < reach.held ==> !#[trigger] m.taken[s]
            &&& swept.global_flag
            &&& swept.shards.rings == m.rings
            &&& swept.shards.per_shard == m.per_shard
            &&& swept.shards.poisoned == m.poisoned
            &&& swept.shards.taken.len() == n
            &&& forall|s: int|
                0 <= s < n ==> (#[trigger] swept.shards.taken[s] <==> progress.held <= s
                    < reach.held || m.taken[s])
            &&& buffer.sweeps_all(progress) <==> forall|s: int|
                progress.held <= s < n ==> !#[trigger] m.taken[s]
        },
{
    let m = buffer.shards;
    law_sweep_stops_only_at_a_taken_shard(m.taken, progress.held as int);
    if progress.flagged || !buffer.global_flag {
        let reach = first_taken(m.taken, progress.held as int);
        if forall|s: int| progress.held <= s < m.rings.len() ==> !#[trigger] m.taken[s] {
            if reach < m.rings.len() {
                assert(!m.taken[reach]);
            }
        }
    }
}

/// If no task holds a shard and none has raised the flag, a task that has not begun
/// gets hold of all shards at once, however many there are.
pub proof fn law_free_buffer_is_swept_at_once<T>(buffer: LockFree<T>)
    requires
        buffer.shards.wf(),
        !buffer.global_flag,
        forall|s: int|
            0 <= s < buffer.shards.rings.len() ==> !#[trigger] buffer.shards.taken[s],
    ensures
        buffer.sweeps_all(Progress::none()),
        buffer.under_way(Progress::none()),
{
    law_sweep_takes_every_free_shard(buffer, Progress::none());
}

/// A task that has not begun has not raised the flag and holds no shard. A task may
/// have got as far as it has if and only if the flag is raised or the task has not
/// raised it and holds nothing, and the shards that it holds exist and are taken.
pub proof fn law_progress_is_what_the_task_holds<T>(buffer: LockFree<T>, progress: Progress)
    ensures
        !Progress::none().flagged,
        Progress::none().held == 0,
        buffer.under_way(progress) <==> {
            &&& progress.held <= buffer.shards.rings.len()
            &&& progress.flagged ==> buffer.global_flag
            &&& !progress.flagged ==> progress.held == 0
            &&& forall|s: int| 0 <= s < progress.held ==> #[trigger] buffer.shards.taken[s]
        },
{
}

/// A new buffer is open. Once a task that held all shards is done, the buffer is open
/// again and no shard is taken; every shard holds what it held before or, if it was
/// cleared, nothing.
pub proof fn law_finished_sweep_opens_the_buffer<T>(buffer: LockFree<T>, per_shard: nat, count: nat)
    requires
        buffer.shards.wf(),
    ensures
        !LockFree::<T>::empty(per_shard, count).global_flag,
        LockFree::<T>::empty(per_shard, count).shards == Shards::<T>::empty(per_shard, count),
        !buffer.reopened().global_flag,
        buffer.reopened().shards.rings == buffer.shards.rings,
        buffer.reopened().shards.per_shard == buffer.shards.per_shard,
        buffer.reopened().shards.poisoned == buffer.shards.poisoned,
        buffer.reopened().shards.taken.len() == buffer.shards.rings.len(),
        forall|s: int|
            0 <= s < buffer.shards.rings.len() ==> !#[trigger] buffer.reopened().shards.taken[s],
        !buffer.cleared().global_flag,
        buffer.cleared().shards.rings.len() == buffer.shards.rings.len(),
        buffer.cleared().shards.per_shard == buffer.shards.per_shard,
        buffer.cleared().shards.poisoned == buffer.shards.poisoned,
        buffer.cleared().shards.taken.len() == buffer.shards.rings.len(),
        forall|s: int|
            0 <= s < buffer.shards.rings.len() ==> !#[trigger] buffer.cleared().shards.taken[s],
        forall|s: int|
            0 <= s < buffer.shards.rings.len() ==> {
                let ring = #[trigger] buffer.cleared().shards.rings[s];
                &&& ring.queue.len() == 0
                &&& ring.head == 0
                &&& ring.capacity == buffer.shards.per_shard
            },
{
    law_release_and_clear_reach_every_shard(buffer.shards);
}

/// A shard that a task holds exists and is taken.
proof fn lemma_claimed_is_taken<T>(sys: System<T>, t: int, s: int)
    requires
        sys.sound(),
        sys.claims(t, s),
    ensures
        0 <= s < sys.buffer.shards.count(),
        sys.buffer.shards.taken[s],
{
    assert(sys.tasks.contains_key(t));
    assert(sys.tasks[t].fits(sys.buffer));
}

/// Before anything has been done everything is in order.
pub proof fn law_start_is_in_order<T>(sys: System<T>)
    requires
        sys.starts(),
    ensures
        sys.inv(),
{
    assert forall|s: int| 0 <= s < sys.buffer.shards.count() implies (#[trigger] sys.entered[s])
        == sys.left[s] + sys.buffer.shards.rings[s].queue by {
        assert(sys.left[s] + sys.buffer.shards.rings[s].queue =~= sys.entered[s]);
    }
}

/// A task that gets hold of all shards is alone: no other task holds a shard or
/// has raised the flag.
pub proof fn law_sweeper_is_alone<T>(sys: System<T>, t: int)
    requires
        sys.inv(),
        sys.tasks.contains_key(t),
        !(sys.tasks[t] is Holding),
        sys.buffer.sweeps_all(sys.tasks[t].progress()),
    ensures
        forall|u: int| #[trigger] sys.tasks.contains_key(u) && u != t ==> sys.tasks[u] is Idle,
{
    let progress = sys.tasks[t].progress();
    assert(sys.tasks[t].fits(sys.buffer));
    law_sweep_stops_only_at_a_taken_shard(sys.buffer.shards.taken, progress.held as int);
    assert forall|u: int| #[trigger]
        sys.tasks.contains_key(u) && u != t implies sys.tasks[u] is Idle by {
        assert(sys.tasks[u].fits(sys.buffer));
        if sys.tasks[u] is Sweeping {
            assert(sys.sweeping(u));
            assert(sys.sweeping(t));
        }
        if sys.tasks[u] is Holding {
            let s = sys.tasks[u]->shard;
            assert(sys.claims(u, s));
            if s < progress.held {
                assert(sys.claims(t, s));
            }
        }
    }
}

proof fn lemma_search_keeps_order<T>(pre: System<T>, post: System<T>, t: int, step: Step<T>)
    requires
        pre.inv(),
        pre.next(post, t, step),
        step is Search,
    ensures
        post.inv(),
{
    let m = pre.buffer.shards;
    match step {
        Step::Search { cursor, acquire, found, stopped } => {
            match found {
                Some(shard) => {
                    let s = shard as int;
                    law_found_shard_is_held(
                        m,
                        acquire,
                        pre.buffer.global_flag,
                        cursor,
                        shard,
                        post.buffer.shards,
                        stopped,
                    );
                    assert forall|u: int| #[trigger]
                        post.tasks.contains_key(u) implies post.tasks[u].fits(post.buffer) by {
                        if u != t {
                            assert(pre.tasks.contains_key(u));
                        }
                    }
                    assert forall|u: int, r: int| #[trigger] post.claims(u, r) && u
                        != t implies pre.claims(u, r) && r != s by {
                        assert(pre.claims(u, r));
                        lemma_claimed_is_taken(pre, u, r);
                    }
                    assert forall|u: int| #[trigger] post.sweeping(u) implies pre.sweeping(u) by {}
                    assert(post.exclusive());
                    assert forall|r: int|
                        0 <= r < post.buffer.shards.count()
                            && #[trigger] post.buffer.shards.taken[r] implies exists|u: int| #[trigger]
                        post.claims(u, r) by {
                        if r == s {
                            assert(post.claims(t, s));
                        } else {
                            assert(m.taken[r]);
                            let u = choose|u: int| #[trigger] pre.claims(u, r);
                            assert(post.claims(u, r));
                        }
                    }
                    if post.buffer.global_flag {
                        let u = choose|u: int| #[trigger] pre.sweeping(u);
                        assert(post.sweeping(u));
                    }
                    assert(post.buffer.shards.rings == m.rings);
                    assert(post.ordered());
                },
                None => {
                    assert(post.buffer.shards == m);
                    assert(post.tasks =~= pre.tasks);
                },
            }
        },
        _ => {},
    }
}

/// A task has let go of its shard, and nothing else has changed of what tasks
/// hold.
proof fn lemma_release_keeps_claims<T>(pre: System<T>, post: System<T>, t: int)
    requires
        pre.inv(),
        pre.tasks.contains_key(t),
        pre.tasks[t] is Holding,
        post.tasks == pre.tasks.insert(t, Phase::Idle),
        post.buffer.global_flag == pre.buffer.global_flag,
        post.buffer.shards.wf(),
        post.buffer.shards.count() == pre.buffer.shards.count(),
        post.buffer.shards.taken == pre.buffer.shards.taken.update(pre.tasks[t]->shard, false),
        forall|s: int|
            0 <= s < pre.buffer.shards.count() && s != pre.tasks[t]->shard
                ==> #[trigger] post.buffer.shards.rings[s] == pre.buffer.shards.rings[s],
    ensures
        post.sound(),
        post.exclusive(),
        post.accounted(),
{
    let shard = pre.tasks[t]->shard;
    assert(pre.claims(t, shard));
    lemma_claimed_is_taken(pre, t, shard);
    assert forall|u: int| #[trigger] post.tasks.contains_key(u) implies post.tasks[u].fits(
        post.buffer,
    ) by {
        if u != t {
            assert(pre.tasks.contains_key(u));
            assert(pre.tasks[u].fits(pre.buffer));
            match pre.tasks[u] {
                Phase::Idle => {},
                Phase::Holding { acquire, shard: other } => {
                    assert(pre.claims(u, other));
                    assert(other != shard);
                },
                Phase::Sweeping(progress) => {
                    assert forall|s: int|
                        0 <= s < progress.held implies #[trigger] post.buffer.shards.taken[s] by {
                        assert(pre.buffer.shards.taken[s]);
                        assert(pre.claims(u, s));
                    }
                },
            }
        }
    }
    assert forall|u: int, r: int| #[trigger] post.claims(u, r) implies pre.claims(u, r) by {}
    assert forall|u: int| #[trigger] post.sweeping(u) implies pre.sweeping(u) by {}
    assert forall|r: int|
        0 <= r < post.buffer.shards.count()
            && #[trigger] post.buffer.shards.taken[r] implies exists|u: int| #[trigger]
        post.claims(u, r) by {
        assert(pre.buffer.shards.taken[r]);
        let u = choose|u: int| #[trigger] pre.claims(u, r);
        assert(u != t);
        assert(post.claims(u, r));
    }
    if post.buffer.global_flag {
        let u = choose|u: int| #[trigger] pre.sweeping(u);
        assert(post.sweeping(u));
    }
}

proof fn lemma_enqueue_keeps_order<T>(pre: System<T>, post: System<T>, t: int, item: T)
    requires
        pre.inv(),
        pre.next(post, t, Step::Enqueue(item)),
    ensures
        post.inv(),
{
    let m = pre.buffer.shards;
    let shard = pre.tasks[t]->shard;
    assert(pre.tasks[t].fits(pre.buffer));
    assert(m.rings[shard].wf());
    lemma_release_keeps_claims(pre, post, t);
    assert forall|s: int| 0 <= s < m.count() implies (#[trigger] post.entered[s]) == post.left[s]
        + post.buffer.shards.rings[s].queue by {
        assert(pre.entered[s] == pre.left[s] + m.rings[s].queue);
        assert(post.entered[s] =~= post.left[s] + post.buffer.shards.rings[s].queue);
    }
    assert forall|s: int, i: int|
        0 <= s < m.count() && 0 <= i < post.entered[s].len() implies (
    #[trigger] post.entered[s][i]) is Some by {
        if s != shard || i < pre.entered[s].len() {
            assert(post.entered[s][i] == pre.entered[s][i]);
        }
    }
}

proof fn lemma_dequeue_keeps_order<T>(pre: System<T>, post: System<T>, t: int)
    requires
        pre.inv(),
        pre.next(post, t, Step::Dequeue),
    ensures
        post.inv(),
{
    let m = pre.buffer.shards;
    let shard = pre.tasks[t]->shard;
    assert(pre.tasks[t].fits(pre.buffer));
    assert(m.rings[shard].wf());
    lemma_around(m.rings[shard].head as int, 1, m.per_shard as int);
    lemma_release_keeps_claims(pre, post, t);
    assert forall|s: int| 0 <= s < m.count() implies (#[trigger] post.entered[s]) == post.left[s]
        + post.buffer.shards.rings[s].queue by {
        assert(pre.entered[s] == pre.left[s] + m.rings[s].queue);
        assert(post.entered[s] =~= post.left[s] + post.buffer.shards.rings[s].queue);
    }
}

proof fn lemma_sweep_keeps_order<T>(pre: System<T>, post: System<T>, t: int)
    requires
        pre.inv(),
        pre.next(post, t, Step::Sweep),
    ensures
        post.inv(),
{
    let m = pre.buffer.shards;
    let progress = pre.tasks[t].progress();
    assert(pre.tasks[t].fits(pre.buffer));
    if !pre.buffer.may_sweep(progress) {
        assert(post.tasks =~= pre.tasks);
    } else {
        let reach = pre.buffer.reach(progress);
        law_sweep_stops_only_at_a_taken_shard(m.taken, progress.held as int);
        assert forall|u: int| #[trigger] post.tasks.contains_key(u) implies post.tasks[u].fits(
            post.buffer,
        ) by {
            if u != t {
                assert(pre.tasks.contains_key(u));
                assert(pre.tasks[u].fits(pre.buffer));
            } else {
                assert forall|s: int|
                    0 <= s < reach.held implies #[trigger] post.buffer.shards.taken[s] by {
                    if s < progress.held {
                        assert(m.taken[s]);
                    }
                }
            }
        }
        assert forall|u: int, r: int| #[trigger] post.claims(u, r) && u != t implies pre.claims(
            u,
            r,
        ) && !(0 <= r < reach.held) by {
            assert(pre.claims(u, r));
            lemma_claimed_is_taken(pre, u, r);
            if r < progress.held {
                assert(pre.claims(t, r));
            }
        }
        assert forall|u: int| #[trigger] post.sweeping(u) && u != t implies false by {
            assert(pre.sweeping(u));
            assert(pre.tasks[u].fits(pre.buffer));
            if pre.tasks[t] is Sweeping {
                assert(pre.sweeping(t));
            }
        }
        assert(post.exclusive());
        assert forall|r: int|
            0 <= r < post.buffer.shards.count()
                && #[trigger] post.buffer.shards.taken[r] implies exists|u: int| #[trigger]
            post.claims(u, r) by {
            if r < reach.held {
                assert(post.claims(t, r));
            } else {
                assert(m.taken[r]);
                let u = choose|u: int| #[trigger] pre.claims(u, r);
                assert(post.claims(u, r));
            }
        }
        assert(post.sweeping(t));
    }
}

proof fn lemma_finished_sweep_keeps_order<T>(pre: System<T>, post: System<T>, t: int, step: Step<T>)
    requires
        pre.inv(),
        pre.next(post, t, step),
        step is Clear || step is Read || step is ClearAlone,
    ensures
        post.inv(),
{
    let m = pre.buffer.shards;
    if !(step is ClearAlone) {
        law_sweeper_is_alone(pre, t);
    } else {
        if pre.buffer.global_flag {
            let u = choose|u: int| #[trigger] pre.sweeping(u);
            assert(pre.tasks.contains_key(u));
        }
    }
    assert forall|u: int| #[trigger] post.tasks.contains_key(u) implies post.tasks[u] is Idle by {
        if u != t {
            assert(pre.tasks.contains_key(u));
        }
    }
    assert forall|s: int| 0 <= s < m.count() implies (#[trigger] post.entered[s]) == post.left[s]
        + post.buffer.shards.rings[s].queue by {
        if step is Read {
            assert(pre.entered[s] == pre.left[s] + m.rings[s].queue);
        } else {
            assert(post.entered[s] =~= post.left[s] + post.buffer.shards.rings[s].queue);
        }
    }
    if step is Read {
        assert(post.buffer.shards.rings == m.rings);
        assert forall|s: int, i: int|
            0 <= s < m.count() && 0 <= i < post.entered[s].len() implies (
        #[trigger] post.entered[s][i]) is Some by {
            assert(pre.entered[s][i] is Some);
        }
    }
}

/// Whatever step a task takes, everything stays in order: no shard is held by
/// two tasks, every task has what it believes to have, no shard stays taken that
/// no task holds, and every shard hands out what was put into it, in the same
/// order, with nothing lost or doubled.
///
/// So every task that enqueues or dequeues finds its shard as the operation
/// needs it, however the steps of other tasks come in between.
pub proof fn law_every_step_keeps_order<T>(pre: System<T>, post: System<T>, t: int, step: Step<T>)
    requires
        pre.inv(),
        pre.next(post, t, step),
    ensures
        post.inv(),
{
    match step {
        Step::Search { cursor, acquire, found, stopped } => {
            lemma_search_keeps_order(pre, post, t, step);
        },
        Step::Enqueue(item) => {
            lemma_enqueue_keeps_order(pre, post, t, item);
        },
        Step::Dequeue => {
            lemma_dequeue_keeps_order(pre, post, t);
        },
        Step::SetPoison(poisoned) => {
            assert forall|u: int, r: int| #[trigger] post.claims(u, r) == pre.claims(u, r) by {}
            assert forall|u: int| #[trigger] post.sweeping(u) == pre.sweeping(u) by {}
            assert forall|u: int| #[trigger] post.tasks.contains_key(u) implies post.tasks[u].fits(
                post.buffer,
            ) by {
                assert(pre.tasks[u].fits(pre.buffer));
            }
            assert forall|r: int|
                0 <= r < post.buffer.shards.count()
                    && #[trigger] post.buffer.shards.taken[r] implies exists|u: int| #[trigger]
                post.claims(u, r) by {
                assert(pre.buffer.shards.taken[r]);
                let u = choose|u: int| #[trigger] pre.claims(u, r);
                assert(post.claims(u, r));
            }
            if post.buffer.global_flag {
                let u = choose|u: int| #[trigger] pre.sweeping(u);
                assert(post.sweeping(u));
            }
            assert(post.ordered());
        },
        Step::Sweep => {
            lemma_sweep_keeps_order(pre, post, t);
        },
        _ => {
            lemma_finished_sweep_keeps_order(pre, post, t, step);
        },
    }
}

/// No task touches a shard that another task holds, nor what that task holds.
pub proof fn law_held_shard_is_left_alone<T>(
    pre: System<T>,
    post: System<T>,
    t: int,
    step: Step<T>,
    other: int,
    s: int,
)
    requires
        pre.inv(),
        pre.next(post, t, step),
        pre.claims(other, s),
        other != t,
    ensures
        post.buffer.shards.rings[s] == pre.buffer.shards.rings[s],
        post.claims(other, s),
{
    let m = pre.buffer.shards;
    assert(pre.tasks.contains_key(other));
    match step {
        Step::Search { cursor, acquire, found, stopped } => {
            assert(post.buffer.shards.rings == m.rings);
        },
        Step::Enqueue(_) | Step::Dequeue => {
            assert(pre.claims(t, pre.tasks[t]->shard));
            lemma_claimed_is_taken(pre, t, pre.tasks[t]->shard);
            lemma_claimed_is_taken(pre, other, s);
        },
        Step::Clear | Step::Read => {
            law_sweeper_is_alone(pre, t);
        },
        _ => {},
    }
}

/// Once all tasks are done, no shard is taken and the flag is not raised.
pub proof fn law_idle_tasks_hold_nothing<T>(sys: System<T>)
    requires
        sys.inv(),
        forall|t: int| #[trigger] sys.tasks.contains_key(t) ==> sys.tasks[t] is Idle,
    ensures
        !sys.buffer.global_flag,
        forall|s: int|
            0 <= s < sys.buffer.shards.count() ==> !#[trigger] sys.buffer.shards.taken[s],
{
    if sys.buffer.global_flag {
        let u = choose|u: int| #[trigger] sys.sweeping(u);
        assert(sys.tasks.contains_key(u));
    }
    assert forall|s: int|
        0 <= s < sys.buffer.shards.count() implies !#[trigger] sys.buffer.shards.taken[s] by {
        if sys.buffer.shards.taken[s] {
            let u = choose|u: int| #[trigger] sys.claims(u, s);
            assert(sys.tasks.contains_key(u));
        }
    }
}

/// What a task dequeues from the shard that it holds is an item: a dequeue
/// comes to nothing only if the search found no shard.
pub proof fn law_held_shard_gives_an_item<T>(sys: System<T>, t: int)
    requires
        sys.inv(),
        sys.tasks.contains_key(t),
        sys.tasks[t] is Holding,
        sys.tasks[t]->acquire is Dequeue,
    ensures
        sys.buffer.shards.rings[sys.tasks[t]->shard].queue[0] is Some,
{
    let s = sys.tasks[t]->shard;
    let m = sys.buffer.shards;
    assert(sys.tasks[t].fits(sys.buffer));
    assert(sys.entered[s] == sys.left[s] + m.rings[s].queue);
    assert(sys.entered[s][sys.left[s].len() as int] == m.rings[s].queue[0]);
}

/// How many entries all the sequences hold together.
pub open spec fn total_len<T>(entries: Seq<Seq<Option<T>>>) -> nat
    decreases entries.len(),
{
    if entries.len() == 0 {
        0
    } else {
        total_len(entries.drop_last()) + entries.last().len()
    }
}

proof fn lemma_total_len_splits<T>(
    entered: Seq<Seq<Option<T>>>,
    left: Seq<Seq<Option<T>>>,
    rings: Seq<Ring<T>>,
)
    requires
        entered.len() == left.len() == rings.len(),
        forall|s: int|
            0 <= s < entered.len() ==> (#[trigger] entered[s]) == left[s] + rings[s].queue,
    ensures
        total_len(entered) == total_len(left) + total(rings),
    decreases entered.len(),
{
    if entered.len() > 0 {
        let n = entered.len() - 1;
        assert(entered[n] == left[n] + rings[n].queue);
        assert forall|s: int| 0 <= s < n implies (#[trigger] entered.drop_last()[s])
            == left.drop_last()[s] + rings.drop_last()[s].queue by {
            assert(entered[s] == left[s] + rings[s].queue);
        }
        lemma_total_len_splits(entered.drop_last(), left.drop_last(), rings.drop_last());
    }
}

/// The number of jobs is always the number of items that were enqueued less the
/// number of those that were dequeued; so once the buffer is empty the consumers
/// have got every item exactly once.
pub proof fn law_jobs_balance<T>(sys: System<T>)
    requires
        sys.inv(),
    ensures
        total_len(sys.entered) == total_len(sys.left) + sys.buffer.shards.jobs(),
        sys.buffer.shards.is_empty() ==> total_len(sys.entered) == total_len(sys.left),
        sys.buffer.shards.is_empty() ==> sys.entered == sys.left,
{
    let m = sys.buffer.shards;
    lemma_total_len_splits(sys.entered, sys.left, m.rings);
    if m.is_empty() {
        law_full_and_empty_go_by_the_shards(m);
        assert forall|s: int| 0 <= s < m.count() implies sys.entered[s] == sys.left[s] by {
            assert(m.rings[s].is_empty());
            assert(sys.entered[s] == sys.left[s] + m.rings[s].queue);
            assert(sys.entered[s] =~= sys.left[s]);
        }
        assert(sys.entered =~= sys.left);
    }
}

} // verus!
