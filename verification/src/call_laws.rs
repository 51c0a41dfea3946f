//! Whole calls, from the search for a shard to its release, and what holds of
//! several of them that one thread makes while nobody else is at the buffer.
use vstd::prelude::*;

use crate::cursor::Cursor;
use crate::ring::{around, lemma_around, Ring};
use crate::shard_laws::{law_full_and_empty_go_by_the_shards, law_search_ends_in_one_way};
use crate::shard_set::EnqStatus;
use crate::shards::{shard_capacity, Acquire, Shards};
use crate::sweep::{LockFree, Progress};

verus! {

/// An enqueue that starts its search at `cursor` and does not have to wait comes
/// to `status` and leads from `pre` to `post`.
pub open spec fn enqueues<T>(
    pre: Shards<T>,
    closed: bool,
    cursor: Cursor,
    item: T,
    status: EnqStatus,
    post: Shards<T>,
) -> bool {
    exists|found: Option<usize>, taken: Shards<T>, stopped: Cursor|
        {
            &&& #[trigger] pre.search_ends(Acquire::Enqueue, closed, cursor, found, taken, stopped)
            &&& match found {
                Some(s) => status == EnqStatus::Success && post == taken.store(
                    s as int,
                    Some(item),
                ),
                None => status == EnqStatus::Poisoned && post == taken,
            }
        }
}

/// A dequeue that starts its search at `cursor` and does not have to wait gives
/// `item` and leads from `pre` to `post`.
pub open spec fn dequeues<T>(
    pre: Shards<T>,
    closed: bool,
    cursor: Cursor,
    item: Option<T>,
    post: Shards<T>,
) -> bool {
    exists|found: Option<usize>, taken: Shards<T>, stopped: Cursor|
        {
            &&& #[trigger] pre.search_ends(Acquire::Dequeue, closed, cursor, found, taken, stopped)
            &&& match found {
                Some(s) => item == taken.rings[s as int].queue[0] && post == taken.remove(s as int),
                None => item is None && post == taken,
            }
        }
}

/// Nobody is at work on the shards.
pub open spec fn untouched<T>(m: Shards<T>) -> bool {
    forall|s: int| 0 <= s < m.count() ==> !#[trigger] m.taken[s]
}

/// If the first shard that a search comes to is free and fit, the search ends
/// there, and nowhere else.
proof fn lemma_first_look_decides<T>(
    m: Shards<T>,
    acquire: Acquire,
    s: int,
    found: Option<usize>,
    taken: Shards<T>,
    stopped: Cursor,
)
    requires
        m.wf(),
        0 <= s < m.count(),
        m.decides(acquire, false, s),
    ensures
        forall|other: Cursor|
            !#[trigger] m.search_goes_on(acquire, false, Cursor::starting_at(s), other),
        m.search_ends(acquire, false, Cursor::starting_at(s), found, taken, stopped) ==> found
            == m.verdict(acquire, s) && taken == m.decided(acquire, s),
        m.search_ends(
            acquire,
            false,
            Cursor::starting_at(s),
            m.verdict(acquire, s),
            m.decided(acquire, s),
            Cursor::starting_at(s).moved(0, m.count()),
        ),
{
    let cursor = Cursor::starting_at(s);
    let n = m.count() as int;
    lemma_around(s, 0, n);
    assert(m.decided_after(acquire, false, cursor, 0));
    assert(m.decides(acquire, false, around(cursor.current, 0, n)));
    if m.search_ends(acquire, false, cursor, found, taken, stopped) {
        law_search_ends_in_one_way(
            m,
            acquire,
            false,
            cursor,
            found,
            taken,
            stopped,
            m.verdict(acquire, s),
            m.decided(acquire, s),
            cursor.moved(0, m.count()),
        );
    }
}

/// Enqueues that one thread makes one after the other: the shards before the
/// first of them and after each, the shard that each search starts with, the
/// items, and what each call comes to.
pub struct ThreadRun<T> {
    pub states: Seq<Shards<T>>,
    pub starts: Seq<int>,
    pub items: Seq<T>,
    pub statuses: Seq<EnqStatus>,
}

impl<T> ThreadRun<T> {
    /// The thread works on a new buffer of `count` shards with `per_shard` slots
    /// each. Its first search starts with any shard, and every other one with the
    /// shard after that which the search before started with.
    pub open spec fn on_new_buffer(self, per_shard: nat, count: nat) -> bool {
        let n = self.items.len();
        &&& self.states.len() == n + 1
        &&& self.starts.len() == n
        &&& self.statuses.len() == n
        &&& self.states[0] == Shards::<T>::empty(per_shard, count)
        &&& n > 0 ==> 0 <= self.starts[0] < count
        &&& forall|i: int|
            0 < i < n ==> #[trigger] self.starts[i] == around(self.starts[i - 1], 1, count as int)
        &&& forall|i: int| 0 <= i < n ==> #[trigger] self.step(i)
    }

    /// The call with number `i`.
    pub open spec fn step(self, i: int) -> bool {
        enqueues(
            self.states[i],
            false,
            Cursor::starting_at(self.starts[i]),
            self.items[i],
            self.statuses[i],
            self.states[i + 1],
        )
    }
}

/// How many of `n` items a shard gets if they are dealt out one by one, from
/// shard `start` on.
pub open spec fn share(start: int, s: int, n: nat, count: nat) -> nat {
    let place = if s >= start {
        s - start
    } else {
        s + count - start
    };
    if place < n % count {
        n / count + 1
    } else {
        n / count
    }
}

/// One more item goes to the shard whose turn it is.
proof fn lemma_share_grows(start: int, n: nat, count: nat)
    requires
        0 <= start < count,
    ensures
        0 <= around(start, n as int, count as int) < count,
        share(start, around(start, n as int, count as int), n, count) == n / count,
        forall|s: int|
            0 <= s < count ==> #[trigger] share(start, s, n + 1, count) == share(start, s, n, count)
                + if s == around(start, n as int, count as int) {
                1nat
            } else {
                0
            },
{
    let c = count as int;
    let q = n as int / c;
    let r = n as int % c;
    vstd::arithmetic::div_mod::lemma_fundamental_div_mod(n as int, c);
    vstd::arithmetic::div_mod::lemma_mod_bound(n as int, c);
    vstd::arithmetic::div_mod::lemma_add_mod_noop_right(start, n as int, c);
    lemma_around(start, r, c);
    assert(around(start, n as int, c) == around(start, r, c));
    if r + 1 < c {
        assert(n + 1 == q * c + (r + 1)) by (nonlinear_arith)
            requires
                n == c * q + r,
        ;
        vstd::arithmetic::div_mod::lemma_fundamental_div_mod_converse(n as int + 1, c, q, r + 1);
    } else {
        assert(n + 1 == (q + 1) * c + 0) by (nonlinear_arith)
            requires
                n == c * q + r,
                r + 1 == c,
        ;
        vstd::arithmetic::div_mod::lemma_fundamental_div_mod_converse(n as int + 1, c, q + 1, 0);
    }
}

/// Before the call with number `i`, of as many as there are slots, fewer whole
/// turns are over than a shard has slots.
proof fn lemma_turns_fit(i: int, per_shard: nat, count: nat)
    requires
        count > 0,
        0 <= i < per_shard * count,
    ensures
        i / count as int >= 0,
        i / (count as int) < per_shard,
{
    let c = count as int;
    let turns = i / c;
    vstd::arithmetic::div_mod::lemma_fundamental_div_mod(i, c);
    vstd::arithmetic::div_mod::lemma_mod_bound(i, c);
    vstd::arithmetic::div_mod::lemma_div_pos_is_pos(i, c);
    assert(turns < per_shard) by (nonlinear_arith)
        requires
            i == c * turns + i % c,
            i % c >= 0,
            i < per_shard * count,
            c == count,
            c > 0,
    ;
}

/// After `i` calls every shard holds its share of the items.
proof fn lemma_dealt_out<T>(run: ThreadRun<T>, per_shard: nat, count: nat, i: int)
    requires
        per_shard > 0,
        0 < count <= usize::MAX,
        run.on_new_buffer(per_shard, count),
        0 < run.items.len() <= per_shard * count,
        0 <= i <= run.items.len(),
    ensures
        run.states[i].wf(),
        run.states[i].count() == count,
        run.states[i].per_shard == per_shard,
        !run.states[i].poisoned,
        untouched(run.states[i]),
        i < run.items.len() ==> run.starts[i] == around(run.starts[0], i, count as int),
        forall|s: int|
            0 <= s < count ==> (#[trigger] run.states[i].rings[s]).queue.len() == share(
                run.starts[0],
                s,
                i as nat,
                count,
            ),
        i > 0 ==> run.statuses[i - 1] == EnqStatus::Success,
        i > 0 ==> forall|other: Cursor|
            !#[trigger] run.states[i - 1].search_goes_on(
                Acquire::Enqueue,
                false,
                Cursor::starting_at(run.starts[i - 1]),
                other,
            ),
    decreases i,
{
    let start = run.starts[0];
    let c = count as int;
    if i == 0 {
        vstd::arithmetic::div_mod::lemma_small_mod(0, count);
        vstd::arithmetic::div_mod::lemma_basic_div(0, c);
        lemma_around(start, 0, c);
    } else {
        let k = i - 1;
        lemma_dealt_out(run, per_shard, count, k);
        assert(run.step(k));
        let m = run.states[k];
        let at = run.starts[k];
        lemma_share_grows(start, k as nat, count);
        let full_turns = k as nat / count;
        assert(m.rings[at].queue.len() == full_turns);
        lemma_turns_fit(k, per_shard, count);
        assert(m.rings[at].capacity == per_shard);
        assert(m.decides(Acquire::Enqueue, false, at));
        let (found, taken, stopped) = choose|
            found: Option<usize>,
            taken: Shards<T>,
            stopped: Cursor,
        |
            {
                &&& #[trigger] m.search_ends(
                    Acquire::Enqueue,
                    false,
                    Cursor::starting_at(at),
                    found,
                    taken,
                    stopped,
                )
                &&& match found {
                    Some(s) => run.statuses[k] == EnqStatus::Success && run.states[i]
                        == taken.store(s as int, Some(run.items[k])),
                    None => run.statuses[k] == EnqStatus::Poisoned && run.states[i] == taken,
                }
            };
        lemma_first_look_decides(m, Acquire::Enqueue, at, found, taken, stopped);
        let post = run.states[i];
        assert(post == m.take(at).store(at, Some(run.items[k])));
        assert(post.rings =~= m.rings.update(at, m.rings[at].push(Some(run.items[k]))));
        assert forall|s: int| 0 <= s < count implies (#[trigger] post.rings[s]).queue.len()
            == share(start, s, i as nat, count) by {
            assert(m.rings[s].queue.len() == share(start, s, k as nat, count));
        }
        if i < run.items.len() {
            vstd::arithmetic::div_mod::lemma_add_mod_noop_right(1, start + k, c);
            assert(run.starts[i] == around(run.starts[i - 1], 1, c));
        }
    }
}

/// Each shard has equal weight: if one thread makes any number of enqueues on a
/// new buffer, as many as fit, and nobody else is at it, every call succeeds
/// without waiting, every shard holds the number of calls divided by the number
/// of shards, rounded down, or one item more, and the loads of any two shards are
/// at most one item apart.
pub proof fn law_enqueues_of_one_thread_spread_evenly<T>(
    run: ThreadRun<T>,
    per_shard: nat,
    count: nat,
)
    requires
        per_shard > 0,
        0 < count <= usize::MAX,
        run.on_new_buffer(per_shard, count),
        run.items.len() <= Shards::<T>::empty(per_shard, count).capacity(),
    ensures
        forall|i: int|
            0 <= i < run.items.len() ==> #[trigger] run.statuses[i] == EnqStatus::Success,
        forall|i: int, other: Cursor|
            0 <= i < run.items.len() ==> !#[trigger] run.states[i].search_goes_on(
                Acquire::Enqueue,
                false,
                Cursor::starting_at(run.starts[i]),
                other,
            ),
        forall|s: int|
            0 <= s < count ==> {
                let load = (#[trigger] run.states.last().rings[s]).queue.len();
                load == run.items.len() / count || load == run.items.len() / count + 1
            },
        forall|s: int, t: int|
            0 <= s < count && 0 <= t < count ==> (
            #[trigger] run.states.last().rings[s]).queue.len() <= (
            #[trigger] run.states.last().rings[t]).queue.len() + 1,
{
    let n = run.items.len();
    if n > 0 {
        assert forall|i: int| 0 <= i < n implies #[trigger] run.statuses[i]
            == EnqStatus::Success by {
            lemma_dealt_out(run, per_shard, count, i + 1);
        }
        assert forall|i: int, other: Cursor| 0 <= i < n implies !#[trigger] run.states[i].search_goes_on(
            Acquire::Enqueue,
            false,
            Cursor::starting_at(run.starts[i]),
            other,
        ) by {
            lemma_dealt_out(run, per_shard, count, i + 1);
        }
        lemma_dealt_out(run, per_shard, count, n as int);
    } else {
        vstd::arithmetic::div_mod::lemma_basic_div(0, count as int);
    }
}

/// Dequeues that one thread makes one after the other: the shards before the
/// first of them and after each, the shard that each search starts with, and what
/// each call gives.
pub struct ThreadDrain<T> {
    pub states: Seq<Shards<T>>,
    pub starts: Seq<int>,
    pub items: Seq<Option<T>>,
}

impl<T> ThreadDrain<T> {
    /// The thread works on a full buffer that nobody else is at. Every entry of it
    /// is an item, as enqueues put nothing else in. The first search starts with
    /// any shard, and every other one with the shard after that which the search
    /// before started with.
    pub open spec fn on_full_buffer(self, full: Shards<T>) -> bool {
        let n = self.items.len();
        let count = full.count();
        &&& full.wf()
        &&& count <= usize::MAX
        &&& full.is_full()
        &&& untouched(full)
        &&& forall|s: int, j: int|
            0 <= s < count && 0 <= j < full.rings[s].queue.len() ==> (
            #[trigger] full.rings[s].queue[j]) is Some
        &&& self.states.len() == n + 1
        &&& self.starts.len() == n
        &&& self.states[0] == full
        &&& n > 0 ==> 0 <= self.starts[0] < count
        &&& forall|i: int|
            0 < i < n ==> #[trigger] self.starts[i] == around(self.starts[i - 1], 1, count as int)
        &&& forall|i: int| 0 <= i < n ==> #[trigger] self.step(i)
    }

    /// The call with number `i`.
    pub open spec fn step(self, i: int) -> bool {
        dequeues(
            self.states[i],
            false,
            Cursor::starting_at(self.starts[i]),
            self.items[i],
            self.states[i + 1],
        )
    }
}

/// After `i` calls every shard has lost its share of them from the front.
proof fn lemma_taken_in_turn<T>(run: ThreadDrain<T>, full: Shards<T>, i: int)
    requires
        run.on_full_buffer(full),
        0 < run.items.len() <= full.capacity(),
        0 <= i <= run.items.len(),
    ensures
        run.states[i].wf(),
        run.states[i].count() == full.count(),
        run.states[i].per_shard == full.per_shard,
        untouched(run.states[i]),
        i < run.items.len() ==> run.starts[i] == around(
            run.starts[0],
            i,
            full.count() as int,
        ),
        forall|s: int|
            0 <= s < full.count() ==> {
                let lost = share(run.starts[0], s, i as nat, full.count());
                &&& lost <= full.per_shard
                &&& (#[trigger] run.states[i].rings[s]).queue == full.rings[s].queue.skip(
                    lost as int,
                )
            },
        i > 0 ==> run.items[i - 1] == full.rings[run.starts[i - 1]].queue[(i - 1)
            / full.count() as int],
        i > 0 ==> run.items[i - 1] is Some,
        i > 0 ==> forall|other: Cursor|
            !#[trigger] run.states[i - 1].search_goes_on(
                Acquire::Dequeue,
                false,
                Cursor::starting_at(run.starts[i - 1]),
                other,
            ),
    decreases i,
{
    let start = run.starts[0];
    let count = full.count();
    let per_shard = full.per_shard;
    let c = count as int;
    law_full_and_empty_go_by_the_shards(full);
    assert forall|s: int| 0 <= s < count implies (#[trigger] full.rings[s]).queue.len()
        == per_shard by {
        assert(full.rings[s].is_full());
    }
    if i == 0 {
        vstd::arithmetic::div_mod::lemma_small_mod(0, count);
        vstd::arithmetic::div_mod::lemma_basic_div(0, c);
        lemma_around(start, 0, c);
        assert forall|s: int| 0 <= s < count implies (#[trigger] run.states[0].rings[s]).queue
            == full.rings[s].queue.skip(0) by {
            assert(full.rings[s].queue.skip(0) =~= full.rings[s].queue);
        }
    } else {
        let k = i - 1;
        lemma_taken_in_turn(run, full, k);
        assert(run.step(k));
        let m = run.states[k];
        let at = run.starts[k];
        let turns = k / c;
        lemma_share_grows(start, k as nat, count);
        lemma_turns_fit(k, per_shard, count);
        let ring = m.rings[at];
        assert(ring.queue == full.rings[at].queue.skip(turns));
        assert(ring.queue.len() == per_shard - turns);
        assert(ring.queue[0] == full.rings[at].queue[turns]);
        law_full_and_empty_go_by_the_shards(m);
        assert(!ring.is_empty());
        assert(!m.stops(Acquire::Dequeue));
        assert(m.decides(Acquire::Dequeue, false, at));
        let (found, taken, stopped) = choose|
            found: Option<usize>,
            taken: Shards<T>,
            stopped: Cursor,
        |
            {
                &&& #[trigger] m.search_ends(
                    Acquire::Dequeue,
                    false,
                    Cursor::starting_at(at),
                    found,
                    taken,
                    stopped,
                )
                &&& match found {
                    Some(s) => run.items[k] == taken.rings[s as int].queue[0] && run.states[i]
                        == taken.remove(s as int),
                    None => run.items[k] is None && run.states[i] == taken,
                }
            };
        lemma_first_look_decides(m, Acquire::Dequeue, at, found, taken, stopped);
        let post = run.states[i];
        assert(post == m.take(at).remove(at));
        assert(post.rings =~= m.rings.update(at, ring.pop()));
        lemma_around(ring.head as int, 1, per_shard as int);
        assert forall|s: int| 0 <= s < count implies {
            let lost = share(start, s, i as nat, count);
            &&& lost <= per_shard
            &&& (#[trigger] post.rings[s]).queue == full.rings[s].queue.skip(lost as int)
        } by {
            let before = share(start, s, k as nat, count);
            assert(m.rings[s].queue == full.rings[s].queue.skip(before as int));
            assert(share(start, s, i as nat, count) == before + if s == at {
                1nat
            } else {
                0
            });
            if s == at {
                assert(post.rings[s].queue =~= full.rings[s].queue.skip(
                    (before + 1) as int,
                ));
            }
        }
        if i < run.items.len() {
            vstd::arithmetic::div_mod::lemma_add_mod_noop_right(1, start + k, c);
            assert(run.starts[i] == around(run.starts[i - 1], 1, c));
        }
    }
}

/// Each shard has equal weight for dequeues too: if one thread makes any number
/// of dequeues on a full buffer, at most as many as it holds items, and nobody
/// else is at it, every call gives an item without waiting, the oldest one left in
/// the shard whose turn it is. Every shard has then lost the number of calls
/// divided by the number of shards, rounded down, or one entry more, and the loads
/// of any two shards are at most one entry apart. A poisoned buffer is no
/// exception.
pub proof fn law_dequeues_of_one_thread_drain_evenly<T>(run: ThreadDrain<T>, full: Shards<T>)
    requires
        run.on_full_buffer(full),
        run.items.len() <= full.capacity(),
    ensures
        forall|i: int|
            0 <= i < run.items.len() ==> {
                &&& (#[trigger] run.items[i]) is Some
                &&& run.items[i] == full.rings[run.starts[i]].queue[i / full.count() as int]
            },
        forall|i: int, other: Cursor|
            0 <= i < run.items.len() ==> !#[trigger] run.states[i].search_goes_on(
                Acquire::Dequeue,
                false,
                Cursor::starting_at(run.starts[i]),
                other,
            ),
        forall|s: int|
            0 <= s < full.count() ==> {
                let lost = full.per_shard - (
                #[trigger] run.states.last().rings[s]).queue.len();
                lost == run.items.len() / full.count() || lost == run.items.len() / full.count()
                    + 1
            },
        forall|s: int, t: int|
            0 <= s < full.count() && 0 <= t < full.count() ==> (
            #[trigger] run.states.last().rings[s]).queue.len() <= (
            #[trigger] run.states.last().rings[t]).queue.len() + 1,
{
    let n = run.items.len();
    law_full_and_empty_go_by_the_shards(full);
    assert forall|s: int| 0 <= s < full.count() implies (#[trigger] full.rings[s]).queue.len()
        == full.per_shard by {
        assert(full.rings[s].is_full());
    }
    if n > 0 {
        assert forall|i: int| 0 <= i < n implies {
            &&& (#[trigger] run.items[i]) is Some
            &&& run.items[i] == full.rings[run.starts[i]].queue[i / full.count() as int]
        } by {
            lemma_taken_in_turn(run, full, i + 1);
        }
        assert forall|i: int, other: Cursor|
            0 <= i < n implies !#[trigger] run.states[i].search_goes_on(
            Acquire::Dequeue,
            false,
            Cursor::starting_at(run.starts[i]),
            other,
        ) by {
            lemma_taken_in_turn(run, full, i + 1);
        }
        lemma_taken_in_turn(run, full, n as int);
        assert forall|s: int| 0 <= s < full.count() implies (
        #[trigger] run.states.last().rings[s]).queue.len() == full.per_shard - share(
            run.starts[0],
            s,
            n,
            full.count(),
        ) by {
            assert(run.states[n as int].rings[s] == run.states.last().rings[s]);
        }
    } else {
        vstd::arithmetic::div_mod::lemma_basic_div(0, full.count() as int);
    }
}

/// A call on a buffer.
pub enum Call<T> {
    Enqueue(T),
    Dequeue,
    Clear,
}

/// The call, on a single ring that is not poisoned, does not have to wait, gives
/// `item`, and leads from `pre` to `post`.
pub open spec fn ring_call<T>(
    pre: Ring<T>,
    call: Call<T>,
    item: Option<T>,
    post: Ring<T>,
) -> bool {
    match call {
        Call::Enqueue(given) => !pre.is_full() && item is None && post == pre.push(Some(given)),
        Call::Dequeue => !pre.is_empty() && item == pre.queue[0] && post == pre.pop(),
        Call::Clear => item is None && post == Ring::<T>::empty(pre.capacity),
    }
}

/// The call, on a buffer of one shard behind a lock, does not have to wait, gives
/// `item`, and leads from `pre` to `post`. Every search starts with the only
/// shard.
pub open spec fn sharded_call<T>(
    pre: Shards<T>,
    call: Call<T>,
    item: Option<T>,
    post: Shards<T>,
) -> bool {
    let cursor = Cursor::starting_at(0);
    match call {
        Call::Enqueue(given) => item is None && enqueues(
            pre,
            false,
            cursor,
            given,
            EnqStatus::Success,
            post,
        ),
        Call::Dequeue => dequeues(pre, false, cursor, item, post),
        Call::Clear => item is None && post == pre.cleared(),
    }
}

/// The call, on a buffer of one shard without a lock, does not have to wait, gives
/// `item`, and leads from `pre` to `post`. Every search starts with the only
/// shard.
pub open spec fn lock_free_call<T>(
    pre: LockFree<T>,
    call: Call<T>,
    item: Option<T>,
    post: LockFree<T>,
) -> bool {
    let cursor = Cursor::starting_at(0);
    match call {
        Call::Enqueue(given) => {
            &&& item is None
            &&& enqueues(
                pre.shards,
                pre.global_flag,
                cursor,
                given,
                EnqStatus::Success,
                post.shards,
            )
            &&& post.global_flag == pre.global_flag
        },
        Call::Dequeue => {
            &&& dequeues(pre.shards, pre.global_flag, cursor, item, post.shards)
            &&& post.global_flag == pre.global_flag
        },
        Call::Clear => {
            &&& item is None
            &&& pre.sweeps_all(Progress::none())
            &&& post == pre.cleared()
        },
    }
}

/// The only shard of the buffer is `ring`, nobody is at work on it, and the
/// buffer is not poisoned.
pub open spec fn one_shard<T>(m: Shards<T>, ring: Ring<T>) -> bool {
    &&& m.wf()
    &&& m.count() == 1
    &&& m.rings[0] == ring
    &&& !m.poisoned
    &&& !m.taken[0]
}

/// A call on a buffer of one shard does what the same call does on the single
/// ring, and leaves the buffer such a buffer again.
proof fn lemma_one_shard_calls<T>(
    m: Shards<T>,
    ring: Ring<T>,
    call: Call<T>,
    item: Option<T>,
    post: Shards<T>,
)
    requires
        one_shard(m, ring),
        sharded_call(m, call, item, post),
    ensures
        ring_call(ring, call, item, post.rings[0]),
        one_shard(post, post.rings[0]),
{
    let cursor = Cursor::starting_at(0);
    match call {
        Call::Enqueue(given) => {
            let (found, taken, stopped) = choose|
                found: Option<usize>,
                taken: Shards<T>,
                stopped: Cursor,
            |
                {
                    &&& #[trigger] m.search_ends(
                        Acquire::Enqueue,
                        false,
                        cursor,
                        found,
                        taken,
                        stopped,
                    )
                    &&& match found {
                        Some(s) => post == taken.store(s as int, Some(given)),
                        None => false,
                    }
                };
            lemma_only_shard_decides(m, Acquire::Enqueue, found, taken, stopped);
        },
        Call::Dequeue => {
            let (found, taken, stopped) = choose|
                found: Option<usize>,
                taken: Shards<T>,
                stopped: Cursor,
            |
                {
                    &&& #[trigger] m.search_ends(
                        Acquire::Dequeue,
                        false,
                        cursor,
                        found,
                        taken,
                        stopped,
                    )
                    &&& match found {
                        Some(s) => item == taken.rings[s as int].queue[0] && post == taken.remove(
                            s as int,
                        ),
                        None => item is None && post == taken,
                    }
                };
            lemma_only_shard_decides(m, Acquire::Dequeue, found, taken, stopped);
            lemma_around(ring.head as int, 1, m.per_shard as int);
        },
        Call::Clear => {},
    }
}

/// A search among one shard ends only there.
proof fn lemma_only_shard_decides<T>(
    m: Shards<T>,
    acquire: Acquire,
    found: Option<usize>,
    taken: Shards<T>,
    stopped: Cursor,
)
    requires
        m.wf(),
        m.count() == 1,
        !m.poisoned,
        m.search_ends(acquire, false, Cursor::starting_at(0), found, taken, stopped),
    ensures
        m.admits(acquire, 0),
        found == Some(0usize),
        taken == m.take(0),
{
    let k = choose|k: int|
        #[trigger] m.decided_after(acquire, false, Cursor::starting_at(0), k);
    lemma_around(0, 0, 1);
    assert(k == 0);
    lemma_first_look_decides(m, acquire, 0, found, taken, stopped);
}

/// A task at a buffer of one shard has to wait exactly when it would have to wait
/// at the single ring: to enqueue while the ring is full, and to dequeue while it
/// is empty.
pub proof fn law_one_shard_waits_as_the_single_ring<T>(m: Shards<T>, ring: Ring<T>)
    requires
        one_shard(m, ring),
    ensures
        (exists|other: Cursor| #[trigger]
            m.search_goes_on(Acquire::Enqueue, false, Cursor::starting_at(0), other))
            == ring.is_full(),
        (exists|other: Cursor| #[trigger]
            m.search_goes_on(Acquire::Dequeue, false, Cursor::starting_at(0), other))
            == ring.is_empty(),
{
    let cursor = Cursor::starting_at(0);
    let over = cursor.moved(1, 1).retried();
    lemma_around(0, 0, 1);
    assert(m.decides(Acquire::Enqueue, false, 0) == !ring.is_full());
    assert(m.decides(Acquire::Dequeue, false, 0) == !ring.is_empty());
    if ring.is_full() {
        assert(m.search_goes_on(Acquire::Enqueue, false, cursor, over));
    } else {
        lemma_first_look_decides(m, Acquire::Enqueue, 0, None, m, cursor);
    }
    if ring.is_empty() {
        assert(m.search_goes_on(Acquire::Dequeue, false, cursor, over));
    } else {
        lemma_first_look_decides(m, Acquire::Dequeue, 0, None, m, cursor);
    }
}

/// A number of calls on a buffer, one after the other: the buffer before the
/// first of them and after each, and what each of them gives.
pub struct CallRun<S, T> {
    pub states: Seq<S>,
    pub items: Seq<Option<T>>,
}

impl<S, T> CallRun<S, T> {
    /// These are `calls` on a buffer that is `new` at first, each of which leads
    /// on as `leads` says.
    pub open spec fn of(
        self,
        calls: Seq<Call<T>>,
        new: S,
        leads: spec_fn(S, Call<T>, Option<T>, S) -> bool,
    ) -> bool {
        &&& self.states.len() == calls.len() + 1
        &&& self.items.len() == calls.len()
        &&& self.states[0] == new
        &&& forall|i: int|
            0 <= i < calls.len() ==> leads(
                self.states[i],
                #[trigger] calls[i],
                self.items[i],
                self.states[i + 1],
            )
    }
}

/// The same calls on a single ring, on a buffer of one shard behind a lock and on
/// one without a lock.
pub open spec fn same_calls<T>(
    capacity: nat,
    calls: Seq<Call<T>>,
    single: CallRun<Ring<T>, T>,
    locked: CallRun<Shards<T>, T>,
    lock_free: CallRun<LockFree<T>, T>,
) -> bool {
    &&& single.of(
        calls,
        Ring::<T>::empty(capacity),
        |pre: Ring<T>, call: Call<T>, item: Option<T>, post: Ring<T>|
            ring_call(pre, call, item, post),
    )
    &&& locked.of(
        calls,
        Shards::<T>::empty(shard_capacity(capacity, 1), 1),
        |pre: Shards<T>, call: Call<T>, item: Option<T>, post: Shards<T>|
            sharded_call(pre, call, item, post),
    )
    &&& lock_free.of(
        calls,
        LockFree::<T>::empty(shard_capacity(capacity, 1), 1),
        |pre: LockFree<T>, call: Call<T>, item: Option<T>, post: LockFree<T>|
            lock_free_call(pre, call, item, post),
    )
}

proof fn lemma_one_shard_run<T>(
    capacity: nat,
    calls: Seq<Call<T>>,
    single: CallRun<Ring<T>, T>,
    locked: CallRun<Shards<T>, T>,
    lock_free: CallRun<LockFree<T>, T>,
    i: int,
)
    requires
        capacity >= 1,
        same_calls(capacity, calls, single, locked, lock_free),
        0 <= i <= calls.len(),
    ensures
        one_shard(locked.states[i], single.states[i]),
        one_shard(lock_free.states[i].shards, single.states[i]),
        !lock_free.states[i].global_flag,
        i > 0 ==> locked.items[i - 1] == single.items[i - 1],
        i > 0 ==> lock_free.items[i - 1] == single.items[i - 1],
    decreases i,
{
    if i == 0 {
        assert(shard_capacity(capacity, 1) == capacity);
    } else {
        let k = i - 1;
        let call = calls[k];
        lemma_one_shard_run(capacity, calls, single, locked, lock_free, k);
        let ring = single.states[k];
        assert(ring_call(ring, call, single.items[k], single.states[i]));
        assert(sharded_call(locked.states[k], call, locked.items[k], locked.states[i]));
        lemma_one_shard_calls(locked.states[k], ring, call, locked.items[k], locked.states[i]);
        let lf = lock_free.states[k];
        assert(lock_free_call(lf, call, lock_free.items[k], lock_free.states[i]));
        assert(sharded_call(lf.shards, call, lock_free.items[k], lock_free.states[i].shards));
        lemma_one_shard_calls(
            lf.shards,
            ring,
            call,
            lock_free.items[k],
            lock_free.states[i].shards,
        );
    }
}

/// With one shard all three buffers are the same first-in first-out ring: the
/// same calls, none of which has to wait and none of which poisons the buffer,
/// give the same items on all three, and leave the same in every slot.
pub proof fn law_one_shard_is_the_single_ring<T>(
    capacity: nat,
    calls: Seq<Call<T>>,
    single: CallRun<Ring<T>, T>,
    locked: CallRun<Shards<T>, T>,
    lock_free: CallRun<LockFree<T>, T>,
)
    requires
        capacity >= 1,
        same_calls(capacity, calls, single, locked, lock_free),
    ensures
        locked.items == single.items,
        lock_free.items == single.items,
        locked.states.last().rings[0] == single.states.last(),
        lock_free.states.last().shards.rings[0] == single.states.last(),
        locked.states.last().rings[0].slots() == single.states.last().slots(),
        lock_free.states.last().shards.rings[0].slots() == single.states.last().slots(),
{
    assert forall|i: int| 0 <= i < calls.len() implies locked.items[i] == single.items[i]
        && lock_free.items[i] == single.items[i] by {
        lemma_one_shard_run(capacity, calls, single, locked, lock_free, i + 1);
    }
    assert(locked.items =~= single.items);
    assert(lock_free.items =~= single.items);
    lemma_one_shard_run(capacity, calls, single, locked, lock_free, calls.len() as int);
}

} // verus!
