//! What holds of a sharded ring buffer, of its shards and of the search for one.
use vstd::prelude::*;

use crate::cursor::{backoff, Cursor, MAX_BACKOFF_MS};
use crate::ring::{around, cloned_entries, cloned_entry, lemma_around, Ring};
use crate::ring_laws::lemma_distance;
use crate::shards::{
    lemma_shard_capacity, lemma_total_bounds, lemma_total_update, shard_capacity, total, Acquire,
    InvalidIndex, Shards,
};

verus! {

/// The capacity of a buffer is the requested one, rounded up to the next
/// positive number that is divisible by the number of shards.
pub proof fn law_capacity_is_rounded_up<T>(capacity: nat, shards: nat)
    requires
        shards > 0,
    ensures
        ({
            let rounded = Shards::<T>::empty(
                shard_capacity(capacity, shards),
                shards,
            ).capacity();
            &&& rounded > 0
            &&& rounded >= capacity
            &&& rounded % shards == 0
            &&& forall|n: nat|
                n > 0 && n >= capacity && #[trigger] (n % shards) == 0 ==> n >= rounded
        }),
{
    let size = shard_capacity(capacity, shards);
    let rounded = Shards::<T>::empty(size, shards).capacity();
    lemma_shard_capacity(capacity, shards);
    assert(rounded == size * shards);
    assert(size * shards >= shards) by (nonlinear_arith)
        requires
            size >= 1,
            shards > 0,
    ;
    vstd::arithmetic::div_mod::lemma_mod_multiples_basic(size as int, shards as int);
    assert forall|n: nat| n > 0 && n >= capacity && #[trigger] (n % shards) == 0 implies n
        >= rounded by {
        let q = n / shards;
        vstd::arithmetic::div_mod::lemma_fundamental_div_mod(n as int, shards as int);
        assert(n == shards * q);
        assert(q >= size) by (nonlinear_arith)
            requires
                n == shards * q,
                n > 0,
                n >= capacity,
                shards > 0,
                capacity > 0 ==> size * shards < capacity + shards,
                capacity == 0 ==> size == 1,
        ;
        assert(shards * q >= size * shards) by (nonlinear_arith)
            requires
                q >= size,
        ;
    }
}

/// A buffer never holds more than its capacity. It is full if and only if each
/// of its shards is full, and empty if and only if each of its shards is empty.
pub proof fn law_full_and_empty_go_by_the_shards<T>(m: Shards<T>)
    requires
        m.wf(),
    ensures
        m.jobs() <= m.capacity(),
        m.is_full() <==> forall|s: int| 0 <= s < m.count() ==> (#[trigger] m.rings[s]).is_full(),
        m.is_empty() <==> forall|s: int| 0 <= s < m.count() ==> (#[trigger] m.rings[s]).is_empty(),
{
    assert forall|s: int| 0 <= s < m.count() implies (#[trigger] m.rings[s]).queue.len()
        <= m.per_shard by {
        assert(m.rings[s].wf());
    }
    lemma_total_bounds(m.rings, m.per_shard);
    assert(m.capacity() == m.per_shard * m.rings.len());
    if m.is_full() {
        assert forall|s: int| 0 <= s < m.count() implies (#[trigger] m.rings[s]).is_full() by {
            assert(m.rings[s].queue.len() == m.per_shard);
        }
    }
    if forall|s: int| 0 <= s < m.count() ==> (#[trigger] m.rings[s]).is_full() {
        assert forall|s: int| 0 <= s < m.count() implies (#[trigger] m.rings[s]).queue.len()
            == m.per_shard by {
            assert(m.rings[s].is_full());
        }
    }
    if m.is_empty() {
        assert forall|s: int| 0 <= s < m.count() implies (#[trigger] m.rings[s]).is_empty() by {
            assert(m.rings[s].queue.len() == 0);
        }
    }
    if forall|s: int| 0 <= s < m.count() ==> (#[trigger] m.rings[s]).is_empty() {
        assert forall|s: int| 0 <= s < m.count() implies (#[trigger] m.rings[s]).queue.len()
            == 0 by {
            assert(m.rings[s].is_empty());
        }
    }
}

/// A cleared buffer is as good as new, except that it stays poisoned if it was.
pub proof fn law_clear_makes_the_buffer_new<T>(m: Shards<T>)
    requires
        m.wf(),
    ensures
        m.cleared().wf(),
        m.cleared().is_empty(),
        m.cleared().capacity() == m.capacity(),
        m.cleared().poisoned == m.poisoned,
        (Shards { poisoned: false, ..m.cleared() }) == Shards::<T>::empty(m.per_shard, m.count()),
{
    assert((Shards { poisoned: false, ..m.cleared() }) =~= Shards::<T>::empty(
        m.per_shard,
        m.count(),
    ));
    lemma_total_bounds(m.cleared().rings, m.per_shard);
}

/// Taking the poison back undoes poisoning a buffer that was not poisoned, and
/// neither of them touches what the buffer holds.
pub proof fn law_clear_poison_undoes_poison<T>(m: Shards<T>)
    requires
        !m.poisoned,
    ensures
        ({
            let poisoned = Shards { poisoned: true, ..m };
            &&& poisoned.rings == m.rings
            &&& poisoned.taken == m.taken
            &&& (Shards { poisoned: false, ..poisoned }) == m
        }),
{
}

/// A round comes by every shard exactly once, wherever it starts.
pub proof fn law_round_visits_each_shard_once(start: int, shards: int, s: int)
    requires
        0 <= start < shards,
        0 <= s < shards,
    ensures
        exists|k: int| 0 <= k < shards && #[trigger] around(start, k, shards) == s,
        forall|j: int, k: int|
            0 <= j < shards && 0 <= k < shards && #[trigger] around(start, j, shards) == s
                && #[trigger] around(start, k, shards) == s ==> j == k,
{
    let k = if s >= start {
        s - start
    } else {
        s + shards - start
    };
    lemma_around(start, k, shards);
    assert forall|i: int, j: int|
        0 <= i < shards && 0 <= j < shards && #[trigger] around(start, i, shards) == s
            && #[trigger] around(start, j, shards) == s implies i == j by {
        lemma_around(start, i, shards);
        lemma_around(start, j, shards);
    }
}

/// A whole round goes by without a result if and only if there is no shard that
/// would end the search: a task sleeps only if there is nothing for it to do.
pub proof fn law_whole_round_misses_no_shard<T>(
    m: Shards<T>,
    acquire: Acquire,
    closed: bool,
    cursor: Cursor,
)
    requires
        m.wf(),
        cursor.wf(m.count()),
        cursor.spins == 0,
    ensures
        m.undecided(acquire, closed, cursor, cursor.left(m.count())) <==> forall|s: int|
            0 <= s < m.count() ==> !#[trigger] m.decides(acquire, closed, s),
{
    let n = m.count() as int;
    if m.undecided(acquire, closed, cursor, n) {
        assert forall|s: int| 0 <= s < n implies !#[trigger] m.decides(acquire, closed, s) by {
            law_round_visits_each_shard_once(cursor.current, n, s);
            let k = choose|k: int| 0 <= k < n && #[trigger] around(cursor.current, k, n) == s;
            assert(!m.decides(acquire, closed, around(cursor.current, k, n)));
        }
    }
    if forall|s: int| 0 <= s < n ==> !#[trigger] m.decides(acquire, closed, s) {
        assert forall|k: int| 0 <= k < n implies !#[trigger] m.decides(
            acquire,
            closed,
            around(cursor.current, k, n),
        ) by {
            lemma_around(cursor.current, k, n);
        }
    }
}

/// Either none of the first `steps` shards ends the search, or there is a first
/// one that does.
proof fn lemma_first_decision<T>(
    m: Shards<T>,
    acquire: Acquire,
    closed: bool,
    cursor: Cursor,
    steps: int,
)
    requires
        0 <= steps <= cursor.left(m.count()),
    ensures
        m.undecided(acquire, closed, cursor, steps) || exists|k: int|
            #[trigger] m.decided_after(acquire, closed, cursor, k),
    decreases steps,
{
    if steps > 0 {
        lemma_first_decision(m, acquire, closed, cursor, steps - 1);
        if m.undecided(acquire, closed, cursor, steps - 1) {
            let s = around(cursor.current, steps - 1, m.count() as int);
            if m.decides(acquire, closed, s) {
                assert(m.decided_after(acquire, closed, cursor, steps - 1));
            }
        }
    }
}

/// Within a round a search either ends or goes on, and never both.
pub proof fn law_search_ends_or_goes_on<T>(
    m: Shards<T>,
    acquire: Acquire,
    closed: bool,
    cursor: Cursor,
)
    requires
        cursor.wf(m.count()),
    ensures
        (exists|found: Option<usize>, after: Shards<T>, stopped: Cursor| #[trigger]
            m.search_ends(acquire, closed, cursor, found, after, stopped)) != (exists|
            stopped: Cursor,
        | #[trigger] m.search_goes_on(acquire, closed, cursor, stopped)),
{
    let n = m.count();
    let left = cursor.left(n);
    lemma_first_decision(m, acquire, closed, cursor, left);
    if m.undecided(acquire, closed, cursor, left) {
        assert(m.search_goes_on(acquire, closed, cursor, cursor.moved(left, n).retried()));
    } else {
        let k = choose|k: int| #[trigger] m.decided_after(acquire, closed, cursor, k);
        let s = around(cursor.current, k, n as int);
        assert(m.search_ends(
            acquire,
            closed,
            cursor,
            m.verdict(acquire, s),
            m.decided(acquire, s),
            cursor.moved(k, n),
        ));
    }
}

/// A search has only one way to end.
pub proof fn law_search_ends_in_one_way<T>(
    m: Shards<T>,
    acquire: Acquire,
    closed: bool,
    cursor: Cursor,
    found: Option<usize>,
    after: Shards<T>,
    stopped: Cursor,
    found2: Option<usize>,
    after2: Shards<T>,
    stopped2: Cursor,
)
    requires
        m.search_ends(acquire, closed, cursor, found, after, stopped),
        m.search_ends(acquire, closed, cursor, found2, after2, stopped2),
    ensures
        found == found2,
        after == after2,
        stopped == stopped2,
{
    let n = m.count() as int;
    let j = choose|j: int|
        {
            let s = around(cursor.current, j, n);
            &&& #[trigger] m.decided_after(acquire, closed, cursor, j)
            &&& found == m.verdict(acquire, s)
            &&& after == m.decided(acquire, s)
            &&& stopped == cursor.moved(j, m.count())
        };
    let k = choose|k: int|
        {
            let s = around(cursor.current, k, n);
            &&& #[trigger] m.decided_after(acquire, closed, cursor, k)
            &&& found2 == m.verdict(acquire, s)
            &&& after2 == m.decided(acquire, s)
            &&& stopped2 == cursor.moved(k, m.count())
        };
    assert(m.decides(acquire, closed, around(cursor.current, j, n)));
    assert(m.decides(acquire, closed, around(cursor.current, k, n)));
}

/// A task that found a shard holds it afterwards, nobody held it before, the
/// shard is fit for what the task wants, and nothing else has changed.
pub proof fn law_found_shard_is_held<T>(
    m: Shards<T>,
    acquire: Acquire,
    closed: bool,
    cursor: Cursor,
    s: usize,
    after: Shards<T>,
    stopped: Cursor,
)
    requires
        m.wf(),
        m.count() <= usize::MAX,
        cursor.wf(m.count()),
        m.search_ends(acquire, closed, cursor, Some(s), after, stopped),
    ensures
        !closed,
        s < m.count(),
        !m.taken[s as int],
        after.held_for(acquire, s as int),
        after == m.take(s as int),
        after.wf(),
{
    let n = m.count() as int;
    let k = choose|k: int|
        {
            let t = around(cursor.current, k, n);
            &&& #[trigger] m.decided_after(acquire, closed, cursor, k)
            &&& Some(s) == m.verdict(acquire, t)
            &&& after == m.decided(acquire, t)
            &&& stopped == cursor.moved(k, m.count())
        };
    lemma_around(cursor.current, k, n);
}

/// A search for a shard to enqueue to never ends with nothing: no item is ever
/// turned away.
pub proof fn law_enqueue_is_never_turned_away<T>(
    m: Shards<T>,
    closed: bool,
    cursor: Cursor,
    found: Option<usize>,
    after: Shards<T>,
    stopped: Cursor,
)
    requires
        m.search_ends(Acquire::Enqueue, closed, cursor, found, after, stopped),
    ensures
        found is Some,
{
}

/// A search for a shard to dequeue from ends with nothing if and only if the
/// buffer is poisoned and empty: what is left in a poisoned buffer can still be
/// dequeued.
pub proof fn law_dequeue_stops_only_when_drained<T>(
    m: Shards<T>,
    closed: bool,
    cursor: Cursor,
    found: Option<usize>,
    after: Shards<T>,
    stopped: Cursor,
)
    requires
        m.search_ends(Acquire::Dequeue, closed, cursor, found, after, stopped),
    ensures
        found is None <==> m.poisoned && m.is_empty(),
        found is None ==> after == m,
{
}

/// While the buffer is closed no search ends.
pub proof fn law_closed_buffer_admits_nobody<T>(
    m: Shards<T>,
    acquire: Acquire,
    cursor: Cursor,
    found: Option<usize>,
    after: Shards<T>,
    stopped: Cursor,
)
    ensures
        !m.search_ends(acquire, true, cursor, found, after, stopped),
{
}

/// The pauses between rounds start at one millisecond, double until they come to
/// the limit of twenty milliseconds, and never exceed it.
pub proof fn law_backoff_doubles_up_to_the_limit(attempt: nat)
    ensures
        backoff(0) == 1,
        backoff(attempt) >= 1,
        backoff(attempt) <= MAX_BACKOFF_MS,
        backoff(attempt) <= backoff(attempt + 1),
        backoff(attempt + 1) == if 2 * backoff(attempt) < MAX_BACKOFF_MS {
            2 * backoff(attempt)
        } else {
            MAX_BACKOFF_MS as nat
        },
        attempt >= 5 ==> backoff(attempt) == 20,
{
    vstd::arithmetic::power2::lemma2_to64();
}

/// A shard gets the least number of slots, at least one, with which all shards
/// together have room for what was asked for.
pub proof fn law_shards_are_no_larger_than_needed(capacity: nat, shards: nat)
    requires
        shards > 0,
    ensures
        shard_capacity(capacity, shards) >= 1,
        shard_capacity(capacity, shards) * shards >= capacity,
        forall|size: nat| size >= 1 && #[trigger] (size * shards) >= capacity ==> size
            >= shard_capacity(capacity, shards),
{
    lemma_shard_capacity(capacity, shards);
    let least = shard_capacity(capacity, shards);
    assert forall|size: nat| size >= 1 && #[trigger] (size * shards) >= capacity implies size
        >= least by {
        if size < least {
            assert(size * shards + shards <= least * shards) by (nonlinear_arith)
                requires
                    size + 1 <= least,
            ;
        }
    }
}

/// A new buffer has the shards that were asked for, each a ring of the size that
/// was asked for. None of them holds an entry or is taken, and the buffer is not
/// poisoned.
pub proof fn law_new_buffer_is_empty_and_free<T>(per_shard: nat, count: nat)
    ensures
        Shards::<T>::empty(per_shard, count).per_shard == per_shard,
        !Shards::<T>::empty(per_shard, count).poisoned,
        Shards::<T>::empty(per_shard, count).count() == count,
        Shards::<T>::empty(per_shard, count).rings.len() == count,
        Shards::<T>::empty(per_shard, count).taken.len() == count,
        forall|s: int|
            0 <= s < count ==> !#[trigger] Shards::<T>::empty(per_shard, count).taken[s],
        forall|s: int|
            0 <= s < count ==> {
                let ring = #[trigger] Shards::<T>::empty(per_shard, count).rings[s];
                ring.capacity == per_shard && ring.head == 0 && ring.queue.len() == 0
            },
{
}

/// The number of jobs is the sum over the shards: what the first of two groups of
/// shards holds and what the second holds are together what both hold.
pub proof fn law_jobs_are_summed_over_the_shards<T>(
    ring: Ring<T>,
    first: Seq<Ring<T>>,
    second: Seq<Ring<T>>,
)
    ensures
        total(seq![ring]) == ring.queue.len(),
        total(first + second) == total(first) + total(second),
    decreases second.len(),
{
    let one = seq![ring];
    assert(one.drop_last() =~= Seq::<Ring<T>>::empty());
    assert(total(one.drop_last()) == 0);
    if second.len() == 0 {
        assert(first + second =~= first);
    } else {
        law_jobs_are_summed_over_the_shards(ring, first, second.drop_last());
        assert((first + second).drop_last() =~= first + second.drop_last());
        assert((first + second).last() == second.last());
    }
}

/// A buffer is empty if and only if no shard holds an entry, and full if and only
/// if every shard holds as many entries as it has slots. Its capacity is the size
/// of a shard times the number of shards.
pub proof fn law_full_and_empty_go_by_the_entries<T>(m: Shards<T>)
    requires
        m.wf(),
    ensures
        m.count() == m.rings.len(),
        m.capacity() == m.per_shard * m.rings.len(),
        m.jobs() == total(m.rings),
        m.is_empty() <==> forall|s: int|
            0 <= s < m.rings.len() ==> (#[trigger] m.rings[s]).queue.len() == 0,
        m.is_full() <==> forall|s: int|
            0 <= s < m.rings.len() ==> (#[trigger] m.rings[s]).queue.len() == m.per_shard,
        m.is_empty() <==> total(m.rings) == 0,
        m.is_full() <==> total(m.rings) == m.per_shard * m.rings.len(),
{
    assert forall|s: int| 0 <= s < m.rings.len() implies (#[trigger] m.rings[s]).queue.len()
        <= m.per_shard by {
        assert(m.rings[s].wf());
    }
    lemma_total_bounds(m.rings, m.per_shard);
}

/// A task that looks at a shard to enqueue ends its search there if and only if the
/// buffer is open, the shard is free and holds fewer entries than it has slots.
/// Neither the other shards nor where the entries lie in the ring make a
/// difference. The task then holds the shard, and nothing else has changed.
pub proof fn law_free_shard_with_room_takes_an_item<T>(m: Shards<T>, closed: bool, s: int)
    requires
        m.wf(),
        m.count() <= usize::MAX,
        0 <= s < m.rings.len(),
    ensures
        m.decides(Acquire::Enqueue, closed, s) <==> {
            &&& !closed
            &&& !m.taken[s]
            &&& m.rings[s].queue.len() < m.per_shard
        },
        m.verdict(Acquire::Enqueue, s) == Some(s as usize),
        m.decided(Acquire::Enqueue, s) == (Shards { taken: m.taken.update(s, true), ..m }),
{
    assert(m.rings[s].wf());
}

/// A task that looks at a shard to dequeue ends its search there if and only if the
/// buffer is open, the shard is free and it holds an entry, or the buffer is
/// poisoned and no shard holds one. In the first case the task then holds the shard,
/// in the second it gets none; nothing else has changed.
pub proof fn law_free_shard_with_an_entry_gives_it<T>(m: Shards<T>, closed: bool, s: int)
    requires
        m.wf(),
        m.count() <= usize::MAX,
        0 <= s < m.rings.len(),
    ensures
        m.rings[s].queue.len() > 0 ==> {
            &&& m.decides(Acquire::Dequeue, closed, s) <==> !closed && !m.taken[s]
            &&& m.verdict(Acquire::Dequeue, s) == Some(s as usize)
            &&& m.decided(Acquire::Dequeue, s) == (Shards { taken: m.taken.update(s, true), ..m })
        },
        m.rings[s].queue.len() == 0 ==> {
            &&& m.decides(Acquire::Dequeue, closed, s) <==> {
                &&& !closed
                &&& !m.taken[s]
                &&& m.poisoned
                &&& forall|u: int|
                    0 <= u < m.rings.len() ==> (#[trigger] m.rings[u]).queue.len() == 0
            }
            &&& m.decides(Acquire::Dequeue, closed, s) ==> m.verdict(Acquire::Dequeue, s) is None
            &&& m.decides(Acquire::Dequeue, closed, s) ==> m.decided(Acquire::Dequeue, s) == m
        },
{
    law_full_and_empty_go_by_the_entries(m);
}

/// A search ends at the nearest shard that decides it, if that is still to come in
/// this round, and goes on if there is none.
proof fn lemma_search_by_distance<T>(
    m: Shards<T>,
    acquire: Acquire,
    closed: bool,
    cursor: Cursor,
    found: Option<usize>,
    after: Shards<T>,
    stopped: Cursor,
)
    requires
        m.wf(),
        0 <= cursor.current < m.rings.len(),
        0 <= cursor.spins < m.rings.len(),
    ensures
        ({
            let n = m.rings.len() as int;
            let from = cursor.current;
            let t = stopped.current;
            m.search_ends(acquire, closed, cursor, found, after, stopped) <==> {
                &&& 0 <= t < n
                &&& (t - from) % n < n - cursor.spins
                &&& m.decides(acquire, closed, t)
                &&& forall|u: int|
                    0 <= u < n && #[trigger] m.decides(acquire, closed, u) ==> (t - from) % n <= (u
                        - from) % n
                &&& found == m.verdict(acquire, t)
                &&& after == m.decided(acquire, t)
                &&& stopped.spins == cursor.spins + (t - from) % n
                &&& stopped.attempt == cursor.attempt
            }
        }),
        ({
            let n = m.rings.len() as int;
            m.search_goes_on(acquire, closed, cursor, stopped) <==> {
                &&& forall|u: int|
                    0 <= u < n && #[trigger] m.decides(acquire, closed, u) ==> (u - cursor.current)
                        % n >= n - cursor.spins
                &&& stopped.current == (cursor.current - cursor.spins) % n
                &&& stopped.spins == 0
                &&& stopped.attempt == if cursor.attempt < i32::MAX {
                    cursor.attempt + 1
                } else {
                    cursor.attempt
                }
            }
        }),
{
    let n = m.rings.len() as int;
    let from = cursor.current;
    let left = cursor.left(m.count());
    assert forall|u: int| 0 <= u < n implies 0 <= #[trigger] ((u - from) % n) < n && around(
        from,
        (u - from) % n,
        n,
    ) == u by {
        lemma_distance(from, u, n);
    }
    assert forall|k: int| 0 <= k < n implies 0 <= #[trigger] around(from, k, n) < n && (around(
        from,
        k,
        n,
    ) - from) % n == k by {
        lemma_around(from, k, n);
        lemma_distance(from, around(from, k, n), n);
    }
    let t = stopped.current;
    let steps = (t - from) % n;
    if m.search_ends(acquire, closed, cursor, found, after, stopped) {
        let k = choose|k: int|
            {
                let s = around(from, k, n);
                &&& #[trigger] m.decided_after(acquire, closed, cursor, k)
                &&& found == m.verdict(acquire, s)
                &&& after == m.decided(acquire, s)
                &&& stopped == cursor.moved(k, m.count())
            };
        assert(t == around(from, k, n));
        assert(steps == k);
        lemma_around(cursor.spins, k, n);
        assert forall|u: int| 0 <= u < n && #[trigger] m.decides(acquire, closed, u) implies steps
            <= (u - from) % n by {
            let j = (u - from) % n;
            if j < k {
                assert(!m.decides(acquire, closed, around(from, j, n)));
            }
        }
    }
    if {
        &&& 0 <= t < n
        &&& steps < n - cursor.spins
        &&& m.decides(acquire, closed, t)
        &&& forall|u: int|
            0 <= u < n && #[trigger] m.decides(acquire, closed, u) ==> steps <= (u - from) % n
        &&& found == m.verdict(acquire, t)
        &&& after == m.decided(acquire, t)
        &&& stopped.spins == cursor.spins + steps
        &&& stopped.attempt == cursor.attempt
    } {
        assert(around(from, steps, n) == t);
        lemma_around(cursor.spins, steps, n);
        assert forall|k: int| 0 <= k < steps implies !#[trigger] m.decides(
            acquire,
            closed,
            around(from, k, n),
        ) by {
            let u = around(from, k, n);
            assert((u - from) % n == k);
        }
        assert(m.decided_after(acquire, closed, cursor, steps));
        assert(stopped =~= cursor.moved(steps, m.count()));
    }
    lemma_around(cursor.spins, left, n);
    lemma_around(from, left, n);
    lemma_distance(cursor.spins, from, n);
    if m.undecided(acquire, closed, cursor, left) {
        assert forall|u: int| 0 <= u < n && #[trigger] m.decides(acquire, closed, u) implies (u
            - from) % n >= left by {
            let j = (u - from) % n;
            if j < left {
                assert(!m.decides(acquire, closed, around(from, j, n)));
            }
        }
    }
    if forall|u: int|
        0 <= u < n && #[trigger] m.decides(acquire, closed, u) ==> (u - from) % n >= left {
        assert forall|k: int| 0 <= k < left implies !#[trigger] m.decides(
            acquire,
            closed,
            around(from, k, n),
        ) by {
            let u = around(from, k, n);
            assert((u - from) % n == k);
        }
    }
    let over = cursor.moved(left, m.count()).retried();
    assert(over.current == (from - cursor.spins) % n);
    assert(over.spins == 0);
    if stopped.current == over.current && stopped.spins == 0 && stopped.attempt == over.attempt {
        assert(stopped =~= over);
    }
}

/// A search to enqueue ends at the first shard from the cursor on that is free and
/// holds fewer entries than it has slots; the task then holds that shard, and
/// nothing else has changed. It goes on if and only if the buffer is closed or no
/// shard that is left of the round is free and has room. What a shard held before,
/// where its head stands and what other shards hold make no difference.
pub proof fn law_enqueue_gets_the_first_free_shard_with_room<T>(
    m: Shards<T>,
    closed: bool,
    cursor: Cursor,
    found: Option<usize>,
    after: Shards<T>,
    stopped: Cursor,
)
    requires
        m.wf(),
        m.rings.len() <= usize::MAX,
        0 <= cursor.current < m.rings.len(),
        0 <= cursor.spins < m.rings.len(),
    ensures
        ({
            let n = m.rings.len() as int;
            let from = cursor.current;
            let t = stopped.current;
            m.search_ends(Acquire::Enqueue, closed, cursor, found, after, stopped) <==> {
                &&& !closed
                &&& 0 <= t < n
                &&& found == Some(t as usize)
                &&& !m.taken[t]
                &&& m.rings[t].queue.len() < m.per_shard
                &&& (t - from) % n < n - cursor.spins
                &&& forall|u: int|
                    0 <= u < n && !m.taken[u] && (#[trigger] m.rings[u]).queue.len() < m.per_shard
                        ==> (t - from) % n <= (u - from) % n
                &&& after == (Shards { taken: m.taken.update(t, true), ..m })
                &&& stopped.spins == cursor.spins + (t - from) % n
                &&& stopped.attempt == cursor.attempt
            }
        }),
        ({
            let n = m.rings.len() as int;
            m.search_goes_on(Acquire::Enqueue, closed, cursor, stopped) <==> {
                &&& closed || forall|u: int|
                    0 <= u < n && !m.taken[u] && (#[trigger] m.rings[u]).queue.len() < m.per_shard
                        ==> (u - cursor.current) % n >= n - cursor.spins
                &&& stopped.current == (cursor.current - cursor.spins) % n
                &&& stopped.spins == 0
                &&& stopped.attempt == if cursor.attempt < i32::MAX {
                    cursor.attempt + 1
                } else {
                    cursor.attempt
                }
            }
        }),
{
    let n = m.rings.len() as int;
    lemma_search_by_distance(m, Acquire::Enqueue, closed, cursor, found, after, stopped);
    assert forall|u: int| 0 <= u < n implies #[trigger] m.decides(Acquire::Enqueue, closed, u) == (
    !closed && !m.taken[u] && m.rings[u].queue.len() < m.per_shard) by {
        law_free_shard_with_room_takes_an_item(m, closed, u);
    }
    assert forall|u: int|
        0 <= u < n && !closed && !m.taken[u] && (#[trigger] m.rings[u]).queue.len()
            < m.per_shard implies m.decides(Acquire::Enqueue, closed, u) by {}
    if 0 <= stopped.current < n {
        law_free_shard_with_room_takes_an_item(m, closed, stopped.current);
    }
}

/// Unless the buffer is poisoned and no shard holds an entry, a search to dequeue
/// ends at the first shard from the cursor on that is free and holds an entry; the
/// task then holds that shard, and nothing else has changed. It goes on if and only
/// if the buffer is closed or no shard that is left of the round is free and holds
/// an entry. How much other shards hold makes no difference.
pub proof fn law_dequeue_gets_the_first_free_shard_with_an_entry<T>(
    m: Shards<T>,
    closed: bool,
    cursor: Cursor,
    found: Option<usize>,
    after: Shards<T>,
    stopped: Cursor,
)
    requires
        m.wf(),
        m.rings.len() <= usize::MAX,
        0 <= cursor.current < m.rings.len(),
        0 <= cursor.spins < m.rings.len(),
        !m.poisoned || exists|s: int|
            0 <= s < m.rings.len() && (#[trigger] m.rings[s]).queue.len() > 0,
    ensures
        ({
            let n = m.rings.len() as int;
            let from = cursor.current;
            let t = stopped.current;
            m.search_ends(Acquire::Dequeue, closed, cursor, found, after, stopped) <==> {
                &&& !closed
                &&& 0 <= t < n
                &&& found == Some(t as usize)
                &&& !m.taken[t]
                &&& m.rings[t].queue.len() > 0
                &&& (t - from) % n < n - cursor.spins
                &&& forall|u: int|
                    0 <= u < n && !m.taken[u] && (#[trigger] m.rings[u]).queue.len() > 0 ==> (t
                        - from) % n <= (u - from) % n
                &&& after == (Shards { taken: m.taken.update(t, true), ..m })
                &&& stopped.spins == cursor.spins + (t - from) % n
                &&& stopped.attempt == cursor.attempt
            }
        }),
        ({
            let n = m.rings.len() as int;
            m.search_goes_on(Acquire::Dequeue, closed, cursor, stopped) <==> {
                &&& closed || forall|u: int|
                    0 <= u < n && !m.taken[u] && (#[trigger] m.rings[u]).queue.len() > 0 ==> (u
                        - cursor.current) % n >= n - cursor.spins
                &&& stopped.current == (cursor.current - cursor.spins) % n
                &&& stopped.spins == 0
                &&& stopped.attempt == if cursor.attempt < i32::MAX {
                    cursor.attempt + 1
                } else {
                    cursor.attempt
                }
            }
        }),
{
    let n = m.rings.len() as int;
    lemma_search_by_distance(m, Acquire::Dequeue, closed, cursor, found, after, stopped);
    assert forall|u: int| 0 <= u < n implies #[trigger] m.decides(Acquire::Dequeue, closed, u) == (
    !closed && !m.taken[u] && m.rings[u].queue.len() > 0) by {
        law_free_shard_with_an_entry_gives_it(m, closed, u);
    }
    assert forall|u: int|
        0 <= u < n && !closed && !m.taken[u] && (#[trigger] m.rings[u]).queue.len()
            > 0 implies m.decides(Acquire::Dequeue, closed, u) by {}
    if 0 <= stopped.current < n {
        law_free_shard_with_an_entry_gives_it(m, closed, stopped.current);
    }
}

/// If the buffer is poisoned and no shard holds an entry, a search to dequeue ends
/// with nothing at the first free shard from the cursor on, and nothing has changed.
/// It goes on if and only if the buffer is closed or all shards that are left of the
/// round are taken.
pub proof fn law_dequeue_stops_at_the_first_free_shard_once_drained<T>(
    m: Shards<T>,
    closed: bool,
    cursor: Cursor,
    found: Option<usize>,
    after: Shards<T>,
    stopped: Cursor,
)
    requires
        m.wf(),
        m.rings.len() <= usize::MAX,
        0 <= cursor.current < m.rings.len(),
        0 <= cursor.spins < m.rings.len(),
        m.poisoned,
        forall|s: int| 0 <= s < m.rings.len() ==> (#[trigger] m.rings[s]).queue.len() == 0,
    ensures
        ({
            let n = m.rings.len() as int;
            let from = cursor.current;
            let t = stopped.current;
            m.search_ends(Acquire::Dequeue, closed, cursor, found, after, stopped) <==> {
                &&& !closed
                &&& 0 <= t < n
                &&& found is None
                &&& !m.taken[t]
                &&& (t - from) % n < n - cursor.spins
                &&& forall|u: int|
                    0 <= u < n && !#[trigger] m.taken[u] ==> (t - from) % n <= (u - from) % n
                &&& after == m
                &&& stopped.spins == cursor.spins + (t - from) % n
                &&& stopped.attempt == cursor.attempt
            }
        }),
        ({
            let n = m.rings.len() as int;
            m.search_goes_on(Acquire::Dequeue, closed, cursor, stopped) <==> {
                &&& closed || forall|u: int|
                    0 <= u < n && !#[trigger] m.taken[u] ==> (u - cursor.current) % n >= n
                        - cursor.spins
                &&& stopped.current == (cursor.current - cursor.spins) % n
                &&& stopped.spins == 0
                &&& stopped.attempt == if cursor.attempt < i32::MAX {
                    cursor.attempt + 1
                } else {
                    cursor.attempt
                }
            }
        }),
{
    let n = m.rings.len() as int;
    lemma_search_by_distance(m, Acquire::Dequeue, closed, cursor, found, after, stopped);
    assert forall|u: int| 0 <= u < n implies #[trigger] m.decides(Acquire::Dequeue, closed, u) == (
    !closed && !m.taken[u]) by {
        assert(m.rings[u].queue.len() == 0);
        law_free_shard_with_an_entry_gives_it(m, closed, u);
    }
    assert forall|u: int| 0 <= u < n && !closed && !#[trigger] m.taken[u] implies m.decides(
        Acquire::Dequeue,
        closed,
        u,
    ) by {}
    if 0 <= stopped.current < n {
        assert(m.rings[stopped.current].queue.len() == 0);
        law_free_shard_with_an_entry_gives_it(m, closed, stopped.current);
    }
}

/// At a buffer that is open and that nobody else is at, an enqueue has to wait only
/// if the buffer holds as many entries as fit, and a dequeue only if it holds none,
/// whatever was put in and taken out before.
pub proof fn law_nobody_waits_without_need<T>(m: Shards<T>, cursor: Cursor, other: Cursor)
    requires
        m.wf(),
        m.rings.len() <= usize::MAX,
        0 <= cursor.current < m.rings.len(),
        cursor.spins == 0,
        forall|s: int| 0 <= s < m.rings.len() ==> !#[trigger] m.taken[s],
    ensures
        total(m.rings) < m.per_shard * m.rings.len() ==> !m.search_goes_on(
            Acquire::Enqueue,
            false,
            cursor,
            other,
        ),
        total(m.rings) > 0 ==> !m.search_goes_on(Acquire::Dequeue, false, cursor, other),
{
    let n = m.rings.len() as int;
    law_full_and_empty_go_by_the_entries(m);
    law_enqueue_gets_the_first_free_shard_with_room(m, false, cursor, None, m, other);
    if total(m.rings) < m.per_shard * m.rings.len() {
        let u = choose|u: int|
            0 <= u < n && (#[trigger] m.rings[u]).queue.len() != m.per_shard;
        assert(m.rings[u].wf());
        assert(!m.taken[u]);
        lemma_distance(cursor.current, u, n);
    }
    if total(m.rings) > 0 {
        let u = choose|u: int| 0 <= u < n && (#[trigger] m.rings[u]).queue.len() != 0;
        assert(!m.taken[u]);
        law_dequeue_gets_the_first_free_shard_with_an_entry(m, false, cursor, None, m, other);
        lemma_distance(cursor.current, u, n);
    }
}

/// A task has what it needs to enqueue if and only if it has taken a shard that
/// holds fewer entries than it has slots, and what it needs to dequeue if and only
/// if it has taken one that holds an entry.
pub proof fn law_held_shard_needs_room_or_an_entry<T>(m: Shards<T>, s: int)
    requires
        m.wf(),
    ensures
        m.held_for(Acquire::Enqueue, s) <==> {
            &&& 0 <= s < m.rings.len()
            &&& m.taken[s]
            &&& m.rings[s].queue.len() < m.per_shard
        },
        m.held_for(Acquire::Dequeue, s) <==> {
            &&& 0 <= s < m.rings.len()
            &&& m.taken[s]
            &&& m.rings[s].queue.len() > 0
        },
{
    if 0 <= s < m.rings.len() {
        assert(m.rings[s].wf());
    }
}

/// An enqueue puts its entry behind all others of its shard and releases the shard.
/// There is one job more, the entry can be read in the slot that it went to, and
/// nothing else has changed.
pub proof fn law_enqueue_changes_only_its_shard<T>(m: Shards<T>, s: int, entry: Option<T>)
    requires
        m.wf(),
        0 <= s < m.rings.len(),
        m.rings[s].queue.len() < m.per_shard,
    ensures
        m.store(s, entry).per_shard == m.per_shard,
        m.store(s, entry).poisoned == m.poisoned,
        m.store(s, entry).taken == m.taken.update(s, false),
        m.store(s, entry).rings.len() == m.rings.len(),
        forall|u: int|
            0 <= u < m.rings.len() && u != s ==> #[trigger] m.store(s, entry).rings[u]
                == m.rings[u],
        m.store(s, entry).rings[s].queue == m.rings[s].queue.push(entry),
        m.store(s, entry).rings[s].head == m.rings[s].head,
        m.store(s, entry).rings[s].capacity == m.per_shard,
        m.store(s, entry).jobs() == m.jobs() + 1,
        ({
            let index = (m.rings[s].head + m.rings[s].queue.len()) % m.per_shard;
            &&& m.rings[s].tail() == index
            &&& m.store(s, entry).rings[s].slot(index as int) == entry
            &&& index <= usize::MAX ==> m.store(s, entry).invalid_index(
                s,
                Some(index as usize),
            ) is None
        }),
{
    let ring = m.rings[s];
    assert(ring.wf());
    lemma_total_update(m.rings, s, ring.push(entry));
    lemma_around(ring.head as int, ring.queue.len() as int, m.per_shard as int);
}

/// A dequeue takes the oldest entry out of its shard, moves the others of it one
/// place forward, and releases the shard. There is one job less, and nothing else
/// has changed.
pub proof fn law_dequeue_changes_only_its_shard<T>(m: Shards<T>, s: int)
    requires
        m.wf(),
        0 <= s < m.rings.len(),
        m.rings[s].queue.len() > 0,
    ensures
        m.remove(s).per_shard == m.per_shard,
        m.remove(s).poisoned == m.poisoned,
        m.remove(s).taken == m.taken.update(s, false),
        m.remove(s).rings.len() == m.rings.len(),
        forall|u: int|
            0 <= u < m.rings.len() && u != s ==> #[trigger] m.remove(s).rings[u] == m.rings[u],
        m.remove(s).rings[s].queue == m.rings[s].queue.subrange(
            1,
            m.rings[s].queue.len() as int,
        ),
        m.remove(s).rings[s].head == (m.rings[s].head + 1) % m.per_shard,
        m.remove(s).rings[s].capacity == m.per_shard,
        m.remove(s).jobs() == m.jobs() - 1,
{
    let ring = m.rings[s];
    assert(ring.wf());
    lemma_total_update(m.rings, s, ring.pop());
    lemma_around(ring.head as int, 1, m.per_shard as int);
    assert(m.remove(s).rings[s].queue =~= ring.queue.subrange(1, ring.queue.len() as int));
}

/// Releasing all shards leaves what they hold. Clearing them leaves nothing in any
/// shard and moves all indices back to the first slot; a poisoned buffer stays
/// poisoned. Either way no shard is taken then.
pub proof fn law_release_and_clear_reach_every_shard<T>(m: Shards<T>)
    requires
        m.wf(),
    ensures
        m.released().per_shard == m.per_shard,
        m.released().poisoned == m.poisoned,
        m.released().rings == m.rings,
        m.released().taken.len() == m.rings.len(),
        forall|s: int| 0 <= s < m.rings.len() ==> !#[trigger] m.released().taken[s],
        m.cleared().per_shard == m.per_shard,
        m.cleared().poisoned == m.poisoned,
        m.cleared().rings.len() == m.rings.len(),
        m.cleared().taken.len() == m.rings.len(),
        forall|s: int| 0 <= s < m.rings.len() ==> !#[trigger] m.cleared().taken[s],
        forall|s: int|
            0 <= s < m.rings.len() ==> {
                let ring = #[trigger] m.cleared().rings[s];
                ring.queue.len() == 0 && ring.head == 0 && ring.capacity == m.per_shard
            },
{
}

/// The shard index is refused if and only if there is no such shard; the item index
/// is refused if and only if there is such a shard and it has no such slot. So every
/// slot of every shard can be read.
pub proof fn law_every_slot_can_be_read<T>(m: Shards<T>, shard: int, item: usize)
    requires
        m.wf(),
        shard >= 0,
    ensures
        m.invalid_index(shard, Some(item)) is None <==> shard < m.rings.len() && item < m.per_shard,
        m.invalid_index(shard, Some(item)) == Some(InvalidIndex::Shard) <==> shard
            >= m.rings.len(),
        m.invalid_index(shard, Some(item)) == Some(InvalidIndex::Item) <==> shard < m.rings.len()
            && item >= m.per_shard,
        m.invalid_index(shard, None) is None <==> shard < m.rings.len(),
        m.invalid_index(shard, None) == Some(InvalidIndex::Shard) <==> shard >= m.rings.len(),
{
}

/// A copy of the whole buffer has one row for each shard, and each row has, slot by
/// slot, a clone of what that shard holds: row by row it is what the copies of the
/// single shards are, and slot by slot what the copies of the single slots are.
pub proof fn law_copy_of_all_agrees_with_each_shard<T: Clone>(
    m: Shards<T>,
    copies: Seq<Vec<Option<T>>>,
)
    requires
        m.wf(),
    ensures
        m.cloned_as(copies) <==> {
            &&& copies.len() == m.rings.len()
            &&& forall|s: int|
                0 <= s < m.rings.len() ==> (#[trigger] copies[s])@.len() == m.per_shard
            &&& forall|s: int, i: int|
                0 <= s < m.rings.len() && 0 <= i < m.per_shard ==> cloned_entry(
                    m.rings[s].slot(i),
                    #[trigger] copies[s]@[i],
                )
        },
        m.cloned_as(copies) <==> {
            &&& copies.len() == m.rings.len()
            &&& forall|s: int|
                0 <= s < m.rings.len() ==> cloned_entries(
                    m.rings[s].slots(),
                    (#[trigger] copies[s])@,
                )
        },
{
    if m.cloned_as(copies) {
        assert forall|s: int| 0 <= s < m.rings.len() implies (#[trigger] copies[s])@.len()
            == m.per_shard by {
            assert(m.rings[s].capacity == m.per_shard);
        }
        assert forall|s: int, i: int|
            0 <= s < m.rings.len() && 0 <= i < m.per_shard implies cloned_entry(
            m.rings[s].slot(i),
            #[trigger] copies[s]@[i],
        ) by {
            assert(m.rings[s].capacity == m.per_shard);
            assert(cloned_entries(m.rings[s].slots(), copies[s]@));
            assert(cloned_entry(m.rings[s].slots()[i], copies[s]@[i]));
        }
    }
    if {
        &&& copies.len() == m.rings.len()
        &&& forall|s: int| 0 <= s < m.rings.len() ==> (#[trigger] copies[s])@.len() == m.per_shard
        &&& forall|s: int, i: int|
            0 <= s < m.rings.len() && 0 <= i < m.per_shard ==> cloned_entry(
                m.rings[s].slot(i),
                #[trigger] copies[s]@[i],
            )
    } {
        assert forall|s: int| 0 <= s < m.rings.len() implies cloned_entries(
            m.rings[s].slots(),
            (#[trigger] copies[s])@,
        ) by {
            assert(m.rings[s].capacity == m.per_shard);
            assert forall|i: int| 0 <= i < m.per_shard implies cloned_entry(
                #[trigger] m.rings[s].slots()[i],
                copies[s]@[i],
            ) by {
                assert(cloned_entry(m.rings[s].slot(i), copies[s]@[i]));
            }
        }
    }
}

/// What is written out of the buffer has one part for each shard, and in it one text
/// for each slot of that shard, in their order.
pub proof fn law_every_slot_of_every_shard_is_shown<T, F: Fn(&Option<T>) -> String>(
    m: Shards<T>,
    show: F,
    texts: Seq<Seq<String>>,
)
    requires
        m.wf(),
    ensures
        m.showable(show) <==> forall|s: int, i: int|
            0 <= s < m.rings.len() && 0 <= i < m.per_shard ==> call_requires(
                show,
                (&#[trigger] m.rings[s].slot(i),),
            ),
        m.shown_by(show, texts) <==> {
            &&& texts.len() == m.rings.len()
            &&& forall|s: int|
                0 <= s < m.rings.len() ==> (#[trigger] texts[s]).len() == m.per_shard
            &&& forall|s: int, i: int|
                0 <= s < m.rings.len() && 0 <= i < m.per_shard ==> call_ensures(
                    show,
                    (&m.rings[s].slot(i),),
                    #[trigger] texts[s][i],
                )
        },
{
    assert forall|s: int| 0 <= s < m.rings.len() implies (#[trigger] m.rings[s]).slots().len()
        == m.per_shard by {
        assert(m.rings[s].capacity == m.per_shard);
    }
    assert forall|s: int, i: int|
        0 <= s < m.rings.len() && 0 <= i < m.per_shard implies #[trigger] m.rings[s].slots()[i]
        == m.rings[s].slot(i) by {
        assert(m.rings[s].capacity == m.per_shard);
    }
    if m.showable(show) {
        assert forall|s: int, i: int|
            0 <= s < m.rings.len() && 0 <= i < m.per_shard implies call_requires(
            show,
            (&#[trigger] m.rings[s].slot(i),),
        ) by {
            assert(crate::text::showable(show, m.rings[s].slots()));
            assert(call_requires(show, (&m.rings[s].slots()[i],)));
        }
    }
    if forall|s: int, i: int|
        0 <= s < m.rings.len() && 0 <= i < m.per_shard ==> call_requires(
            show,
            (&#[trigger] m.rings[s].slot(i),),
        ) {
        assert forall|s: int| 0 <= s < m.count() implies crate::text::showable(
            show,
            (#[trigger] m.rings[s]).slots(),
        ) by {
            assert forall|i: int| 0 <= i < m.rings[s].slots().len() implies call_requires(
                show,
                (&#[trigger] m.rings[s].slots()[i],),
            ) by {
                assert(call_requires(show, (&m.rings[s].slot(i),)));
            }
        }
    }
    if m.shown_by(show, texts) {
        assert forall|s: int| 0 <= s < m.rings.len() implies (#[trigger] texts[s]).len()
            == m.per_shard by {
            assert(m.rings[s].slots().len() == m.per_shard);
        }
        assert forall|s: int, i: int|
            0 <= s < m.rings.len() && 0 <= i < m.per_shard implies call_ensures(
            show,
            (&m.rings[s].slot(i),),
            #[trigger] texts[s][i],
        ) by {
            assert(crate::text::shown_by(show, m.rings[s].slots(), texts[s]));
            assert(call_ensures(show, (&m.rings[s].slots()[i],), texts[s][i]));
        }
    }
    if {
        &&& texts.len() == m.rings.len()
        &&& forall|s: int| 0 <= s < m.rings.len() ==> (#[trigger] texts[s]).len() == m.per_shard
        &&& forall|s: int, i: int|
            0 <= s < m.rings.len() && 0 <= i < m.per_shard ==> call_ensures(
                show,
                (&m.rings[s].slot(i),),
                #[trigger] texts[s][i],
            )
    } {
        assert forall|s: int| 0 <= s < m.count() implies crate::text::shown_by(
            show,
            m.rings[s].slots(),
            #[trigger] texts[s],
        ) by {
            assert(m.rings[s].slots().len() == m.per_shard);
            assert forall|i: int| 0 <= i < m.per_shard implies call_ensures(
                show,
                (&#[trigger] m.rings[s].slots()[i],),
                texts[s][i],
            ) by {
                assert(call_ensures(show, (&m.rings[s].slot(i),), texts[s][i]));
            }
        }
    }
}

/// A cursor stands at a shard, and has looked at fewer shards in this round than
/// there are. A new one has looked at none. Each step leads to the next shard, from
/// the last one to the first, and after as many steps as there were shards left the
/// round is over.
pub proof fn law_cursor_walks_shard_by_shard(cursor: Cursor, start: int, shards: nat)
    requires
        shards > 0,
    ensures
        cursor.wf(shards) <==> {
            &&& 0 <= cursor.current < shards
            &&& 0 <= cursor.spins < shards
            &&& 0 <= cursor.attempt <= i32::MAX
        },
        Cursor::starting_at(start).current == start,
        Cursor::starting_at(start).spins == 0,
        Cursor::starting_at(start).attempt == 0,
        cursor.left(shards) == shards - cursor.spins,
        cursor.wf(shards) ==> {
            let next = cursor.moved(1, shards);
            &&& next.current == if cursor.current + 1 == shards {
                0
            } else {
                cursor.current + 1
            }
            &&& next.spins == if cursor.spins + 1 == shards {
                0
            } else {
                cursor.spins + 1
            }
            &&& next.attempt == cursor.attempt
        },
        cursor.retried().current == cursor.current,
        cursor.retried().spins == cursor.spins,
        cursor.retried().attempt == if cursor.attempt < i32::MAX {
            cursor.attempt + 1
        } else {
            cursor.attempt
        },
{
    if cursor.wf(shards) {
        lemma_around(cursor.current, 1, shards as int);
        lemma_around(cursor.spins, 1, shards as int);
    }
}

} // verus!
