//! What holds of a ring buffer over several operations.
use vstd::prelude::*;

use crate::ring::{around, cloned_entries, cloned_entry, lemma_around, Ring};

verus! {

/// Something that a task does to a ring buffer, without resetting it.
pub enum RingEvent<T> {
    /// An attempt to put an item in.
    Enqueue(T),
    /// An attempt to put in an entry without an item, to poison the buffer.
    SendPoison,
    /// Poisoning comes to its end.
    FinishPoison,
    /// An attempt to take an entry out.
    Dequeue,
}

/// A ring after a number of events, whether it is poisoned, the entries that went
/// in on the way and the entries that came out, each in order. An attempt that
/// has to wait changes nothing.
#[verifier::ext_equal]
pub struct RingRun<T> {
    pub ring: Ring<T>,
    pub poisoned: bool,
    pub entered: Seq<Option<T>>,
    pub left: Seq<Option<T>>,
}

impl<T> RingRun<T> {
    /// A ring that is not poisoned, before anything is done to it.
    pub open spec fn fresh(ring: Ring<T>) -> Self {
        RingRun { ring, poisoned: false, entered: Seq::empty(), left: Seq::empty() }
    }

    pub open spec fn put(self, entry: Option<T>) -> Self {
        RingRun { ring: self.ring.push(entry), entered: self.entered.push(entry), ..self }
    }

    pub open spec fn next(self, event: RingEvent<T>) -> Self {
        match event {
            RingEvent::Enqueue(item) => if self.poisoned || self.ring.is_full() {
                self
            } else {
                self.put(Some(item))
            },
            RingEvent::SendPoison => if self.ring.is_full() {
                self
            } else {
                self.put(None)
            },
            RingEvent::FinishPoison => RingRun { poisoned: true, ..self },
            RingEvent::Dequeue => if self.ring.is_empty() {
                self
            } else {
                RingRun {
                    ring: self.ring.pop(),
                    left: self.left.push(self.ring.queue[0]),
                    ..self
                }
            },
        }
    }
}

/// What comes of `events`, one after the other.
pub open spec fn run_from<T>(first: RingRun<T>, events: Seq<RingEvent<T>>) -> RingRun<T>
    decreases events.len(),
{
    if events.len() == 0 {
        first
    } else {
        run_from(first, events.drop_last()).next(events.last())
    }
}

/// What comes of `events`, one after the other, on a ring that is not poisoned.
pub open spec fn run<T>(start: Ring<T>, events: Seq<RingEvent<T>>) -> RingRun<T> {
    run_from(RingRun::fresh(start), events)
}

/// How many of the entries are items.
pub open spec fn items_among<T>(entries: Seq<Option<T>>) -> nat
    decreases entries.len(),
{
    if entries.len() == 0 {
        0
    } else {
        items_among(entries.drop_last()) + if entries.last() is Some {
            1nat
        } else {
            0
        }
    }
}

/// Steps around a circle come to a place of the circle, and to the one that is a
/// whole number of turns away from where the same steps lead on a straight line.
pub proof fn law_steps_go_around_the_circle(start: int, steps: int, size: int)
    requires
        size > 0,
    ensures
        0 <= around(start, steps, size) < size,
        (start + steps - around(start, steps, size)) % size == 0,
{
    let x = start + steps;
    vstd::arithmetic::div_mod::lemma_mod_bound(x, size);
    vstd::arithmetic::div_mod::lemma_fundamental_div_mod(x, size);
    vstd::arithmetic::div_mod::lemma_mod_multiples_basic(x / size, size);
    assert(x - x % size == (x / size) * size) by (nonlinear_arith)
        requires
            x == size * (x / size) + x % size,
    ;
}

/// A new ring has the slots that were asked for. Each of them is empty, and both
/// indices stand at the first one.
pub proof fn law_new_ring_is_empty<T>(capacity: nat)
    ensures
        Ring::<T>::empty(capacity).wf(),
        Ring::<T>::empty(capacity).capacity == capacity,
        Ring::<T>::empty(capacity).queue.len() == 0,
        Ring::<T>::empty(capacity).head == 0,
        Ring::<T>::empty(capacity).tail() == 0,
        Ring::<T>::empty(capacity).slots().len() == capacity,
        forall|i: int|
            0 <= i < capacity ==> (#[trigger] Ring::<T>::empty(capacity).slots()[i]) is None,
{
    if capacity > 0 {
        lemma_around(0, 0, capacity as int);
    }
}

/// A ring is empty if and only if it holds no entry, and full if and only if it
/// holds as many as it has slots, wherever its head stands.
pub proof fn law_full_and_empty_go_by_the_number_of_entries<T>(ring: Ring<T>)
    ensures
        ring.is_empty() <==> ring.queue.len() == 0,
        ring.is_full() <==> ring.queue.len() == ring.capacity,
{
}

/// What is put in comes behind all other entries, which stay as they are.
pub proof fn law_enqueue_adds_one_entry_at_the_end<T>(ring: Ring<T>, entry: Option<T>)
    ensures
        ring.push(entry).capacity == ring.capacity,
        ring.push(entry).head == ring.head,
        ring.push(entry).queue.len() == ring.queue.len() + 1,
        ring.push(entry).queue[ring.queue.len() as int] == entry,
        forall|i: int|
            0 <= i < ring.queue.len() ==> #[trigger] ring.push(entry).queue[i] == ring.queue[i],
{
}

/// Taking an entry out moves every other one a place forward, and the head one
/// slot on, from the last slot to the first.
pub proof fn law_dequeue_moves_the_others_forward<T>(ring: Ring<T>)
    requires
        ring.wf(),
        ring.queue.len() > 0,
    ensures
        ring.pop().capacity == ring.capacity,
        ring.pop().head == if ring.head + 1 == ring.capacity {
            0
        } else {
            ring.head + 1
        },
        ring.pop().queue.len() == ring.queue.len() - 1,
        forall|i: int|
            0 <= i < ring.queue.len() - 1 ==> #[trigger] ring.pop().queue[i] == ring.queue[i + 1],
{
    lemma_around(ring.head as int, 1, ring.capacity as int);
}

/// The entries lie in the slots one after the other, from the head on and around
/// the circle. All other slots are empty, and the enqueue index stands behind the
/// newest entry.
pub proof fn law_slots_hold_the_queue<T>(ring: Ring<T>)
    requires
        ring.wf(),
    ensures
        ring.slots().len() == ring.capacity,
        forall|i: int|
            0 <= i < ring.capacity ==> #[trigger] ring.slots()[i] == {
                let steps = (i - ring.head) % ring.capacity as int;
                if steps < ring.queue.len() {
                    ring.queue[steps]
                } else {
                    None
                }
            },
        forall|i: int| 0 <= i < ring.capacity ==> #[trigger] ring.slot(i) == ring.slots()[i],
        ring.tail() == if ring.capacity == 0 {
            0
        } else {
            (ring.head + ring.queue.len()) % ring.capacity
        },
{
    assert forall|i: int| 0 <= i < ring.capacity implies ring.offset(i) == (i - ring.head)
        % ring.capacity as int by {
        lemma_distance(ring.head as int, i, ring.capacity as int);
    }
}

/// How far place `to` lies past place `from` in a circle.
pub proof fn lemma_distance(from: int, to: int, size: int)
    requires
        0 <= from < size,
        0 <= to < size,
    ensures
        (to - from) % size == if to >= from {
            to - from
        } else {
            to - from + size
        },
        around(from, (to - from) % size, size) == to,
{
    if to >= from {
        vstd::arithmetic::div_mod::lemma_small_mod((to - from) as nat, size as nat);
        lemma_around(from, to - from, size);
    } else {
        vstd::arithmetic::div_mod::lemma_mod_add_multiples_vanish(to - from, size);
        vstd::arithmetic::div_mod::lemma_small_mod((to - from + size) as nat, size as nat);
        lemma_around(from, to - from + size, size);
    }
}

/// A copy of a slot holds an item if and only if the slot does, and its item is
/// then a clone of that in the slot. A copy of all slots is made slot by slot.
pub proof fn law_copies_hold_clones_slot_by_slot<T: Clone>(
    entries: Seq<Option<T>>,
    copies: Seq<Option<T>>,
    entry: Option<T>,
    copy: Option<T>,
)
    ensures
        cloned_entry(entry, copy) <==> {
            &&& entry is Some <==> copy is Some
            &&& entry is Some ==> cloned(entry->0, copy->0)
        },
        cloned_entries(entries, copies) <==> {
            &&& copies.len() == entries.len()
            &&& forall|i: int|
                0 <= i < entries.len() ==> {
                    &&& (#[trigger] entries[i]) is Some <==> copies[i] is Some
                    &&& entries[i] is Some ==> cloned(entries[i]->0, copies[i]->0)
                }
        },
{
    if cloned_entries(entries, copies) {
        assert forall|i: int| 0 <= i < entries.len() implies {
            &&& (#[trigger] entries[i]) is Some <==> copies[i] is Some
            &&& entries[i] is Some ==> cloned(entries[i]->0, copies[i]->0)
        } by {
            assert(cloned_entry(entries[i], copies[i]));
        }
    }
}

/// However entries are put in and taken out, the ring stays well-formed and keeps
/// its capacity.
pub proof fn law_traffic_keeps_the_ring_well_formed<T>(
    start: Ring<T>,
    events: Seq<RingEvent<T>>,
)
    requires
        start.wf(),
    ensures
        run(start, events).ring.wf(),
        run(start, events).ring.capacity == start.capacity,
    decreases events.len(),
{
    if events.len() > 0 {
        law_traffic_keeps_the_ring_well_formed(start, events.drop_last());
        let before = run(start, events.drop_last()).ring;
        if before.capacity > 0 {
            lemma_around(before.head as int, 1, before.capacity as int);
        }
    }
}

proof fn lemma_put_keeps_order<T>(start: Ring<T>, before: RingRun<T>, entry: Option<T>)
    requires
        start.queue + before.entered == before.left + before.ring.queue,
    ensures
        start.queue + before.put(entry).entered == before.put(entry).left + before.put(
            entry,
        ).ring.queue,
{
    let after = before.put(entry);
    assert(start.queue + after.entered =~= (start.queue + before.entered).push(entry));
    assert(after.left + after.ring.queue =~= (before.left + before.ring.queue).push(entry));
}

/// Entries come out in the order in which they went in, and none is lost or
/// doubled: what was in the ring, followed by what went in, is what came out,
/// followed by what is in the ring.
pub proof fn law_first_in_first_out<T>(start: Ring<T>, events: Seq<RingEvent<T>>)
    ensures
        start.queue + run(start, events).entered == run(start, events).left + run(
            start,
            events,
        ).ring.queue,
    decreases events.len(),
{
    if events.len() == 0 {
        assert(start.queue + run(start, events).entered =~= run(start, events).left + run(
            start,
            events,
        ).ring.queue);
    } else {
        law_first_in_first_out(start, events.drop_last());
        let before = run(start, events.drop_last());
        let after = run(start, events);
        match events.last() {
            RingEvent::Enqueue(item) => {
                if !before.poisoned && !before.ring.is_full() {
                    lemma_put_keeps_order(start, before, Some(item));
                }
            },
            RingEvent::SendPoison => {
                if !before.ring.is_full() {
                    lemma_put_keeps_order(start, before, None);
                }
            },
            RingEvent::FinishPoison => {},
            RingEvent::Dequeue => {
                if !before.ring.is_empty() {
                    assert(after.left + after.ring.queue =~= before.left + before.ring.queue);
                }
            },
        }
    }
}

proof fn lemma_items_among_add<T>(first: Seq<Option<T>>, second: Seq<Option<T>>)
    ensures
        items_among(first + second) == items_among(first) + items_among(second),
    decreases second.len(),
{
    if second.len() == 0 {
        assert(first + second =~= first);
    } else {
        lemma_items_among_add(first, second.drop_last());
        assert((first + second).drop_last() =~= first + second.drop_last());
        assert((first + second).last() == second.last());
    }
}

/// The consumers of a ring count every item that went in exactly once: the items
/// that came out and those that are left are as many as those that were there at
/// first and those that went in.
pub proof fn law_every_item_is_counted_once<T>(start: Ring<T>, events: Seq<RingEvent<T>>)
    ensures
        items_among(start.queue) + items_among(run(start, events).entered) == items_among(
            run(start, events).left,
        ) + items_among(run(start, events).ring.queue),
{
    let end = run(start, events);
    law_first_in_first_out(start, events);
    lemma_items_among_add(start.queue, end.entered);
    lemma_items_among_add(end.left, end.ring.queue);
}

/// Both indices always stay within the slots.
pub proof fn law_indices_stay_in_bounds<T>(ring: Ring<T>)
    requires
        ring.wf(),
        ring.capacity > 0,
    ensures
        0 <= ring.head < ring.capacity,
        0 <= ring.tail() < ring.capacity,
{
    lemma_around(ring.head as int, ring.queue.len() as int, ring.capacity as int);
}

/// The next entry to come out is the one in the slot at the dequeue index.
/// Taking it out empties that slot, moves the dequeue index one slot on, and
/// leaves the enqueue index and every other slot as they were.
pub proof fn law_dequeue_takes_the_head_slot<T>(ring: Ring<T>)
    requires
        ring.wf(),
        !ring.is_empty(),
    ensures
        ring.slot(ring.head as int) == ring.queue[0],
        ring.pop().slot(ring.head as int) is None,
        ring.pop().head == around(ring.head as int, 1, ring.capacity as int),
        ring.pop().tail() == ring.tail(),
        forall|i: int|
            0 <= i < ring.capacity && i != ring.head ==> #[trigger] ring.pop().slot(i)
                == ring.slot(i),
{
    let size = ring.capacity as int;
    lemma_around(ring.head as int, 1, size);
    lemma_around(ring.head as int, ring.queue.len() as int, size);
    lemma_around(ring.pop().head as int, ring.queue.len() - 1, size);
}

/// A new entry goes to the slot at the enqueue index. Putting it in moves the
/// enqueue index one slot on, and leaves the dequeue index and every other slot
/// as they were.
pub proof fn law_enqueue_fills_the_tail_slot<T>(ring: Ring<T>, entry: Option<T>)
    requires
        ring.wf(),
        !ring.is_full(),
    ensures
        ring.slot(ring.tail()) is None,
        ring.push(entry).slot(ring.tail()) == entry,
        ring.push(entry).tail() == around(ring.tail(), 1, ring.capacity as int),
        ring.push(entry).head == ring.head,
        forall|i: int|
            0 <= i < ring.capacity && i != ring.tail() ==> #[trigger] ring.push(entry).slot(i)
                == ring.slot(i),
{
    let size = ring.capacity as int;
    lemma_around(ring.head as int, ring.queue.len() as int, size);
    lemma_around(ring.head as int, ring.queue.len() as int + 1, size);
    lemma_around(ring.tail(), 1, size);
}

/// An entry that is put into an empty ring is the next to come out, and the ring
/// is empty again then.
pub proof fn law_dequeue_undoes_enqueue_on_an_empty_ring<T>(ring: Ring<T>, entry: Option<T>)
    requires
        ring.wf(),
        ring.is_empty(),
        !ring.is_full(),
    ensures
        ring.push(entry).queue[0] == entry,
        ring.push(entry).pop().is_empty(),
{
}

/// None of the events tries to put an item in.
pub open spec fn no_enqueue<T>(events: Seq<RingEvent<T>>) -> bool {
    forall|i: int| 0 <= i < events.len() ==> !(#[trigger] events[i] is Enqueue)
}

proof fn lemma_no_enqueue_no_item<T>(first: RingRun<T>, events: Seq<RingEvent<T>>)
    requires
        no_enqueue(events),
        forall|i: int| 0 <= i < first.entered.len() ==> (#[trigger] first.entered[i]) is None,
    ensures
        forall|i: int|
            0 <= i < run_from(first, events).entered.len() ==> (#[trigger] run_from(
                first,
                events,
            ).entered[i]) is None,
    decreases events.len(),
{
    if events.len() > 0 {
        let shorter = events.drop_last();
        assert forall|i: int| 0 <= i < shorter.len() implies !(#[trigger] shorter[i] is Enqueue) by {
            assert(shorter[i] == events[i]);
        }
        lemma_no_enqueue_no_item(first, shorter);
        assert(events.last() == events[events.len() - 1]);
    }
}

proof fn lemma_run_in_parts<T>(
    first: RingRun<T>,
    before: Seq<RingEvent<T>>,
    after: Seq<RingEvent<T>>,
)
    ensures
        run_from(first, before + after) == run_from(run_from(first, before), after),
    decreases after.len(),
{
    if after.len() == 0 {
        assert(before + after =~= before);
    } else {
        lemma_run_in_parts(first, before, after.drop_last());
        assert((before + after).drop_last() =~= before + after.drop_last());
        assert((before + after).last() == after.last());
    }
}

/// A poisoned ring stays poisoned until it is reset, and no item goes in: its
/// items are never more than those that were in it.
pub proof fn law_poisoned_ring_takes_no_item<T>(first: RingRun<T>, events: Seq<RingEvent<T>>)
    requires
        first.poisoned,
    ensures
        run_from(first, events).poisoned,
        items_among(run_from(first, events).entered) == items_among(first.entered),
        (forall|i: int| 0 <= i < first.ring.queue.len() ==> (#[trigger] first.ring.queue[i]) is None)
            ==> (forall|i: int|
            0 <= i < run_from(first, events).ring.queue.len() ==> (#[trigger] run_from(
                first,
                events,
            ).ring.queue[i]) is None),
    decreases events.len(),
{
    if events.len() > 0 {
        let before = run_from(first, events.drop_last());
        law_poisoned_ring_takes_no_item(first, events.drop_last());
        assert(before.entered.push(None).drop_last() =~= before.entered);
    }
}

/// Once a task has poisoned a ring, by putting in as many entries without an
/// item as the ring has slots, the ring holds no item any more, and it holds none
/// until it is reset, whatever tasks do: however many entries were taken out
/// while the poison went in, and however often tasks try to put items in
/// afterwards. Only while the poison goes in may no other task put an item in.
pub proof fn law_poisoned_ring_holds_no_item<T>(
    start: Ring<T>,
    before: Seq<RingEvent<T>>,
    after: Seq<RingEvent<T>>,
)
    requires
        start.wf(),
        no_enqueue(before),
        run(start, before).entered.len() >= start.capacity,
    ensures
        ({
            let end = run(start, before + seq![RingEvent::FinishPoison] + after);
            &&& end.poisoned
            &&& forall|i: int|
                0 <= i < end.ring.queue.len() ==> (#[trigger] end.ring.queue[i]) is None
        }),
{
    let sent = run(start, before);
    law_traffic_keeps_the_ring_well_formed(start, before);
    law_first_in_first_out(start, before);
    lemma_no_enqueue_no_item(RingRun::fresh(start), before);
    let all = start.queue + sent.entered;
    assert(all.len() == start.queue.len() + sent.entered.len());
    assert(all.len() == sent.left.len() + sent.ring.queue.len());
    assert forall|i: int|
        0 <= i < sent.ring.queue.len() implies (#[trigger] sent.ring.queue[i]) is None by {
        let j = sent.left.len() + i;
        assert((sent.left + sent.ring.queue)[j] == sent.ring.queue[i]);
        assert(all[j] == sent.entered[j - start.queue.len()]);
    }
    let finish = seq![RingEvent::<T>::FinishPoison];
    let first = RingRun::fresh(start);
    lemma_run_in_parts(first, before, finish);
    assert(finish.drop_last() =~= Seq::<RingEvent<T>>::empty());
    let done = run_from(first, before + finish);
    assert(run_from(sent, finish.drop_last()) == sent);
    assert(run_from(sent, finish) == sent.next(finish.last()));
    assert(done == (RingRun { poisoned: true, ..sent }));
    lemma_run_in_parts(first, before + finish, after);
    law_poisoned_ring_takes_no_item(done, after);
}

/// The ring after `sent` steps of poisoning it while no other task is at it.
pub open spec fn poisoned_alone<T>(ring: Ring<T>, sent: nat) -> Ring<T>
    decreases sent,
{
    if sent == 0 {
        ring
    } else {
        poisoned_alone(ring, (sent - 1) as nat).push(None)
    }
}

/// Poisoning an empty ring fills it with entries that hold no item, so that
/// nothing more can be put in.
pub proof fn law_poison_fills_an_empty_ring<T>(ring: Ring<T>, sent: nat)
    requires
        ring.wf(),
        ring.is_empty(),
        sent <= ring.capacity,
    ensures
        poisoned_alone(ring, sent).queue.len() == sent,
        poisoned_alone(ring, sent).wf(),
        poisoned_alone(ring, sent).capacity == ring.capacity,
        forall|i: int|
            0 <= i < sent ==> (#[trigger] poisoned_alone(ring, sent).queue[i]) is None,
        sent == ring.capacity ==> poisoned_alone(ring, sent).is_full(),
    decreases sent,
{
    if sent > 0 {
        law_poison_fills_an_empty_ring(ring, (sent - 1) as nat);
    }
}

} // verus!
