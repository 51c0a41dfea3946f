//! A consumer that counts the items it gets out of a ring buffer.
use vstd::prelude::*;

use crate::multithreaded_ring_buffer::{Dequeued, MultiThreadedRingBuffer};

verus! {

/// What a step of a counting consumer came to.
#[derive(Debug, Clone, Copy, PartialEq, Eq, Structural)]
pub enum Drain {
    /// The buffer is empty: wait until notified, then try again.
    Wait,
    /// One more item was taken out and counted.
    Counted,
    /// An entry without an item was taken out: the work is finished.
    Finished,
}

/// Takes one entry out of the ring buffer and counts it if it is an item.
pub fn dequeue_items(mtrb: &mut MultiThreadedRingBuffer<usize>, counter: &mut usize) -> (drain:
    Drain)
    requires
        old(mtrb).wf(),
        *old(counter) < usize::MAX,
    ensures
        final(mtrb).wf(),
        final(mtrb).poisoned() == old(mtrb).poisoned(),
        match drain {
            Drain::Wait => {
                &&& old(mtrb)@.is_empty()
                &&& final(mtrb)@ == old(mtrb)@
                &&& *final(counter) == *old(counter)
            },
            Drain::Counted => {
                &&& !old(mtrb)@.is_empty()
                &&& old(mtrb)@.queue[0] is Some
                &&& final(mtrb)@ == old(mtrb)@.pop()
                &&& *final(counter) == *old(counter) + 1
            },
            Drain::Finished => {
                &&& !old(mtrb)@.is_empty()
                &&& old(mtrb)@.queue[0] is None
                &&& final(mtrb)@ == old(mtrb)@.pop()
                &&& *final(counter) == *old(counter)
            },
        },
{
    match mtrb.dequeue() {
        Dequeued::Wait => Drain::Wait,
        Dequeued::Entry(Some(_)) => {
            *counter += 1;
            Drain::Counted
        },
        Dequeued::Entry(None) => Drain::Finished,
    }
}

} // verus!
