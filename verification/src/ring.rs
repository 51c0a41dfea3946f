//! The mathematical model of a ring buffer: a bounded queue together with the
//! slot at which its oldest entry lies.
use vstd::prelude::*;

verus! {

/// A bounded queue laid out in a circle of `capacity` slots.
///
/// The oldest entry, `queue[0]`, lies in slot `head`; the others follow it
/// around the circle. Slots that hold no entry of the queue are empty.
#[verifier::ext_equal]
pub struct Ring<T> {
    pub capacity: nat,
    pub head: nat,
    pub queue: Seq<Option<T>>,
}

/// The slot `steps` places past `start` in a circle of `size` slots.
pub open spec fn around(start: int, steps: int, size: int) -> int {
    (start + steps) % size
}

impl<T> Ring<T> {
    /// The ring of `capacity` slots that holds nothing.
    pub open spec fn empty(capacity: nat) -> Self {
        Ring { capacity, head: 0, queue: Seq::empty() }
    }

    /// The queue fits, and the head is a slot of the circle.
    pub open spec fn wf(self) -> bool {
        &&& self.queue.len() <= self.capacity
        &&& if self.capacity == 0 {
            self.head == 0
        } else {
            self.head < self.capacity
        }
    }

    pub open spec fn is_empty(self) -> bool {
        self.queue.len() == 0
    }

    pub open spec fn is_full(self) -> bool {
        self.queue.len() == self.capacity
    }

    /// The slot that the next entry goes to.
    pub open spec fn tail(self) -> int {
        if self.capacity == 0 {
            0
        } else {
            around(self.head as int, self.queue.len() as int, self.capacity as int)
        }
    }

    /// How many steps past the head slot `i` lies.
    pub open spec fn offset(self, i: int) -> int {
        if i >= self.head {
            i - self.head
        } else {
            i + self.capacity - self.head
        }
    }

    /// What slot `i` holds.
    pub open spec fn slot(self, i: int) -> Option<T> {
        if self.offset(i) < self.queue.len() {
            self.queue[self.offset(i)]
        } else {
            None
        }
    }

    /// What all slots hold, in the order of the slots.
    pub open spec fn slots(self) -> Seq<Option<T>> {
        Seq::new(self.capacity, |i: int| self.slot(i))
    }

    /// The ring after `entry` has been put behind the newest entry.
    pub open spec fn push(self, entry: Option<T>) -> Self {
        Ring { queue: self.queue.push(entry), ..self }
    }

    /// The ring after its oldest entry has been taken out.
    pub open spec fn pop(self) -> Self {
        Ring {
            capacity: self.capacity,
            head: around(self.head as int, 1, self.capacity as int) as nat,
            queue: self.queue.drop_first(),
        }
    }
}

/// `copy` is a clone of `entry`: both hold nothing, or both hold an item and
/// one item is a clone of the other.
pub open spec fn cloned_entry<T: Clone>(entry: Option<T>, copy: Option<T>) -> bool {
    match (entry, copy) {
        (None, None) => true,
        (Some(item), Some(other)) => cloned(item, other),
        _ => false,
    }
}

/// `copies` holds a clone of each of the `entries`, in the same order.
pub open spec fn cloned_entries<T: Clone>(entries: Seq<Option<T>>, copies: Seq<Option<T>>) -> bool {
    &&& copies.len() == entries.len()
    &&& forall|i: int|
        0 <= i < entries.len() ==> cloned_entry(#[trigger] entries[i], copies[i])
}

/// A position less than two turns from the start wraps at most once.
pub proof fn lemma_around(start: int, steps: int, size: int)
    requires
        0 <= start < size,
        0 <= steps <= size,
    ensures
        around(start, steps, size) == if start + steps < size {
            start + steps
        } else {
            start + steps - size
        },
{
    let x = start + steps;
    if x < size {
        vstd::arithmetic::div_mod::lemma_small_mod(x as nat, size as nat);
    } else {
        vstd::arithmetic::div_mod::lemma_mod_sub_multiples_vanish(x, size);
        vstd::arithmetic::div_mod::lemma_small_mod((x - size) as nat, size as nat);
        assert((x - size) % size == x % size);
    }
}

} // verus!
