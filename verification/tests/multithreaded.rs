use generic_ringbuffers::drain::{dequeue_items, Drain};
use generic_ringbuffers::multithreaded_ring_buffer::{Dequeued, PoisonStep};
use generic_ringbuffers::MultiThreadedRingBuffer;
use std::sync::{Arc, Mutex};
use tokio::sync::Notify;

struct Shared {
    rb: Mutex<MultiThreadedRingBuffer<usize>>,
    notify: Notify,
}

impl Shared {
    fn new(capacity: usize) -> Arc<Self> {
        Arc::new(Shared { rb: Mutex::new(MultiThreadedRingBuffer::new(capacity)), notify: Notify::new() })
    }

    async fn enqueue(&self, item: usize) {
        let mut item = item;
        loop {
            let notified = self.notify.notified();
            let result = self.rb.lock().unwrap().enqueue(item);
            match result {
                Ok(()) => break,
                Err(back) => item = back,
            }
            notified.await;
        }
        self.notify.notify_waiters();
    }

    async fn poison(&self) {
        let mut sent: usize = 0;
        loop {
            let notified = self.notify.notified();
            let step = self.rb.lock().unwrap().poison(sent);
            match step {
                PoisonStep::Done => break,
                PoisonStep::Sent => {
                    sent += 1;
                    self.notify.notify_waiters();
                }
                PoisonStep::Wait => notified.await,
            }
        }
    }

    async fn dequeue_items(&self) -> usize {
        let mut counter: usize = 0;
        loop {
            let notified = self.notify.notified();
            let drain = dequeue_items(&mut self.rb.lock().unwrap(), &mut counter);
            match drain {
                Drain::Wait => notified.await,
                Drain::Counted => self.notify.notify_waiters(),
                Drain::Finished => {
                    self.notify.notify_waiters();
                    break;
                }
            }
        }
        counter
    }
}

fn taken_by_workers(worker_threads: usize) -> usize {
    const MAX_ITEMS: usize = 100;
    const MAX_THREADS: usize = 5;
    let runtime = tokio::runtime::Builder::new_multi_thread()
        .worker_threads(worker_threads)
        .build()
        .unwrap();
    runtime.block_on(async {
        let mtrb = Shared::new(MAX_ITEMS);
        let mut threads = Vec::with_capacity(MAX_THREADS);
        for _ in 0..MAX_THREADS {
            let mtrb = Arc::clone(&mtrb);
            threads.push(tokio::spawn(async move { mtrb.dequeue_items().await }));
        }
        for _ in 0..2 * MAX_ITEMS {
            mtrb.enqueue(20).await;
        }
        mtrb.poison().await;
        let mut items_taken: usize = 0;
        while let Some(curr_thread) = threads.pop() {
            items_taken += curr_thread.await.unwrap();
        }
        items_taken
    })
}

#[test]
fn multithreaded_test_counter() {
    assert_eq!(200, taken_by_workers(1));
}

#[test]
fn mtrb_test_test_counter() {
    assert_eq!(200, taken_by_workers(4));
}

fn filled(capacity: usize, items: &[u32]) -> MultiThreadedRingBuffer<u32> {
    let mut rb: MultiThreadedRingBuffer<u32> = MultiThreadedRingBuffer::new(capacity);
    for item in items {
        assert!(rb.enqueue(*item).is_ok());
    }
    rb
}

fn item_of(dequeued: Dequeued<u32>) -> Option<u32> {
    match dequeued {
        Dequeued::Entry(item) => item,
        Dequeued::Wait => panic!("the buffer is empty"),
    }
}

#[test]
fn entries_come_out_in_order() {
    let mut rb = filled(3, &[1, 2, 3]);
    assert_eq!(item_of(rb.dequeue()), Some(1));
    assert!(rb.enqueue(4).is_ok());
    assert_eq!(item_of(rb.dequeue()), Some(2));
    assert_eq!(item_of(rb.dequeue()), Some(3));
    assert_eq!(item_of(rb.dequeue()), Some(4));
    assert!(matches!(rb.dequeue(), Dequeued::Wait));
}

#[test]
fn full_buffer_hands_the_item_back() {
    let mut rb = filled(2, &[1, 2]);
    assert!(rb.is_full());
    assert_eq!(rb.enqueue(3), Err(3));
    assert!(matches!(rb.poison(0), PoisonStep::Wait));
    assert_eq!(rb.rb_items(), vec![Some(1), Some(2)]);
}

#[test]
fn buffer_without_slots_only_waits() {
    let mut rb: MultiThreadedRingBuffer<u32> = MultiThreadedRingBuffer::new(0);
    assert!(rb.is_empty());
    assert!(rb.is_full());
    assert_eq!(rb.enqueue(1), Err(1));
    assert!(matches!(rb.dequeue(), Dequeued::Wait));
    assert!(matches!(rb.poison(0), PoisonStep::Done));
    assert!(rb.clear_poison());
    assert_eq!(rb.next_enqueue_index(), 0);
    assert_eq!(rb.next_dequeue_index(), 0);
    assert_eq!(rb.rb_items(), vec![]);
}

#[test]
fn indices_and_slots_wrap_around() {
    let mut rb = filled(3, &[1, 2]);
    assert_eq!((rb.next_dequeue_index(), rb.next_enqueue_index()), (0, 2));
    assert_eq!(item_of(rb.dequeue()), Some(1));
    assert!(rb.enqueue(3).is_ok());
    assert!(rb.enqueue(4).is_ok());
    assert_eq!((rb.next_dequeue_index(), rb.next_enqueue_index()), (1, 1));
    assert_eq!(rb.rb_items(), vec![Some(4), Some(2), Some(3)]);
    assert_eq!(rb.get(0), Some(4));
    assert_eq!(rb.get(rb.next_dequeue_index()), Some(2));
    assert_eq!(item_of(rb.dequeue()), Some(2));
    assert_eq!(rb.get(1), None);
    assert_eq!(rb.rb_items(), vec![Some(4), None, Some(3)]);
}

#[test]
fn poison_follows_the_items() {
    let mut rb = filled(2, &[7]);
    assert!(matches!(rb.poison(0), PoisonStep::Sent));
    assert!(matches!(rb.poison(1), PoisonStep::Wait));
    assert_eq!(item_of(rb.dequeue()), Some(7));
    assert!(matches!(rb.poison(1), PoisonStep::Sent));
    assert!(matches!(rb.poison(2), PoisonStep::Done));
    assert!(rb.is_full());
    assert_eq!(rb.enqueue(8), Err(8));
    assert_eq!(rb.rb_items(), vec![None, None]);
    assert_eq!(item_of(rb.dequeue()), None);
    assert_eq!(item_of(rb.dequeue()), None);
    assert!(rb.is_empty());
}

#[test]
fn poison_fills_an_empty_ring() {
    let mut rb: MultiThreadedRingBuffer<u32> = MultiThreadedRingBuffer::new(3);
    for sent in 0..3 {
        assert!(matches!(rb.poison(sent), PoisonStep::Sent));
    }
    assert!(matches!(rb.poison(3), PoisonStep::Done));
    assert!(rb.is_full());
    assert_eq!(rb.enqueue(1), Err(1));
    assert!(rb.clear_poison());
    assert!(rb.enqueue(1).is_ok());
}

fn poisoned(capacity: usize) -> MultiThreadedRingBuffer<i32> {
    let mut rb: MultiThreadedRingBuffer<i32> = MultiThreadedRingBuffer::new(capacity);
    let mut sent: usize = 0;
    while matches!(rb.poison(sent), PoisonStep::Sent) {
        sent += 1;
    }
    assert_eq!(sent, capacity);
    rb
}

#[test]
fn poisoned_buffer_takes_no_item() {
    let mut rb = poisoned(2);
    assert!(matches!(rb.dequeue(), Dequeued::Entry(None)));
    assert!(!rb.is_full());
    assert_eq!(rb.enqueue(5), Err(5));
    assert_eq!(rb.rb_items(), vec![None, None]);
    assert!(matches!(rb.dequeue(), Dequeued::Entry(None)));
    assert_eq!(rb.enqueue(5), Err(5));
    assert!(rb.is_empty());
}

#[test]
fn clear_poison_resets_a_poisoned_buffer() {
    let mut rb = poisoned(2);
    assert!(matches!(rb.dequeue(), Dequeued::Entry(None)));
    assert_eq!(rb.next_dequeue_index(), 1);
    assert!(rb.clear_poison());
    assert!(rb.is_empty());
    assert_eq!((rb.next_enqueue_index(), rb.next_dequeue_index()), (0, 0));
    assert!(!rb.clear_poison());
    assert!(rb.enqueue(5).is_ok());
}

#[test]
fn clear_takes_the_poison_away() {
    let mut rb = poisoned(2);
    rb.clear();
    assert!(rb.enqueue(5).is_ok());
    assert!(!rb.clear_poison());
}

#[test]
fn items_may_come_until_poisoning_ends() {
    let mut rb = filled(2, &[]);
    assert!(matches!(rb.poison(0), PoisonStep::Sent));
    assert!(rb.enqueue(1).is_ok());
    assert_eq!(item_of(rb.dequeue()), None);
    assert!(matches!(rb.poison(1), PoisonStep::Sent));
    assert!(matches!(rb.poison(2), PoisonStep::Done));
    assert_eq!(item_of(rb.dequeue()), Some(1));
    assert_eq!(rb.enqueue(2), Err(2));
}

#[test]
fn dequeue_undoes_enqueue_on_an_empty_ring() {
    let mut rb: MultiThreadedRingBuffer<u32> = MultiThreadedRingBuffer::new(2);
    for item in [5, 6, 7] {
        assert!(rb.enqueue(item).is_ok());
        assert_eq!(item_of(rb.dequeue()), Some(item));
        assert!(rb.is_empty());
    }
}

#[test]
fn clear_poison_needs_a_full_buffer() {
    let mut rb = filled(2, &[7]);
    assert!(!rb.clear_poison());
    assert_eq!(rb.rb_items(), vec![Some(7), None]);
    assert!(rb.enqueue(8).is_ok());
    assert!(rb.clear_poison());
    assert!(rb.is_empty());
    assert_eq!(rb.rb_items(), vec![None, None]);
}

#[test]
fn clear_makes_the_ring_new() {
    let mut rb = filled(3, &[1, 2]);
    assert_eq!(item_of(rb.dequeue()), Some(1));
    rb.clear();
    assert!(rb.is_empty());
    assert!(!rb.is_full());
    assert_eq!((rb.next_dequeue_index(), rb.next_enqueue_index()), (0, 0));
    assert_eq!(rb.rb_items(), vec![None, None, None]);
}

#[test]
fn ring_is_printed_slot_by_slot() {
    let rb = filled(3, &[1, 20]);
    let text = rb.print_buffer(|item: &Option<u32>| format!("{:?}", item));
    assert_eq!(text, "[Some(1), Some(20), None, ]");
    let empty: MultiThreadedRingBuffer<u32> = MultiThreadedRingBuffer::new(0);
    assert_eq!(empty.print_buffer(|item: &Option<u32>| format!("{:?}", item)), "[]");
}

#[test]
fn consumer_counts_items_only() {
    let mut rb: MultiThreadedRingBuffer<usize> = MultiThreadedRingBuffer::new(3);
    let mut counter: usize = 0;
    assert_eq!(dequeue_items(&mut rb, &mut counter), Drain::Wait);
    assert!(rb.enqueue(20).is_ok());
    assert!(matches!(rb.poison(0), PoisonStep::Sent));
    assert_eq!(dequeue_items(&mut rb, &mut counter), Drain::Counted);
    assert_eq!(counter, 1);
    assert_eq!(dequeue_items(&mut rb, &mut counter), Drain::Finished);
    assert_eq!(counter, 1);
    assert!(rb.is_empty());
}
