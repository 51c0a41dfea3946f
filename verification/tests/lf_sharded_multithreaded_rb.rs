use generic_ringbuffers::cursor::ShardCursor;
use generic_ringbuffers::lock_free_sharded_multithreaded_ring_buffer::{
    Attempt, EnqStatus, Sweep,
};
use generic_ringbuffers::shard_set::AcquireStep;
use generic_ringbuffers::shards::{Acquire, InvalidIndex};
use generic_ringbuffers::LFShardedMultiThreadedRingBuffer;
use std::sync::{Arc, Mutex};
use std::time::Duration;

type Shared = Mutex<LFShardedMultiThreadedRingBuffer<usize>>;

async fn acquire_shared(rb: &Shared, acquire: Acquire) -> Option<usize> {
    let mut thread_index: Option<usize> = None;
    let mut cursor = rb.lock().unwrap().begin_acquire(&mut thread_index);
    loop {
        let step = rb.lock().unwrap().acquire_shard(acquire, &mut cursor);
        match step {
            AcquireStep::Done(found) => return found,
            AcquireStep::Sleep(ms) => tokio::time::sleep(Duration::from_millis(ms)).await,
        }
    }
}

#[test]
fn lf_sharded_multithreaded_rb_test_counter() {
    const MAX_ITEMS: usize = 100;
    const MAX_SHARDS: usize = 10;
    const MAX_THREADS: usize = 5;
    let runtime = tokio::runtime::Builder::new_multi_thread()
        .worker_threads(4)
        .enable_time()
        .build()
        .unwrap();
    let items_taken = runtime.block_on(async {
        let mtrb: Arc<Shared> =
            Arc::new(Mutex::new(LFShardedMultiThreadedRingBuffer::new(MAX_ITEMS, MAX_SHARDS)));
        let mut threads = Vec::with_capacity(MAX_THREADS);
        for _ in 0..MAX_THREADS {
            let mtrb = Arc::clone(&mtrb);
            threads.push(tokio::spawn(async move {
                let mut counter: usize = 0;
                loop {
                    let current = acquire_shared(&mtrb, Acquire::Dequeue).await;
                    let item: Option<usize> = mtrb.lock().unwrap().dequeue(current);
                    match item {
                        Some(_) => counter += 1,
                        None => break,
                    }
                }
                counter
            }));
        }
        for _ in 0..2 * MAX_ITEMS {
            let current = acquire_shared(&mtrb, Acquire::Enqueue).await;
            assert_eq!(mtrb.lock().unwrap().enqueue(current, 20), EnqStatus::Success);
        }
        for _ in 0..MAX_THREADS {
            mtrb.lock().unwrap().poison();
        }
        let mut items_taken: usize = 0;
        while let Some(curr_thread) = threads.pop() {
            items_taken += curr_thread.await.unwrap();
        }
        items_taken
    });
    assert_eq!(200, items_taken);
}

struct Worker {
    thread_index: Option<usize>,
    cursor: Option<ShardCursor>,
    held: Option<usize>,
    done: usize,
}

impl Worker {
    fn new(index: usize) -> Self {
        Worker { thread_index: Some(index), cursor: None, held: None, done: 0 }
    }

    fn search(&mut self, rb: &mut LFShardedMultiThreadedRingBuffer<usize>, acquire: Acquire) {
        let mut cursor = match self.cursor.take() {
            Some(cursor) => cursor,
            None => rb.begin_acquire(&mut self.thread_index),
        };
        match rb.acquire_shard(acquire, &mut cursor) {
            AcquireStep::Done(found) => self.held = Some(found.unwrap()),
            AcquireStep::Sleep(_) => self.cursor = Some(cursor),
        }
    }
}

#[test]
fn benchmark_sharded_buffer() {
    let max_items: usize = 1000000;
    const MAX_SHARDS: usize = 10;
    const MAX_THREADS: usize = 8;
    let mut rb: LFShardedMultiThreadedRingBuffer<usize> =
        LFShardedMultiThreadedRingBuffer::new(max_items, MAX_SHARDS);
    let mut enqueuers: Vec<Worker> = (0..MAX_THREADS).map(Worker::new).collect();
    let mut dequeuers: Vec<Worker> = (0..MAX_THREADS).map(Worker::new).collect();
    let mut items_taken: usize = 0;
    while items_taken < max_items * MAX_THREADS {
        for worker in enqueuers.iter_mut() {
            if let Some(shard) = worker.held.take() {
                assert_eq!(rb.enqueue(Some(shard), 20), EnqStatus::Success);
                worker.done += 1;
            } else if worker.done < max_items {
                worker.search(&mut rb, Acquire::Enqueue);
            }
        }
        for worker in dequeuers.iter_mut() {
            if let Some(shard) = worker.held.take() {
                assert_eq!(rb.dequeue(Some(shard)), Some(20));
                worker.done += 1;
                items_taken += 1;
            } else if worker.done < max_items {
                worker.search(&mut rb, Acquire::Dequeue);
            }
        }
    }
    assert_eq!(max_items * MAX_THREADS, items_taken);
    assert!(rb.is_empty());
}

fn found(
    rb: &mut LFShardedMultiThreadedRingBuffer<usize>,
    acquire: Acquire,
    start: usize,
) -> Option<usize> {
    let mut cursor = ShardCursor::starting_at(start);
    match rb.acquire_shard(acquire, &mut cursor) {
        AcquireStep::Done(found) => found,
        AcquireStep::Sleep(_) => panic!("nothing found"),
    }
}

fn put(rb: &mut LFShardedMultiThreadedRingBuffer<usize>, start: usize, item: usize) -> usize {
    let current = found(rb, Acquire::Enqueue, start);
    assert_eq!(rb.enqueue(current, item), EnqStatus::Success);
    current.unwrap()
}

fn sleeps(rb: &mut LFShardedMultiThreadedRingBuffer<usize>, acquire: Acquire) -> bool {
    let mut cursor = ShardCursor::starting_at(0);
    matches!(rb.acquire_shard(acquire, &mut cursor), AcquireStep::Sleep(ms) if ms <= 1)
}

#[test]
fn free_shard_is_found_in_ring_order() {
    let mut rb: LFShardedMultiThreadedRingBuffer<usize> = LFShardedMultiThreadedRingBuffer::new(3, 3);
    assert_eq!(found(&mut rb, Acquire::Enqueue, 2), Some(2));
    assert_eq!(found(&mut rb, Acquire::Enqueue, 2), Some(0));
    assert_eq!(found(&mut rb, Acquire::Enqueue, 0), Some(1));
    assert!(sleeps(&mut rb, Acquire::Enqueue));
    assert_eq!(rb.enqueue(Some(0), 5), EnqStatus::Success);
    assert!(rb.is_shard_full(0));
    assert!(sleeps(&mut rb, Acquire::Enqueue));
    assert_eq!(found(&mut rb, Acquire::Dequeue, 1), Some(0));
    assert_eq!(rb.dequeue(Some(0)), Some(5));
    assert!(rb.is_shard_empty(0));
}

#[test]
fn poisoned_buffer_is_drained_first() {
    let mut rb: LFShardedMultiThreadedRingBuffer<usize> = LFShardedMultiThreadedRingBuffer::new(4, 2);
    assert!(sleeps(&mut rb, Acquire::Dequeue));
    put(&mut rb, 1, 7);
    rb.poison();
    let current = found(&mut rb, Acquire::Dequeue, 0);
    assert_eq!(current, Some(1));
    assert_eq!(rb.dequeue(current), Some(7));
    let current = found(&mut rb, Acquire::Dequeue, 0);
    assert_eq!(current, None);
    assert_eq!(rb.dequeue(current), None);
    assert!(found(&mut rb, Acquire::Enqueue, 0).is_some());
    assert!(rb.clear_poison());
    assert!(!rb.clear_poison());
    assert!(sleeps(&mut rb, Acquire::Dequeue));
}

#[test]
fn task_without_a_shard_learns_of_the_poison() {
    let mut rb: LFShardedMultiThreadedRingBuffer<usize> = LFShardedMultiThreadedRingBuffer::new(4, 2);
    assert_eq!(rb.enqueue(None, 1), EnqStatus::Poisoned);
    assert!(rb.is_empty());
}

#[test]
fn lock_free_capacity_is_rounded_up() {
    let mut rb: LFShardedMultiThreadedRingBuffer<usize> = LFShardedMultiThreadedRingBuffer::new(5, 3);
    for item in 0..6 {
        assert!(!rb.is_full());
        put(&mut rb, item % 3, item);
    }
    assert!(rb.is_full());
    let mut tiny: LFShardedMultiThreadedRingBuffer<usize> = LFShardedMultiThreadedRingBuffer::new(0, 2);
    assert!(tiny.is_empty());
    assert!(!tiny.is_full());
    put(&mut tiny, 0, 1);
    put(&mut tiny, 0, 2);
    assert!(tiny.is_full());
}

#[test]
fn sweep_waits_for_taken_shards() {
    let mut rb: LFShardedMultiThreadedRingBuffer<usize> = LFShardedMultiThreadedRingBuffer::new(6, 3);
    put(&mut rb, 0, 10);
    put(&mut rb, 2, 30);
    let held = found(&mut rb, Acquire::Enqueue, 1);
    assert_eq!(held, Some(1));
    let mut sweep = Sweep::new();
    assert_eq!(rb.clear(&mut sweep), Attempt::Busy);
    // The flag is up: nobody else gets a shard, and nobody else can sweep.
    assert!(sleeps(&mut rb, Acquire::Enqueue));
    let mut other = Sweep::new();
    assert_eq!(rb.rb_items(&mut other), Attempt::Busy);
    assert_eq!(rb.next_enqueue_index_for_shard(0), Attempt::Busy);
    assert_eq!(rb.next_enqueue_index_for_shard(2), Attempt::Ready(Some(1)));
    assert_eq!(rb.enqueue(held, 20), EnqStatus::Success);
    assert_eq!(rb.clear(&mut sweep), Attempt::Ready(()));
    assert!(rb.is_empty());
    assert_eq!(
        rb.rb_items(&mut other),
        Attempt::Ready(vec![vec![None, None], vec![None, None], vec![None, None]])
    );
    assert_eq!(found(&mut rb, Acquire::Enqueue, 1), Some(1));
}

#[test]
fn lock_free_clear_keeps_the_poison() {
    let mut rb: LFShardedMultiThreadedRingBuffer<usize> = LFShardedMultiThreadedRingBuffer::new(2, 1);
    put(&mut rb, 0, 1);
    rb.poison();
    assert_eq!(rb.clear(&mut Sweep::new()), Attempt::Ready(()));
    assert!(rb.is_empty());
    assert!(rb.clear_poison());
}

#[test]
fn lock_free_readers_see_the_slots() {
    let mut rb: LFShardedMultiThreadedRingBuffer<usize> = LFShardedMultiThreadedRingBuffer::new(4, 2);
    put(&mut rb, 0, 1);
    put(&mut rb, 0, 2);
    put(&mut rb, 1, 3);
    let current = found(&mut rb, Acquire::Dequeue, 0);
    assert_eq!(rb.dequeue(current), Some(1));
    assert_eq!(rb.next_dequeue_index_for_shard(0), Attempt::Ready(Some(1)));
    assert_eq!(rb.next_enqueue_index_for_shard(0), Attempt::Ready(Some(0)));
    assert_eq!(rb.next_dequeue_index_for_shard(2), Attempt::Ready(None));
    assert_eq!(rb.next_enqueue_index_for_shard(2), Attempt::Ready(None));
    assert_eq!(rb.get_item_in_shard(1, 0), Attempt::Ready(Some(2)));
    assert_eq!(rb.get_item_in_shard(0, 0), Attempt::Ready(None));
    assert_eq!(rb.get_item_in_shard(2, 0), Attempt::Ready(None));
    assert_eq!(rb.get_item_in_shard(0, 2), Attempt::Ready(None));
    assert_eq!(rb.invalid_index(0, Some(1)), None);
    assert_eq!(rb.invalid_index(0, Some(2)), Some(InvalidIndex::Item));
    assert_eq!(rb.invalid_index(2, Some(2)), Some(InvalidIndex::Shard));
    assert_eq!(InvalidIndex::Shard.message(), "Invalid shard index");
    assert_eq!(InvalidIndex::Item.message(), "Invalid item index");
    assert_eq!(rb.rb_items_at_shard(1), Attempt::Ready(Some(vec![Some(3), None])));
    assert_eq!(rb.rb_items_at_shard(2), Attempt::Ready(None));
    assert_eq!(
        rb.rb_items(&mut Sweep::new()),
        Attempt::Ready(vec![vec![None, Some(2)], vec![Some(3), None]])
    );
    let text = rb.print_buffer(&mut Sweep::new(), |item: &Option<usize>| format!("{:?}", item));
    let expected = "Shard 0: [None, Some(2), ]\nShard 1: [Some(3), None, ]\n";
    assert_eq!(text, Attempt::Ready(expected.to_string()));
    assert_eq!(found(&mut rb, Acquire::Dequeue, 0), Some(0));
    assert_eq!(rb.get_item_in_shard(1, 0), Attempt::Busy);
    assert_eq!(rb.rb_items_at_shard(0), Attempt::Busy);
    assert_eq!(rb.next_dequeue_index_for_shard(0), Attempt::Busy);
    let busy = rb.print_buffer(&mut Sweep::new(), |item: &Option<usize>| format!("{:?}", item));
    assert_eq!(busy, Attempt::Busy);
}

#[test]
fn pauses_stay_within_the_backoff() {
    let mut rb: LFShardedMultiThreadedRingBuffer<usize> = LFShardedMultiThreadedRingBuffer::new(2, 2);
    let mut longest: u64 = 0;
    let mut shorter_than_allowed = 0;
    for _ in 0..50 {
        let mut cursor = ShardCursor::starting_at(0);
        for limit in [1, 2, 4, 8, 16, 20, 20] {
            match rb.acquire_shard(Acquire::Dequeue, &mut cursor) {
                AcquireStep::Sleep(ms) => {
                    assert!(ms <= limit);
                    longest = longest.max(ms);
                    if ms < limit {
                        shorter_than_allowed += 1;
                    }
                }
                AcquireStep::Done(_) => panic!("nothing to dequeue"),
            }
        }
    }
    assert!(longest > 2);
    assert!(shorter_than_allowed > 0);
}

#[test]
fn enqueues_of_one_thread_spread_evenly() {
    for start in 0..4 {
        let mut rb: LFShardedMultiThreadedRingBuffer<usize> =
            LFShardedMultiThreadedRingBuffer::new(12, 4);
        let mut thread_index: Option<usize> = Some(start);
        for n in 1..13 {
            let mut cursor = rb.begin_acquire(&mut thread_index);
            match rb.acquire_shard(Acquire::Enqueue, &mut cursor) {
                AcquireStep::Done(current) => {
                    assert_eq!(rb.enqueue(current, n), EnqStatus::Success);
                }
                AcquireStep::Sleep(_) => panic!("there is space"),
            }
            for shard in 0..4 {
                match rb.rb_items_at_shard(shard) {
                    Attempt::Ready(Some(slots)) => {
                        let load = slots.iter().filter(|slot| slot.is_some()).count();
                        assert!(load == n / 4 || load == n / 4 + 1);
                    }
                    other => panic!("unexpected {:?}", other),
                }
            }
        }
        assert!(rb.is_full());
    }
}

#[test]
fn dequeues_of_one_thread_drain_evenly() {
    for start in 0..4 {
        for poisoned in [false, true] {
            let mut rb: LFShardedMultiThreadedRingBuffer<usize> =
                LFShardedMultiThreadedRingBuffer::new(12, 4);
            // Shard s gets the items 10 * s, 10 * s + 1 and 10 * s + 2.
            let mut thread_index: Option<usize> = Some(3);
            for turn in 0..3 {
                for shard in 0..4 {
                    let mut cursor = rb.begin_acquire(&mut thread_index);
                    match rb.acquire_shard(Acquire::Enqueue, &mut cursor) {
                        AcquireStep::Done(current) => {
                            assert_eq!(current, Some(shard));
                            assert_eq!(rb.enqueue(current, 10 * shard + turn), EnqStatus::Success);
                        }
                        AcquireStep::Sleep(_) => panic!("there is space"),
                    }
                }
            }
            assert!(rb.is_full());
            if poisoned {
                rb.poison();
            }
            let mut thread_index: Option<usize> = Some(start);
            for n in 1..13 {
                let mut cursor = rb.begin_acquire(&mut thread_index);
                match rb.acquire_shard(Acquire::Dequeue, &mut cursor) {
                    AcquireStep::Done(current) => {
                        let shard = (start + n) % 4;
                        assert_eq!(current, Some(shard));
                        assert_eq!(rb.dequeue(current), Some(10 * shard + (n - 1) / 4));
                    }
                    AcquireStep::Sleep(_) => panic!("there is an item"),
                }
                for shard in 0..4 {
                    match rb.rb_items_at_shard(shard) {
                        Attempt::Ready(Some(slots)) => {
                            let lost = slots.iter().filter(|slot| slot.is_none()).count();
                            assert!(lost == n / 4 || lost == n / 4 + 1);
                        }
                        other => panic!("unexpected {:?}", other),
                    }
                }
            }
            assert!(rb.is_empty());
        }
    }
}
