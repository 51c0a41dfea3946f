use generic_ringbuffers::cursor::ShardCursor;
use generic_ringbuffers::lock_free_sharded_multithreaded_ring_buffer::{Attempt, Sweep};
use generic_ringbuffers::multithreaded_ring_buffer::Dequeued;
use generic_ringbuffers::shard_set::{AcquireStep, Probe, ShardSet};
use generic_ringbuffers::sharded_multithreaded_ring_buffer::EnqStatus;
use generic_ringbuffers::shards::{Acquire, InvalidIndex};
use generic_ringbuffers::{
    LFShardedMultiThreadedRingBuffer, MultiThreadedRingBuffer, ShardedMultiThreadedRingBuffer,
};

fn acquired(
    rb: &mut ShardedMultiThreadedRingBuffer<u32>,
    acquire: Acquire,
    start: usize,
) -> Option<usize> {
    let mut cursor = ShardCursor::starting_at(start);
    match rb.acquire_shard(acquire, &mut cursor) {
        AcquireStep::Done(found) => found,
        AcquireStep::Sleep(_) => panic!("nothing found"),
    }
}

fn store(rb: &mut ShardedMultiThreadedRingBuffer<u32>, start: usize, item: u32) {
    let current = acquired(rb, Acquire::Enqueue, start);
    assert_eq!(rb.enqueue(current, item), EnqStatus::Success);
}

#[test]
fn each_shard_hands_out_in_order() {
    let mut rb: ShardedMultiThreadedRingBuffer<u32> = ShardedMultiThreadedRingBuffer::new(6, 2);
    for item in [1, 2, 3] {
        store(&mut rb, 0, item);
    }
    store(&mut rb, 0, 4);
    assert!(rb.is_shard_full(0));
    assert!(!rb.is_shard_empty(1));
    for item in [1, 2, 3, 4] {
        let current = acquired(&mut rb, Acquire::Dequeue, 0);
        assert_eq!(rb.dequeue(current), Some(item));
    }
    assert!(rb.is_empty());
}

#[test]
fn tasks_interleave_without_losing_items() {
    let mut rb: ShardedMultiThreadedRingBuffer<u32> = ShardedMultiThreadedRingBuffer::new(4, 2);
    let first = acquired(&mut rb, Acquire::Enqueue, 0);
    let second = acquired(&mut rb, Acquire::Enqueue, 0);
    assert_eq!((first, second), (Some(0), Some(1)));
    assert_eq!(rb.enqueue(second, 20), EnqStatus::Success);
    let third = acquired(&mut rb, Acquire::Dequeue, 0);
    assert_eq!(third, Some(1));
    assert_eq!(rb.enqueue(first, 10), EnqStatus::Success);
    assert_eq!(rb.dequeue(third), Some(20));
    let last = acquired(&mut rb, Acquire::Dequeue, 1);
    assert_eq!(last, Some(0));
    assert_eq!(rb.dequeue(last), Some(10));
    assert!(rb.is_empty());
}

#[test]
fn capacity_is_rounded_up() {
    let mut rb: ShardedMultiThreadedRingBuffer<u32> = ShardedMultiThreadedRingBuffer::new(7, 3);
    for item in 0..9 {
        assert!(!rb.is_full());
        store(&mut rb, 0, item);
    }
    assert!(rb.is_full());
    let exact: ShardedMultiThreadedRingBuffer<u32> = ShardedMultiThreadedRingBuffer::new(6, 3);
    assert_eq!(exact.rb_items(), vec![vec![None, None], vec![None, None], vec![None, None]]);
    let none: ShardedMultiThreadedRingBuffer<u32> = ShardedMultiThreadedRingBuffer::new(0, 1);
    assert!(!none.is_full());
    assert_eq!(none.rb_items(), vec![vec![None]]);
}

#[test]
fn clear_makes_the_shards_new() {
    let mut rb: ShardedMultiThreadedRingBuffer<u32> = ShardedMultiThreadedRingBuffer::new(4, 2);
    store(&mut rb, 0, 1);
    let current = acquired(&mut rb, Acquire::Dequeue, 0);
    assert_eq!(rb.dequeue(current), Some(1));
    store(&mut rb, 0, 2);
    rb.poison();
    rb.clear();
    assert!(rb.is_empty());
    assert_eq!(rb.next_enqueue_index_for_shard(0), Some(0));
    assert_eq!(rb.next_dequeue_index_for_shard(0), Some(0));
    assert_eq!(acquired(&mut rb, Acquire::Dequeue, 0), None);
    assert!(rb.clear_poison());
    assert!(!rb.clear_poison());
}

#[test]
fn readers_see_the_slots() {
    let mut rb: ShardedMultiThreadedRingBuffer<u32> = ShardedMultiThreadedRingBuffer::new(4, 2);
    store(&mut rb, 1, 8);
    assert_eq!(rb.next_enqueue_index_for_shard(1), Some(1));
    assert_eq!(rb.next_dequeue_index_for_shard(1), Some(0));
    assert_eq!(rb.next_enqueue_index_for_shard(2), None);
    assert_eq!(rb.next_dequeue_index_for_shard(2), None);
    assert_eq!(rb.get_item_in_shard(0, 1), Some(8));
    assert_eq!(rb.get_item_in_shard(1, 1), None);
    assert_eq!(rb.get_item_in_shard(2, 1), None);
    assert_eq!(rb.get_item_in_shard(0, 2), None);
    assert_eq!(rb.invalid_index(1, Some(2)), Some(InvalidIndex::Item));
    assert_eq!(rb.invalid_index(2, None), Some(InvalidIndex::Shard));
    assert_eq!(rb.invalid_index(1, None), None);
    assert_eq!(rb.rb_items_at_shard(1), Some(vec![Some(8), None]));
    assert_eq!(rb.rb_items_at_shard(2), None);
    assert_eq!(rb.rb_items(), vec![vec![None, None], vec![Some(8), None]]);
}

#[test]
fn shards_are_printed_line_by_line() {
    let mut rb: ShardedMultiThreadedRingBuffer<u32> = ShardedMultiThreadedRingBuffer::new(2, 2);
    store(&mut rb, 1, 8);
    let text = rb.print_buffer(|item: &Option<u32>| format!("{:?}", item));
    assert_eq!(text, "Shard 0: [None, ]\nShard 1: [Some(8), ]\n");
}

#[test]
fn search_goes_on_where_it_paused() {
    let mut rb: ShardedMultiThreadedRingBuffer<u32> = ShardedMultiThreadedRingBuffer::new(2, 2);
    let mut thread_index: Option<usize> = Some(0);
    let mut cursor = rb.begin_acquire(&mut thread_index);
    assert_eq!(thread_index, Some(1));
    assert!(matches!(rb.acquire_shard(Acquire::Dequeue, &mut cursor), AcquireStep::Sleep(ms) if ms <= 1));
    store(&mut rb, 0, 5);
    assert!(matches!(
        rb.acquire_shard(Acquire::Dequeue, &mut cursor),
        AcquireStep::Done(Some(0))
    ));
    assert_eq!(rb.dequeue(Some(0)), Some(5));
}

#[test]
fn probe_looks_at_one_shard() {
    let mut set: ShardSet<u32> = ShardSet::new(2, 2);
    let mut cursor = ShardCursor::starting_at(1);
    assert!(matches!(set.probe_shard(Acquire::Enqueue, true, &mut cursor), Probe::Passed(false)));
    assert!(matches!(set.probe_shard(Acquire::Dequeue, false, &mut cursor), Probe::Passed(true)));
    assert!(matches!(
        set.probe_shard(Acquire::Enqueue, false, &mut cursor),
        Probe::Done(Some(1))
    ));
    assert!(set.is_shard_taken(1));
    assert!(matches!(set.probe_shard(Acquire::Enqueue, false, &mut cursor), Probe::Passed(false)));
    assert_eq!(set.enqueue_item(Some(1), None), EnqStatus::Success);
    assert!(!set.is_shard_taken(1));
    assert!(set.is_shard_full(1));
    let mut cursor = ShardCursor::starting_at(0);
    assert!(matches!(
        set.scan_shards(Acquire::Dequeue, true, &mut cursor),
        AcquireStep::Sleep(1)
    ));
    assert!(matches!(
        set.scan_shards(Acquire::Dequeue, false, &mut cursor),
        AcquireStep::Done(Some(1))
    ));
}

#[test]
fn one_shard_is_the_single_ring() {
    let mut single: MultiThreadedRingBuffer<u32> = MultiThreadedRingBuffer::new(3);
    let mut locked: ShardedMultiThreadedRingBuffer<u32> = ShardedMultiThreadedRingBuffer::new(3, 1);
    let mut lock_free: LFShardedMultiThreadedRingBuffer<u32> =
        LFShardedMultiThreadedRingBuffer::new(3, 1);
    for (number, call) in "eededeeddecededeee".chars().enumerate() {
        let item = number as u32;
        match call {
            'e' => {
                assert!(single.enqueue(item).is_ok());
                store(&mut locked, 0, item);
                let mut cursor = ShardCursor::starting_at(0);
                match lock_free.acquire_shard(Acquire::Enqueue, &mut cursor) {
                    AcquireStep::Done(current) => {
                        assert_eq!(lock_free.enqueue(current, item), EnqStatus::Success);
                    }
                    AcquireStep::Sleep(_) => panic!("there is space"),
                }
            }
            'd' => {
                let expected = match single.dequeue() {
                    Dequeued::Entry(item) => item,
                    Dequeued::Wait => panic!("there is an item"),
                };
                let current = acquired(&mut locked, Acquire::Dequeue, 0);
                assert_eq!(locked.dequeue(current), expected);
                let mut cursor = ShardCursor::starting_at(0);
                match lock_free.acquire_shard(Acquire::Dequeue, &mut cursor) {
                    AcquireStep::Done(current) => assert_eq!(lock_free.dequeue(current), expected),
                    AcquireStep::Sleep(_) => panic!("there is an item"),
                }
            }
            _ => {
                single.clear();
                locked.clear();
                assert_eq!(lock_free.clear(&mut Sweep::new()), Attempt::Ready(()));
            }
        }
        let rows = vec![single.rb_items()];
        assert_eq!(locked.rb_items(), rows);
        assert_eq!(lock_free.rb_items(&mut Sweep::new()), Attempt::Ready(rows));
    }
    assert!(single.is_full() && locked.is_full() && lock_free.is_full());
}
