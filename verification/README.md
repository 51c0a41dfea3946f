# generic_ringbuffers

Ring (circular) buffers for producers and consumers that work side by side,
verified with Verus.

- `MultiThreadedRingBuffer`: one ring. Producers wait while it is full or
  poisoned, consumers while it is empty; all of them are woken by notifications.
- `ShardedMultiThreadedRingBuffer`: several rings, the shards, behind a lock
  with readers and writers. A task searches for a shard that nobody has taken.
- `LFShardedMultiThreadedRingBuffer`: several shards without a lock. Each shard
  has a flag that says whether it is taken; a global flag lets one task at a
  time get hold of all shards.

## Steps

An operation that may have to wait is made of steps. A step never waits: it does
its work at once, or says what to wait for. For example, to enqueue to a sharded
buffer, call `begin_acquire`, then `acquire_shard` until it is done, sleeping for
the time it returns in between, and hand the shard that it found to `enqueue`.
The crate in `app/` does this on tokio.

## Layout

- `src/ring.rs`, `src/shards.rs`, `src/sweep.rs`, `src/cursor.rs`: the models
  that contracts speak of: a bounded queue in a circle, shards, a task that takes
  all shards, and a walk around the shards.
- `src/inner_ring_buffer.rs`, `src/shard_set.rs`: the data and the steps on it.
- `src/multithreaded_ring_buffer.rs`, `src/sharded_multithreaded_ring_buffer.rs`,
  `src/lock_free_sharded_multithreaded_ring_buffer.rs`: the three buffers.
- `src/drain.rs`: a consumer that counts items.
- `src/text.rs`: how contents are written out.
- `src/random.rs`: random numbers from `rand`; what is claimed of them is trusted.
- `src/ring_laws.rs`, `src/shard_laws.rs`, `src/call_laws.rs`,
  `src/interleaving.rs`: what holds over several operations, and for any number of
  tasks whose steps come in any order.
- `app/`: the buffers on tokio, and a program that uses one of them.
