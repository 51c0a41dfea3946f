//! Ring (circular) buffers for producers and consumers that work side by side.
//!
//! - [`MultiThreadedRingBuffer`]: one ring; producers wait while it is full or
//!   poisoned, consumers while it is empty.
//! - [`ShardedMultiThreadedRingBuffer`]: several rings, the shards, behind a
//!   lock with readers and writers.
//! - [`LFShardedMultiThreadedRingBuffer`]: several shards without a lock, each
//!   with a flag of its own.
//!
//! An operation that may have to wait is made of steps. A step never waits: it
//! does its work at once, or says what to wait for. Whoever runs the tasks does
//! the waiting and takes the next step.
#![allow(unused_imports)]

pub mod call_laws;
pub mod cursor;
pub mod drain;
pub mod inner_ring_buffer;
pub mod interleaving;
pub mod lock_free_sharded_multithreaded_ring_buffer;
pub mod multithreaded_ring_buffer;
mod random;
pub mod ring;
pub mod ring_laws;
pub mod shard_laws;
pub mod shard_set;
pub mod sharded_multithreaded_ring_buffer;
pub mod shards;
pub mod sweep;
pub mod text;

pub use crate::lock_free_sharded_multithreaded_ring_buffer::LFShardedMultiThreadedRingBuffer;
pub use crate::multithreaded_ring_buffer::MultiThreadedRingBuffer;
pub use crate::sharded_multithreaded_ring_buffer::ShardedMultiThreadedRingBuffer;
