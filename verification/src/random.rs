//! Random numbers, drawn from the generator of the current thread.
use rand::Rng;
use vstd::prelude::*;

verus! {

/// Draws a shard out of `shards` with `rand::Rng::random_range` on the range
/// from 0 up to, and without, `shards`.
///
/// Claimed of that function: it returns a number of the range that it is given,
/// and it does not panic on a range that is not empty. Which number it is rests
/// on chance, so nothing more is said of it. Nor is anything said of a system
/// that gives the generator no seed, be it when the thread first asks for one or
/// when the generator is seeded anew later on.
#[verifier::external_body]
pub(crate) fn random_shard(shards: usize) -> (shard: usize)
    requires
        shards > 0,
    ensures
        shard < shards,
{
    rand::rng().random_range(0..shards)
}

/// Draws a waiting time of at most `max_ms` with `rand::Rng::random_range` on
/// the range from 0 up to, and with, `max_ms`.
///
/// Claimed of that function: it returns a number of the range that it is given,
/// which is never empty here. Which number it is rests on chance, so nothing
/// more is said of it. Nor is anything said of a system that gives the generator
/// no seed, be it when the thread first asks for one or when the generator is
/// seeded anew later on.
#[verifier::external_body]
pub(crate) fn random_jitter(max_ms: u64) -> (jitter: u64)
    ensures
        jitter <= max_ms,
{
    rand::rng().random_range(0..=max_ms)
}

} // verus!
