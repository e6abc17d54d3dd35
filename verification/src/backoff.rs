//! Backoff policy for the proposer's retry loop.
//!
//! Two policies, per the round algorithm: a uniformly jittered pause after a
//! contention defeat (a competing higher number was observed), which
//! desynchronizes colliding proposers, and a fixed pause after a quorum
//! shortfall, which usually means a connectivity problem rather than a
//! collision.

use rand::Rng;
use vstd::prelude::*;

verus! {

/// Relies on rand::thread_rng and rand::Rng::gen_range: a uniform sample
/// within the given half-open range, here 3000..5000.
#[verifier::external_body]
fn sample_contention_jitter_ms() -> (r: u64)
    ensures
        3000 <= r < 5000,
{
    rand::thread_rng().gen_range(3000u64..5000u64)
}

/// How long to pause before retrying after this attempt was outdated by a
/// competing proposer: a random duration in the jitter window of 3000 to
/// 5000 milliseconds.
pub fn contention_backoff_ms() -> (r: u64)
    ensures
        3000 <= r < 5000,
{
    sample_contention_jitter_ms()
}

/// How long to pause before retrying after fewer than a quorum of acceptors
/// answered phase 1: a fixed 5000 milliseconds.
pub fn shortfall_backoff_ms() -> (r: u64)
    ensures
        r == 5000,
{
    5000
}

} // verus!
