//! Where the maze takes its chances from: the thread's random number
//! generator of the `rand` crate.
//!
//! What these functions return is up to chance. Their contracts state only
//! what holds of every outcome.

use rand::rngs::ThreadRng;
use rand::seq::IteratorRandom;
use rand::Rng;
use std::collections::HashSet;
use vstd::prelude::*;

verus! {

/// `rand::rngs::ThreadRng`, the handle to the random number generator of the
/// current thread.
#[verifier::external_type_specification]
#[verifier::external_body]
pub struct ExThreadRng(ThreadRng);

/// `rand::thread_rng`: the handle to this thread's generator, which the
/// system seeds on first use; it gives up only where the system has no
/// randomness to seed it with. Nothing is claimed of the handle.
#[verifier::external_body]
pub(crate) fn thread_random() -> (rng: ThreadRng) {
    rand::thread_rng()
}

/// `Rng::gen_range` on `0..high`: a number drawn from the range. Claimed is
/// that it lies in the range, so is at least 0 and less than `high`. The
/// range must not be empty. Like every draw, it gives up where the system
/// has no randomness left to reseed the generator with.
#[verifier::external_body]
pub(crate) fn random_below(rng: &mut ThreadRng, high: i32) -> (drawn: i32)
    requires
        high > 0,
    ensures
        0 <= drawn < high,
{
    rng.gen_range(0..high)
}

/// `IteratorRandom::choose` on the members of a set. Claimed is that what
/// is drawn is one of them, and that `None` comes if and only if there is
/// none. Like every draw, it gives up where the system has no randomness
/// left to reseed the generator with.
#[verifier::external_body]
pub(crate) fn random_member(rng: &mut ThreadRng, members: &HashSet<u128>) -> (drawn: Option<u128>)
    ensures
        drawn is None <==> members@.is_empty(),
        drawn matches Some(member) ==> members@.contains(member),
{
    members.iter().choose(rng).copied()
}

} // verus!
