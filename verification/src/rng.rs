//! The randomness collaborator: a uniform integer source.

use vstd::prelude::*;
use rand::Rng;

verus! {

/// Draws an integer uniformly from the inclusive range `[lo, hi]`.
///
/// Relies on `rand::thread_rng` and `rand::Rng::gen_range`: for a non-empty
/// inclusive range the sample lies within that range. Nothing more is assumed
/// of a random value; `gen_range` panics on an empty range, which the
/// precondition rules out.
#[verifier::external_body]
pub(crate) fn random_in_range(lo: i32, hi: i32) -> (r: i32)
    requires
        lo <= hi,
    ensures
        lo <= r <= hi,
{
    rand::thread_rng().gen_range(lo..=hi)
}

} // verus!
