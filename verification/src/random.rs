//! The one source of chance.
use rand::Rng;
use vstd::prelude::*;

verus! {

/// Draws a number between `low` and `high`, both included, with
/// `rand::Rng::random_range` on the generator of the calling thread (`rand::rng`).
/// Trusted: the number lies in the range it was drawn from. Which number comes is
/// left open, and two draws need not agree.
#[verifier::external_body]
pub(crate) fn random_between(low: usize, high: usize) -> (drawn: usize)
    requires
        low <= high,
    ensures
        low <= drawn <= high,
{
    rand::rng().random_range(low..=high)
}

} // verus!
