use rand::Rng;
use vstd::prelude::*;

verus! {

/// Draws a number below `bound` from the thread-local generator of the
/// `rand` crate, by `Rng::random_range` on the range `0..bound`.
///
/// Trusted, not proved: the number drawn lies in the range. An empty range,
/// on which `random_range` panics, is left out by the precondition. Nothing
/// is claimed about which number of the range is drawn.
#[verifier::external_body]
pub(crate) fn random_below(bound: usize) -> (r: usize)
    requires
        bound > 0,
    ensures
        r < bound,
{
    rand::rng().random_range(0..bound)
}

} // verus!
