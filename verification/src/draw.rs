//! Drawing numbers at random.

use vstd::prelude::*;
use rand::Rng;

verus! {

/// A number below `n`, drawn at random.
///
/// Trusted: `rand::thread_rng().gen_range(0..n)` samples from the half-open
/// range `0..n`, so whatever it returns is below `n`. `gen_range` panics on
/// an empty range, which `n > 0` rules out. Nothing else is claimed of the
/// number: two draws need not agree. Setting up the generator of the thread
/// panics if the system gives it no seed; no argument can rule that out.
#[verifier::external_body]
pub(crate) fn random_below(n: usize) -> (pick: usize)
    requires
        n > 0,
    ensures
        pick < n,
{
    rand::thread_rng().gen_range(0..n)
}

} // verus!
