//! The one source of chance that dungeon assembly draws from.

use vstd::prelude::*;
use rand::Rng;

verus! {

/// Draws an index below `n` from the thread's random number generator:
/// `random_range(0..n)` of `rand::Rng`, on `rand::rng()`. The call panics on
/// an empty range, so `n` must be positive; the value it returns lies in the
/// range. Nothing else is known of it. The generator also panics where the
/// operating system gives it no entropy to seed itself with, which no
/// argument can exclude.
#[verifier::external_body]
pub(crate) fn random_below(n: usize) -> (r: usize)
    requires
        n > 0,
    ensures
        r < n,
{
    rand::rng().random_range(0..n)
}

} // verus!
