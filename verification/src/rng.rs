//! The one random draw the spawner needs.

use vstd::prelude::*;

verus! {

/// Relies on `rand::random_range`: a draw from `0..n` with the
/// thread-local generator, uniform over the range; the call panics
/// only on an empty range, which `n >= 1` rules out.
#[verifier::external_body]
pub(crate) fn random_below(n: usize) -> (r: usize)
    requires
        n >= 1,
    ensures
        r < n,
{
    rand::random_range(0..n)
}

} // verus!
