//! Random selection, through the `rand` crate.

use vstd::prelude::*;

verus! {

/// Relies on rand's `Rng::gen_range` over the range `0..n`: it returns a
/// uniformly drawn value of that range, so strictly below `n`, and panics
/// only when the range is empty.
#[verifier::external_body]
pub(crate) fn random_index(n: usize) -> (r: usize)
    requires
        n > 0,
    ensures
        r < n,
{
    rand::Rng::gen_range(&mut rand::thread_rng(), 0..n)
}

} // verus!
