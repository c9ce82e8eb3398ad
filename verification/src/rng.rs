//! The engine's only source of randomness: a uniform draw below a bound,
//! taken from the thread-local generator of the `rand` crate.

use vstd::prelude::*;
use rand::RngExt;

verus! {

/// Relies on `rand::RngExt::random_range` over `0..n`: for a non-empty
/// range it returns a value of the range, so the result is below `n`.
/// Nothing is assumed about which value comes back.
#[verifier::external_body]
pub fn rand_below(n: u64) -> (r: u64)
    requires
        n >= 1,
    ensures
        r < n,
{
    let mut rng = rand::rng();
    rng.random_range(0..n)
}

} // verus!
