//! Trusted boundary to the random-number generator that drives playouts:
//! the same xorshift generator the engine has always used, seeded from
//! the operating system's entropy source. Nothing is assumed of the
//! values drawn beyond their range, so every caller is verified for
//! every possible outcome.

use vstd::prelude::*;
use rand::Rng;
use rand::SeedableRng;
use rand_xorshift::XorShiftRng;

verus! {

#[verifier::external_type_specification]
#[verifier::external_body]
pub struct ExXorShiftRng(XorShiftRng);

/// Relies on rand's `SeedableRng::from_entropy`: a fresh xorshift
/// generator seeded from the operating system. Nothing is assumed of the
/// state; it panics only if the operating system refuses entropy.
#[verifier::external_body]
pub(crate) fn rng_from_entropy() -> XorShiftRng {
    XorShiftRng::from_entropy()
}

/// Relies on rand's `Rng::gen_range` over `0..n`: a uniformly sampled
/// index strictly below `n`. It panics only on an empty range, which the
/// precondition rules out.
#[verifier::external_body]
pub(crate) fn rng_below(rng: &mut XorShiftRng, n: usize) -> (r: usize)
    requires
        n >= 1,
    ensures
        r < n,
{
    rng.gen_range(0..n)
}

} // verus!
