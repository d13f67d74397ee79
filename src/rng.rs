//! The pseudo-random generator, from the `rand` crate.
use vstd::prelude::*;
use rand::rngs::StdRng;
use rand::{Rng, SeedableRng};

verus! {

/// `rand::rngs::StdRng`, carried as an opaque value: only the wrappers
/// below read it.
#[verifier::external_type_specification]
#[verifier::external_body]
pub struct ExStdRng(StdRng);

/// Relies on `SeedableRng::seed_from_u64` for `StdRng`: a generator whose
/// stream is fixed by `seed`.
#[verifier::external_body]
pub(crate) fn seeded_rng(seed: u64) -> StdRng {
    StdRng::seed_from_u64(seed)
}

/// Relies on `Rng::random` for `u64` through `StdRng`: any value (the call
/// takes the generator's next 64 bits and cannot fail).
#[verifier::external_body]
pub(crate) fn draw_seed(rng: &mut StdRng) -> u64 {
    rng.random::<u64>()
}

/// Relies on `Rng::random_range` over `0..bound`: a value below `bound`
/// (the range must not be empty).
#[verifier::external_body]
pub(crate) fn draw_below(rng: &mut StdRng, bound: u32) -> (r: u32)
    requires
        bound > 0,
    ensures
        r < bound,
{
    rng.random_range(0..bound)
}

} // verus!
