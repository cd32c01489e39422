//! The randomness boundary: a seeded generator and a bounded uniform draw.
//!
//! Every simulation run owns one generator, built from an explicit seed, so
//! runs share no mutable randomness.  Nothing is assumed about the values
//! drawn beyond their range: every caller is verified for every admissible
//! outcome.

use vstd::prelude::*;

verus! {

/// rand's standard generator, declared opaquely so simulator state can
/// hold and pass one; nothing of its inner state is visible here.
#[verifier::external_type_specification]
#[verifier::external_body]
pub struct ExStdRng(rand::rngs::StdRng);

/// Relies on rand's `SeedableRng::seed_from_u64` for `StdRng`: builds a
/// generator from the seed alone, so a run's randomness is owned by that
/// run.  Nothing is assumed about the stream it produces.
#[verifier::external_body]
pub fn seed_rng(seed: u64) -> rand::rngs::StdRng {
    <rand::rngs::StdRng as rand::SeedableRng>::seed_from_u64(seed)
}

/// Relies on rand's `Rng::gen_range` over `0..bound`: the draw lies below
/// `bound`, and the range is nonempty so the call cannot panic.
#[verifier::external_body]
pub fn rand_below(rng: &mut rand::rngs::StdRng, bound: u64) -> (r: u64)
    requires
        bound >= 1,
    ensures
        r < bound,
{
    rand::Rng::gen_range(rng, 0..bound)
}

} // verus!
