use vstd::prelude::*;

use rand::rngs::StdRng;

verus! {

#[verifier::external_type_specification]
#[verifier::external_body]
pub struct ExStdRng(StdRng);

/// An explicit, seedable stream of pseudo-random scalars. Every sampling
/// operation of the library threads one of these through, so renders are
/// reproducible from the seed.
pub struct RandomSource {
    rng: StdRng,
}

impl RandomSource {
    /// Relies on rand's `SeedableRng::seed_from_u64`: builds a
    /// deterministic `StdRng` from the seed.
    #[verifier::external_body]
    pub fn new(seed: u64) -> (r: RandomSource) {
        RandomSource { rng: rand::SeedableRng::seed_from_u64(seed) }
    }

    /// Relies on rand's `Rng::gen_range`: a draw from a nonempty
    /// half-open range lies in that range. Nothing more is assumed of
    /// the value.
    #[verifier::external_body]
    pub fn next_in(&mut self, lo: i128, hi: i128) -> (r: i128)
        requires
            lo < hi,
        ensures
            lo <= r < hi,
    {
        rand::Rng::gen_range(&mut self.rng, lo..hi)
    }
}

} // verus!
