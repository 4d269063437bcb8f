use vstd::prelude::*;
#[allow(unused_imports)]
use rand::Rng;
#[allow(unused_imports)]
use rand::SeedableRng;

verus! {

#[verifier::external_type_specification]
#[verifier::external_body]
pub struct ExStdRng(rand::rngs::StdRng);

/// The single source of randomness for one generation run. Fixing the seed
/// fixes the whole sequence of draws, which is what makes repeated runs
/// reproducible and lets tests inject seeds.
pub struct RngSource {
    inner: rand::rngs::StdRng,
}

impl RngSource {
    /// Relies on rand's StdRng::seed_from_u64 to build a generator whose
    /// draw sequence is a function of `seed`.
    #[verifier::external_body]
    pub fn from_seed(seed: u64) -> RngSource {
        RngSource { inner: rand::rngs::StdRng::seed_from_u64(seed) }
    }

    /// Relies on rand's Rng::gen_range over `0..n`: the draw lies below `n`.
    /// Nothing more is assumed of the value; callers must hold for every
    /// possible outcome.
    #[verifier::external_body]
    pub fn pick(&mut self, n: usize) -> (r: usize)
        requires
            n > 0,
        ensures
            r < n,
    {
        self.inner.gen_range(0..n)
    }
}

} // verus!
