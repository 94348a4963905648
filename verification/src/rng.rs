//! An explicit, seedable source of randomness.
//!
//! Every stochastic operation of the engine (weight initialization, mutation,
//! crossover gene choice, roulette sampling, asteroid spawning) draws from a
//! `RandomSource` handle that is threaded through the call, so runs are
//! reproducible from a seed. The underlying generator is `rand`'s `StdRng`;
//! the verified code assumes only that each draw lies below its bound.

use vstd::prelude::*;

use crate::fx::FX_ONE;

verus! {

#[verifier::external_type_specification]
#[verifier::external_body]
pub struct ExStdRng(rand::rngs::StdRng);

/// Relies on `rand::SeedableRng::seed_from_u64`: builds a generator from a
/// 64-bit seed. Nothing is assumed about the stream it produces.
#[verifier::external_body]
fn rng_seed_from_u64(seed: u64) -> (r: rand::rngs::StdRng) {
    <rand::rngs::StdRng as rand::SeedableRng>::seed_from_u64(seed)
}

/// Relies on `rand::Rng::gen_range` over the half-open range `0..bound`:
/// the sample lies in the range, and the call does not panic because the
/// range is nonempty.
#[verifier::external_body]
fn rng_below_raw(rng: &mut rand::rngs::StdRng, bound: u128) -> (r: u128)
    requires
        bound >= 1,
    ensures
        r < bound,
{
    rand::Rng::gen_range(rng, 0..bound)
}

/// A seeded random generator handle.
pub struct RandomSource {
    rng: rand::rngs::StdRng,
}

impl RandomSource {
    /// Build a reproducible generator from a seed.
    pub fn new(seed: u64) -> (r: RandomSource) {
        RandomSource { rng: rng_seed_from_u64(seed) }
    }

    /// A draw below `bound`, as a wide integer.
    pub fn next_below_u128(&mut self, bound: u128) -> (r: u128)
        requires
            bound >= 1,
        ensures
            r < bound,
    {
        rng_below_raw(&mut self.rng, bound)
    }

    /// A draw below `bound`.
    pub fn next_below(&mut self, bound: u64) -> (r: u64)
        requires
            bound >= 1,
        ensures
            r < bound,
    {
        let r = rng_below_raw(&mut self.rng, bound as u128);
        r as u64
    }

    /// A uniform fixed-point draw from `[0, 1)` in logical units.
    pub fn next_unit(&mut self) -> (r: i64)
        ensures
            0 <= r < FX_ONE,
    {
        self.next_below(FX_ONE as u64) as i64
    }

    /// An approximate standard-normal fixed-point draw: the sum of twelve
    /// independent uniform draws from `[0, 1)` minus six, which has mean zero
    /// and unit variance. The result always lies in `[-6, 6]` logical units.
    pub fn next_standard_normal(&mut self) -> (r: i64)
        ensures
            -6 * FX_ONE <= r <= 6 * FX_ONE,
    {
        let mut sum: i64 = 0;
        let mut i: usize = 0;
        while i < 12
            invariant
                i <= 12,
                0 <= sum <= i * 1_000_000,
            decreases 12 - i,
        {
            let u = self.next_unit();
            assert(u < 1_000_000);
            sum = sum + u;
            i = i + 1;
        }
        sum - 6 * FX_ONE
    }
}

} // verus!
