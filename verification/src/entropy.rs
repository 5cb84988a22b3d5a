//! The source of randomness that measurements draw from.
//!
//! A measurement never reaches for a hidden global generator: the caller
//! hands it an [`EntropySource`], made from a seed (so that a run can be
//! repeated) or from a generator of the caller's own.

use rand::rngs::StdRng;
use rand::{Rng, SeedableRng};
use vstd::prelude::*;
use crate::fixed::SCALE;

verus! {

/// The standard generator of the `rand` crate, carried through as an
/// opaque value.
#[verifier::external_type_specification]
#[verifier::external_body]
pub struct ExStdRng(rand::rngs::StdRng);

/// Calls `StdRng::seed_from_u64`, which builds a generator from the seed.
/// Nothing is claimed of the generator: the crate keeps its algorithm open
/// to change between versions.
#[verifier::external_body]
fn generator_from_seed(seed: u64) -> StdRng {
    StdRng::seed_from_u64(seed)
}

/// Calls `Rng::gen_range` on the half-open range from 0 to `bound`, which
/// panics on an empty range and otherwise returns a value inside the
/// range. Which value is a matter of chance; the contract claims only
/// that it is below `bound`.
#[verifier::external_body]
fn sample_below(rng: &mut StdRng, bound: u64) -> (r: u64)
    requires
        bound > 0,
    ensures
        r < bound,
{
    rng.gen_range(0..bound)
}

/// A source of uniform samples for measurements.
pub struct EntropySource {
    rng: StdRng,
}

impl View for EntropySource {
    type V = StdRng;

    /// The generator that the source draws from, in its present state.
    closed spec fn view(&self) -> StdRng {
        self.rng
    }
}

impl EntropySource {
    /// A source that always yields the same samples for the same seed
    /// (with the same version of the generator).
    pub fn from_seed(seed: u64) -> EntropySource {
        EntropySource { rng: generator_from_seed(seed) }
    }

    /// A source that draws from a generator of the caller's: it holds
    /// that generator, in the state in which it was handed over.
    pub fn from_generator(rng: StdRng) -> (source: EntropySource)
        ensures
            source@ == rng,
    {
        EntropySource { rng }
    }

    /// One uniform sample from [0, 1), on the fixed-point grid: each of
    /// the `SCALE` grid points of that interval is as likely as the others.
    pub fn draw(&mut self) -> (r: i64)
        ensures
            0 <= r < SCALE,
    {
        let sample: u64 = sample_below(&mut self.rng, SCALE as u64);
        sample as i64
    }
}

} // verus!
