//! The seeded random source that generation and spawning draw from.

use vstd::prelude::*;
use bracket_random::prelude::RandomNumberGenerator as BracketRng;

verus! {

#[verifier::external_type_specification]
#[verifier::external_body]
pub struct ExBracketRng(BracketRng);

/// A random source that is always passed explicitly, so that a run is
/// reproducible from its seed.
pub struct RandomNumberGenerator {
    rng: BracketRng,
}

/// Relies on bracket_random's `RandomNumberGenerator::seeded`: an xorshift
/// generator seeded from `seed`.
#[verifier::external_body]
fn bracket_seeded(seed: u64) -> (r: BracketRng) {
    BracketRng::seeded(seed)
}

impl RandomNumberGenerator {
    pub fn seeded(seed: u64) -> (r: RandomNumberGenerator) {
        RandomNumberGenerator { rng: bracket_seeded(seed) }
    }

    /// Relies on bracket_random's `RandomNumberGenerator::range`, which is
    /// rand's `gen_range(min..max)`: a value with `min <= r < max`; it panics
    /// on an empty range.
    #[verifier::external_body]
    pub(crate) fn range(&mut self, min: i32, max: i32) -> (r: i32)
        requires
            min < max,
        ensures
            min <= r < max,
    {
        self.rng.range(min, max)
    }

    /// Relies on bracket_random's `RandomNumberGenerator::roll_dice` with one
    /// die: `range(1, die_type + 1)`, a value with `1 <= r <= die_type`.
    #[verifier::external_body]
    pub(crate) fn roll_die(&mut self, die_type: i32) -> (r: i32)
        requires
            1 <= die_type < i32::MAX,
        ensures
            1 <= r <= die_type,
    {
        self.rng.roll_dice(1, die_type)
    }
}

} // verus!
