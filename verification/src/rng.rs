//! Dice rolls for map generation and spawning.
//!
//! The generator itself comes from the `bracket-random` crate and is opaque
//! here: nothing can be promised about which number comes out, only about
//! the range it falls in, so every caller is verified for every outcome.

use vstd::prelude::*;

verus! {

#[verifier::external_type_specification]
#[verifier::external_body]
pub struct ExRandomNumberGenerator(bracket_random::prelude::RandomNumberGenerator);

/// Relies on bracket_random's RandomNumberGenerator::new: a generator from
/// an arbitrary seed.
#[verifier::external_body]
pub fn rng_new() -> bracket_random::prelude::RandomNumberGenerator {
    bracket_random::prelude::RandomNumberGenerator::new()
}

/// Relies on bracket_random's RandomNumberGenerator::seeded: a generator
/// whose stream is a function of the given seed.
#[verifier::external_body]
pub fn rng_seeded(seed: u64) -> bracket_random::prelude::RandomNumberGenerator {
    bracket_random::prelude::RandomNumberGenerator::seeded(seed)
}

/// Relies on bracket_random's RandomNumberGenerator::roll_dice: the sum of
/// `n` rolls of a `die`-sided die, each roll between 1 and `die` inclusive.
#[verifier::external_body]
pub fn roll_dice(rng: &mut bracket_random::prelude::RandomNumberGenerator, n: i32, die: i32) -> (r: i32)
    requires
        1 <= n,
        1 <= die < i32::MAX,
        n as int * die as int <= i32::MAX as int,
    ensures
        n <= r <= n as int * die as int,
{
    rng.roll_dice(n, die)
}

/// Relies on bracket_random's RandomNumberGenerator::range: a value at least
/// `min` and strictly below `max`.
#[verifier::external_body]
pub fn rand_range(rng: &mut bracket_random::prelude::RandomNumberGenerator, min: i32, max: i32) -> (r: i32)
    requires
        min < max,
    ensures
        min <= r < max,
{
    rng.range(min, max)
}

} // verus!
