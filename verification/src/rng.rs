//! The injectable random source.
//!
//! Random conditions must draw from a seedable generator handed in by the
//! caller, never from a global source, so that every evaluation is
//! reproducible from the seed. The generator is a linear-congruential step
//! whose whole behaviour is specified; a fresh unpredictable seed can be taken
//! from the operating system through `from_entropy`.

use vstd::prelude::*;

verus! {

/// Multiplier of the linear-congruential step.
pub const LCG_MUL: u64 = 6364136223846793005;
/// Increment of the linear-congruential step.
pub const LCG_INC: u64 = 1442695040888963407;

/// A seedable uniform generator: the injectable random source.
pub struct Rand {
    pub state: u64,
}

/// The state that follows `s` in the linear-congruential sequence.
pub open spec fn lcg_next(s: u64) -> u64 {
    s.wrapping_mul(LCG_MUL).wrapping_add(LCG_INC)
}

/// The value below `m` drawn when the generator steps from state `s`.
/// Unspecified for `m == 0`.
pub open spec fn draw_value(s: u64, m: u64) -> u64 {
    (lcg_next(s) >> 33) % m
}

impl Rand {
    /// A generator starting from the given seed.
    pub fn from_seed(seed: u64) -> (r: Rand)
        ensures
            r.state == seed,
    {
        Rand { state: seed }
    }

    /// A generator seeded unpredictably from the process's random source.
    pub fn from_entropy() -> Rand {
        Rand { state: entropy_seed() }
    }

    /// Advances the generator one step and returns a value below `m`.
    pub fn next_below(&mut self, m: u64) -> (r: u64)
        requires
            m > 0,
        ensures
            final(self).state == lcg_next(old(self).state),
            r == draw_value(old(self).state, m),
            r < m,
    {
        self.state = self.state.wrapping_mul(LCG_MUL).wrapping_add(LCG_INC);
        (self.state >> 33) % m
    }
}

/// Relies on rand::random: a fresh 64-bit value; nothing is assumed of it.
#[verifier::external_body]
fn entropy_seed() -> u64 {
    rand::random::<u64>()
}

} // verus!
