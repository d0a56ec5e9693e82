//! A small deterministic random number generator: a 64-bit linear
//! congruential generator whose 32-bit outputs are the high halves of the
//! successive states.

use vstd::prelude::*;
use vstd::wrapping::u64_specs;

verus! {

/// The LCG multiplier.
pub const LCG_MULTIPLIER: u64 = 6364136223846793005;

/// The state after one LCG step: multiply and increment, wrapping at 64
/// bits.
pub open spec fn lcg_next(s: u64) -> u64 {
    u64_specs::wrapping_add(u64_specs::wrapping_mul(s, LCG_MULTIPLIER), 1)
}

/// The 32-bit output drawn from a state: its high half.
pub open spec fn lcg_output(s: u64) -> u32 {
    (s >> 32) as u32
}

/// A linear congruential generator seeded once and stepped on every draw.
#[derive(Clone, Copy, Debug, PartialEq, Eq, Structural)]
pub struct SimpleRng {
    pub seed: u64,
}

impl SimpleRng {
    pub fn new(seed: u64) -> (rng: SimpleRng)
        ensures
            rng.seed == seed,
    {
        SimpleRng { seed }
    }

    /// Steps the generator once and returns the new state's high half.
    pub fn next_u32(&mut self) -> (r: u32)
        ensures
            final(self).seed == lcg_next(old(self).seed),
            r == lcg_output(final(self).seed),
    {
        self.seed = self.seed.wrapping_mul(LCG_MULTIPLIER).wrapping_add(1);
        (self.seed >> 32) as u32
    }

    /// Steps the generator twice and combines the two 32-bit draws, the
    /// first in the high half.
    pub fn next_u64(&mut self) -> (r: u64)
        ensures
            final(self).seed == lcg_next(lcg_next(old(self).seed)),
            r == ((lcg_output(lcg_next(old(self).seed)) as u64) << 32) | (lcg_output(
                lcg_next(lcg_next(old(self).seed)),
            ) as u64),
    {
        let upper = self.next_u32() as u64;
        let lower = self.next_u32() as u64;
        (upper << 32) | lower
    }
}

} // verus!
