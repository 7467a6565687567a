//! A small deterministic random source (SplitMix64), so that games and
//! tests replay exactly from a seed.
use vstd::prelude::*;

use crate::zobrist::mix64;

verus! {

/// Increment of the SplitMix64 state.
pub const RNG_STEP: u64 = 0x9E37_79B9_7F4A_7C15;

/// State a seed starts from: the seed scrambled once so that small seeds
/// do not give related sequences.
pub open spec fn seed_state(seed: u64) -> u64 {
    (seed.wrapping_mul(RNG_STEP) ^ 0x1234_5678_9ABC_DEF0u64) as u64
}

/// A SplitMix64 generator.
#[derive(Clone, Debug)]
pub struct Rng {
    state: u64,
}

impl Rng {
    /// Current state.
    pub closed spec fn state(&self) -> u64 {
        self.state
    }

    /// A generator seeded with `seed`.
    pub fn new(seed: u64) -> (r: Rng)
        ensures
            r.state() == seed_state(seed),
    {
        Rng { state: seed.wrapping_mul(RNG_STEP) ^ 0x1234_5678_9ABC_DEF0 }
    }

    /// Next 64 random bits.
    pub fn next_u64(&mut self) -> (r: u64)
        ensures
            final(self).state() == old(self).state().wrapping_add(RNG_STEP),
            r == mix64(final(self).state()),
    {
        self.state = self.state.wrapping_add(RNG_STEP);
        let mut z = self.state;
        z = (z ^ (z >> 30)).wrapping_mul(0xBF58_476D_1CE4_E5B9);
        z = (z ^ (z >> 27)).wrapping_mul(0x94D0_49BB_1331_11EB);
        z ^ (z >> 31)
    }

    /// A number in `0..bound` (0 when `bound` is 0).
    pub fn below(&mut self, bound: usize) -> (r: usize)
        ensures
            bound == 0 ==> r == 0 && final(self).state() == old(self).state(),
            bound > 0 ==> {
                &&& final(self).state() == old(self).state().wrapping_add(RNG_STEP)
                &&& r == mix64(final(self).state()) % (bound as u64)
                &&& r < bound
            },
    {
        if bound == 0 {
            return 0;
        }
        let x = self.next_u64();
        (x % (bound as u64)) as usize
    }
}

} // verus!
