//! The injected source of randomness for genetic operators and the engine's
//! side shuffling. Callers pick the implementation; a deterministic one makes
//! tests reproducible.

use vstd::prelude::*;

verus! {

/// A source of random draws. The engine and the genetic operators take one of
/// these instead of reaching for process-wide state, so tests can inject a
/// deterministic implementation.
pub trait Rng {
    /// A draw in `[0, bound)`.
    fn below(&mut self, bound: u32) -> (r: u32)
        requires
            bound >= 1,
        ensures
            r < bound,
    ;

    /// A uniform coin flip.
    fn flip(&mut self) -> bool;

    /// Whether a genetic operator should mutate instead of recombining;
    /// true with the implementation's fixed mutation probability.
    fn mutates(&mut self) -> bool;
}

/// A small linear-congruential generator: deterministic, seedable, and good
/// enough to drive strategy evaluation.
pub struct Lcg {
    pub state: u64,
}

impl Lcg {
    pub fn from_seed(seed: u64) -> (r: Lcg)
        ensures
            r.state == seed,
    {
        Lcg { state: seed }
    }

    /// Advance the generator and return the new state.
    fn next(&mut self) -> u64 {
        let wide: u128 = (self.state as u128) * 6364136223846793005u128 + 1442695040888963407u128;
        self.state = (wide % 0x1_0000_0000_0000_0000u128) as u64;
        self.state
    }
}

impl Rng for Lcg {
    fn below(&mut self, bound: u32) -> (r: u32) {
        let x = self.next();
        ((x >> 16) % (bound as u64)) as u32
    }

    fn flip(&mut self) -> bool {
        self.below(2) == 0
    }

    fn mutates(&mut self) -> bool {
        self.below(10) == 0
    }
}

} // verus!
