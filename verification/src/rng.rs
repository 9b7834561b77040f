//! A small seeded pseudorandom generator owned by the randomized solvers.
//!
//! The generator is a linear congruential sequence over 64-bit state, fully
//! specified, so a solver seeded with the same value draws the same sequence
//! in every run: randomized searches are reproducible under seeding.

use vstd::prelude::*;

verus! {

/// The linear congruential step.
pub open spec fn next_of(s: u64) -> int {
    (s * 6364136223846793005 + 1442695040888963407) % 0x1_0000_0000_0000_0000
}

/// A seeded pseudorandom generator.  Each solver instance owns its own
/// generator: no process-wide state is involved, and two independently
/// seeded solvers never interfere.
pub struct Prng {
    pub state: u64,
}

impl Prng {
    /// A generator starting from `seed`.
    pub fn new(seed: u64) -> (r: Self)
        ensures
            r.state == seed,
    {
        Prng { state: seed }
    }

    /// The next raw draw.
    pub fn next_u64(&mut self) -> (r: u64)
        ensures
            r == next_of(old(self).state),
            final(self).state == r,
    {
        let wide: u128 = (self.state as u128) * 6364136223846793005u128 + 1442695040888963407u128;
        let next: u64 = (wide % 0x1_0000_0000_0000_0000u128) as u64;
        self.state = next;
        next
    }

    /// A draw chosen uniformly from `0 .. bound`.
    pub fn next_below(&mut self, bound: usize) -> (r: usize)
        requires
            bound >= 1,
        ensures
            r < bound,
            r == next_of(old(self).state) % (bound as int),
            final(self).state == next_of(old(self).state),
    {
        let x = self.next_u64();
        (x % (bound as u64)) as usize
    }
}

} // verus!
