//! Deterministic sample generator.
//!
//! Monte Carlo sampling needs a stream of pseudo-random draws. The generator
//! is an explicit value threaded through every sampling function, so a seed
//! fully determines a render: reproducibility is a configuration choice of
//! the caller, and the verified renderers can be given exact contracts that
//! mention the generator state before and after each draw.

use vstd::prelude::*;

verus! {

/// Splittable-mix style 64-bit generator with a single word of state.
#[derive(Clone, Copy, Debug, PartialEq, Eq, Structural)]
pub struct SampleRng {
    pub state: u64,
}

/// Output mixing of one draw.
pub open spec fn mix_spec(z0: u64) -> u64 {
    let z1 = vstd::wrapping::u64_specs::wrapping_mul(z0 ^ (z0 >> 30), 0xBF58476D1CE4E5B9u64);
    let z2 = vstd::wrapping::u64_specs::wrapping_mul(z1 ^ (z1 >> 27), 0x94D049BB133111EBu64);
    z2 ^ (z2 >> 31)
}

/// State after one draw.
pub open spec fn next_state_spec(s: u64) -> u64 {
    vstd::wrapping::u64_specs::wrapping_add(s, 0x9E3779B97F4A7C15u64)
}

/// Value of the draw made from state `s`.
pub open spec fn next_u64_spec(s: u64) -> u64 {
    mix_spec(next_state_spec(s))
}

impl SampleRng {
    /// Generator that will produce the draw stream determined by `seed`.
    pub fn from_seed(seed: u64) -> (r: SampleRng)
        ensures
            r.state == seed,
    {
        SampleRng { state: seed }
    }

    /// One full-width draw.
    pub fn next_u64(&mut self) -> (r: u64)
        ensures
            final(self).state == next_state_spec(old(self).state),
            r == next_u64_spec(old(self).state),
    {
        self.state = self.state.wrapping_add(0x9E3779B97F4A7C15u64);
        let z0: u64 = self.state;
        let z1: u64 = (z0 ^ (z0 >> 30)).wrapping_mul(0xBF58476D1CE4E5B9u64);
        let z2: u64 = (z1 ^ (z1 >> 27)).wrapping_mul(0x94D049BB133111EBu64);
        z2 ^ (z2 >> 31)
    }

    /// One draw reduced below a positive bound.
    pub fn next_below(&mut self, n: u64) -> (r: u64)
        requires
            n > 0,
        ensures
            final(self).state == next_state_spec(old(self).state),
            r == next_u64_spec(old(self).state) % n,
            r < n,
    {
        let v = self.next_u64();
        v % n
    }
}

} // verus!
