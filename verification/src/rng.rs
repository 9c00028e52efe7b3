//! Deterministic pseudo-random number generation.
//!
//! The optimizer draws all of its randomness from a SplitMix64 generator so
//! that a run is a pure function of the seed: every draw is pinned exactly by
//! its contract. Fresh entropy for a seed, when the caller wants an
//! unpredictable run, comes from the `rand` crate through a trusted wrapper.
use vstd::prelude::*;

verus! {

pub const U64_MOD: u128 = 0x1_0000_0000_0000_0000;

/// Multiply two 64-bit values modulo 2^64.
pub open spec fn spec_mul64(a: u64, b: u64) -> u64 {
    (((a * b) as u128) % U64_MOD) as u64
}

/// The SplitMix64 output function applied to a raw state word.
#[verifier::opaque]
pub open spec fn spec_mix(z0: u64) -> u64 {
    let z1 = spec_mul64(z0 ^ (z0 >> 30), 0xBF58476D1CE4E5B9);
    let z2 = spec_mul64(z1 ^ (z1 >> 27), 0x94D049BB133111EB);
    z2 ^ (z2 >> 31)
}

/// The state after one SplitMix64 step.
pub open spec fn spec_step(state: u64) -> u64 {
    (((state + 0x9E3779B97F4A7C15) as u128) % U64_MOD) as u64
}

/// The value drawn by one SplitMix64 step from `state`.
pub open spec fn spec_draw(state: u64) -> u64 {
    spec_mix(spec_step(state))
}

/// A seeded SplitMix64 generator.
pub struct SplitMix {
    pub state: u64,
}

impl SplitMix {
    pub fn new(seed: u64) -> (r: SplitMix)
        ensures
            r.state == seed,
    {
        SplitMix { state: seed }
    }

    /// Draw the next 64-bit value and advance the state.
    pub fn next_u64(&mut self) -> (r: u64)
        ensures
            final(self).state == spec_step(old(self).state),
            r == spec_draw(old(self).state),
    {
        proof {
            reveal(spec_mix);
        }
        let s: u64 = add_wrap64(self.state, 0x9E3779B97F4A7C15);
        self.state = s;
        let z1: u64 = mul64(s ^ (s >> 30), 0xBF58476D1CE4E5B9);
        let z2: u64 = mul64(z1 ^ (z1 >> 27), 0x94D049BB133111EB);
        z2 ^ (z2 >> 31)
    }

    /// A generator seeded from fresh entropy, for runs that need no
    /// reproducibility.
    pub fn from_entropy() -> SplitMix {
        SplitMix { state: entropy_seed() }
    }

    /// Draw a value in `0 .. n`: the next draw reduced modulo `n`.
    pub fn below(&mut self, n: u64) -> (r: u64)
        requires
            n > 0,
        ensures
            final(self).state == spec_step(old(self).state),
            r == spec_below(old(self).state, n),
            r < n,
    {
        let d = self.next_u64();
        d % n
    }
}

/// The value that `below` draws from `state`.
pub open spec fn spec_below(state: u64, n: u64) -> u64
    recommends
        n > 0,
{
    spec_draw(state) % n
}

/// 64-bit wrapping multiply, pinned exactly.
fn mul64(a: u64, b: u64) -> (r: u64)
    ensures
        r == spec_mul64(a, b),
{
    proof {
        assert(a * b < 0x1_0000_0000_0000_0000_0000_0000_0000_0000) by (nonlinear_arith)
            requires
                a <= 0xFFFF_FFFF_FFFF_FFFF,
                b <= 0xFFFF_FFFF_FFFF_FFFF,
        ;
    }
    (((a as u128) * (b as u128)) % U64_MOD) as u64
}

/// 64-bit wrapping add, pinned exactly.
fn add_wrap64(a: u64, b: u64) -> (r: u64)
    ensures
        r == (((a + b) as u128) % U64_MOD) as u64,
{
    ((a as u128 + b as u128) % U64_MOD) as u64
}

/// Relies on `rand::random::<u64>` to produce entropy for a fresh seed.
/// Nothing is promised of the value: callers treat it as an arbitrary seed.
#[verifier::external_body]
pub fn entropy_seed() -> u64 {
    rand::random::<u64>()
}

} // verus!
