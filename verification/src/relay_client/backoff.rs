//! Reconnect backoff: 1 s doubling to a 60 s cap, with ±20% jitter drawn
//! from a 64-bit linear congruential generator (deterministic under a seed;
//! not a security RNG). The integer schedule and the generator are here;
//! scaling the step by the jitter fraction is done by the caller.

use vstd::prelude::*;

verus! {

/// Multiplier of the generator (Numerical Recipes).
pub const LCG_MUL: u64 = 6_364_136_223_846_793_005;

/// Increment of the generator (Numerical Recipes).
pub const LCG_INC: u64 = 1_442_695_040_888_963_407;

/// The first step, in seconds.
pub const INITIAL_SECS: u32 = 1;

/// The cap on a step, in seconds.
pub const MAX_SECS: u32 = 60;

/// One generator step.
pub open spec fn lcg_next(state: u64) -> u64 {
    ((((state * LCG_MUL) % 0x1_0000_0000_0000_0000int) + LCG_INC) % 0x1_0000_0000_0000_0000int) as u64
}

/// The step after `secs`: doubled, capped.
pub open spec fn next_secs(secs: u32) -> u32 {
    if secs * 2 <= MAX_SECS {
        (secs * 2) as u32
    } else {
        MAX_SECS
    }
}

/// Reconnect backoff state.
#[derive(Debug, Clone, Copy)]
pub struct Backoff {
    /// The current step, in whole seconds.
    pub current_secs: u32,
    /// Generator state.
    pub state: u64,
}

/// One draw: the step to wait (before jitter) and 31 random bits; the
/// jitter factor is `1 + (bits / 2^31 - 0.5) * 0.4`.
pub struct Draw {
    pub base_secs: u32,
    pub jitter_bits: u32,
}

impl Backoff {
    /// A fresh schedule seeded with `seed` (forced odd).
    pub fn new(seed: u64) -> (b: Backoff)
        ensures
            b.current_secs == INITIAL_SECS,
            b.state == seed | 1,
    {
        Backoff { current_secs: INITIAL_SECS, state: seed | 1 }
    }

    /// The next delay's step and jitter bits; advances the schedule.
    pub fn next_delay(&mut self) -> (d: Draw)
        ensures
            d.base_secs == old(self).current_secs,
            final(self).current_secs == next_secs(old(self).current_secs),
            final(self).state == lcg_next(old(self).state),
            d.jitter_bits == final(self).state >> 33u64,
            d.jitter_bits < 0x8000_0000,
    {
        let base = self.current_secs;
        self.current_secs = if self.current_secs <= MAX_SECS / 2 {
            self.current_secs * 2
        } else {
            MAX_SECS
        };
        let st = self.state.wrapping_mul(LCG_MUL).wrapping_add(LCG_INC);
        self.state = st;
        let shifted = st >> 33u64;
        assert(shifted < 0x8000_0000) by (bit_vector)
            requires
                shifted == st >> 33u64,
        ;
        let bits = shifted as u32;
        Draw { base_secs: base, jitter_bits: bits }
    }

    /// Back to the first step after a successful connection.
    pub fn reset(&mut self)
        ensures
            final(self).current_secs == INITIAL_SECS,
            final(self).state == old(self).state,
    {
        self.current_secs = INITIAL_SECS;
    }

    /// Whole seconds of the current step.
    pub fn current_secs(&self) -> (s: u32)
        ensures
            s == self.current_secs,
    {
        self.current_secs
    }
}

/// The step never exceeds the cap and never drops below the first step.
pub proof fn law_backoff_bounded(secs: u32)
    requires
        INITIAL_SECS <= secs <= MAX_SECS,
    ensures
        INITIAL_SECS <= next_secs(secs) <= MAX_SECS,
        next_secs(secs) >= secs,
{
}

} // verus!
