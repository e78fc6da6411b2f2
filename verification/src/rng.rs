//! A small seeded generator, threaded explicitly through whatever draws from it.
//!
//! Every draw is a function of the state before it, so a render seeded twice
//! with the same value makes the same choices.

use vstd::prelude::*;

verus! {

/// The multiplier of the output scrambler.
pub const SCRAMBLE: u64 = 0x2545_f491_4f6c_dd1d;

/// The state that replaces a zero seed, which the generator can never leave.
pub const DEFAULT_SEED: u64 = 0x9e37_79b9_7f4a_7c15;

/// The state after one xorshift round.
pub open spec fn spec_advance(state: u64) -> u64 {
    let a = state ^ (state >> 12);
    let b = a ^ (a << 25);
    b ^ (b >> 27)
}

/// The 64 bits that a draw from `state` yields.
pub open spec fn spec_output(state: u64) -> u64 {
    ((spec_advance(state) * SCRAMBLE) % 0x1_0000_0000_0000_0000) as u64
}

/// The integer in `[min, max]` that a draw from `state` yields.
pub open spec fn spec_random_int(state: u64, min: i32, max: i32) -> int {
    min + (spec_output(state) as int) % (max - min + 1)
}

/// A xorshift generator with a 64-bit state.
#[derive(Clone, Copy, Debug, PartialEq, Eq, Structural)]
pub struct Rng {
    pub state: u64,
}

impl Rng {
    /// A generator started from `seed`; a zero seed is replaced by a fixed
    /// non-zero one.
    pub fn new(seed: u64) -> (r: Rng)
        ensures
            r.state == if seed == 0 {
                DEFAULT_SEED
            } else {
                seed
            },
    {
        if seed == 0 {
            Rng { state: DEFAULT_SEED }
        } else {
            Rng { state: seed }
        }
    }

    /// Draws 64 bits and advances the state.
    pub fn next_u64(&mut self) -> (out: u64)
        ensures
            out == spec_output(old(self).state),
            final(self).state == spec_advance(old(self).state),
    {
        let a: u64 = self.state ^ (self.state >> 12);
        let b: u64 = a ^ (a << 25);
        let c: u64 = b ^ (b >> 27);
        self.state = c;
        c.wrapping_mul(SCRAMBLE)
    }

    /// Draws an integer in `[min, max]`, both ends included.
    pub fn random_int(&mut self, min: i32, max: i32) -> (r: i32)
        requires
            min <= max,
        ensures
            min <= r <= max,
            r == spec_random_int(old(self).state, min, max),
            final(self).state == spec_advance(old(self).state),
    {
        let span: u64 = (max as i64 - min as i64 + 1) as u64;
        let offset: u64 = self.next_u64() % span;
        (min as i64 + offset as i64) as i32
    }
}

} // verus!
