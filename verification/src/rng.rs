use vstd::prelude::*;
use crate::fixed::SCALE;

verus! {

/// Modulus of the linear congruential generator.
pub const LCG_M: u64 = 0x7fffffff;

/// Multiplier of the linear congruential generator.
pub const LCG_A: u64 = 48271;

/// Increment of the linear congruential generator.
pub const LCG_C: u64 = 12345;

/// A generator state is valid when it lies below the modulus.
pub open spec fn rng_ok(s: u64) -> bool {
    s < LCG_M
}

/// The state that follows `s`.
pub open spec fn next_state(s: u64) -> u64 {
    ((s * LCG_A + LCG_C) % (LCG_M as int)) as u64
}

/// The fixed-point draw in `[0, SCALE)` produced from the state that follows `s`.
pub open spec fn draw_of(s: u64) -> i64 {
    (next_state(s) % (SCALE as u64)) as i64
}

/// The draw in `[-SCALE, SCALE)` produced from the state that follows `s`.
pub open spec fn signed_draw_of(s: u64) -> i64 {
    (2 * draw_of(s) - SCALE) as i64
}

/// An explicit pseudo-random generator instance, threaded as a parameter so
/// that sampling is deterministic for a fixed seed.
pub struct Rng {
    pub state: u64,
}

impl Rng {
    /// Seed a generator; any seed value is accepted.
    pub fn new(seed: u64) -> (r: Rng)
        ensures
            rng_ok(r.state),
            r.state == seed % (LCG_M as u64),
    {
        Rng { state: seed % LCG_M }
    }

    /// Advance the state and return a fixed-point draw in `[0, SCALE)`,
    /// standing for a uniform real in `[0, 1)`.
    pub fn next_unit(&mut self) -> (r: i64)
        requires
            rng_ok(old(self).state),
        ensures
            rng_ok(final(self).state),
            final(self).state == next_state(old(self).state),
            r == draw_of(old(self).state),
            0 <= r < SCALE,
    {
        let s = (self.state * LCG_A + LCG_C) % LCG_M;
        self.state = s;
        (s % (SCALE as u64)) as i64
    }

    /// Advance the state and return a draw in `[-SCALE, SCALE)`, standing for
    /// a uniform real in `[-1, 1)`.
    pub fn next_signed(&mut self) -> (r: i64)
        requires
            rng_ok(old(self).state),
        ensures
            rng_ok(final(self).state),
            final(self).state == next_state(old(self).state),
            r == signed_draw_of(old(self).state),
            -SCALE <= r < SCALE,
    {
        let u = self.next_unit();
        2 * u - SCALE
    }
}

} // verus!
