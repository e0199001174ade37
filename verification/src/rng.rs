//! The PCG random number generator (XSH-RR, 64-bit state, 32-bit output).

use vstd::prelude::*;
use crate::hash::mul64;

verus! {

/// The multiplier of the generator's linear congruential step.
pub const PCG_MULTIPLIER: u64 = 6364136223846793005;

/// The denominator of the fractions that `rand_fraction` returns: 2^24.
pub const FRACTION_ONE: u32 = 0x100_0000;

/// The state that follows `state` in the stream that `inc` selects.
pub open spec fn pcg_advance(state: u64, inc: u64) -> u64 {
    ((mul64(state, PCG_MULTIPLIER) + (inc | 1)) % 0x1_0000_0000_0000_0000) as u64
}

/// The number that the generator gives out in state `state`: the high bits
/// of the state, xor-shifted, and rotated right by the top five bits.
pub open spec fn pcg_output(state: u64) -> u32 {
    let xorshifted = (((state >> 18) ^ state) >> 27) as u32;
    let rot = (state >> 59) as u32;
    (xorshifted >> rot) | (xorshifted << ((32 - rot) as u32 & 31))
}

/// `x * range / 2^32`: a number below `range` that grows with `x`.
pub open spec fn scale_to_range(x: u32, range: u32) -> u32 {
    ((x as int * range as int) / 0x1_0000_0000) as u32
}

/// PCG is a family of simple, fast, space-efficient generators of
/// statistically good random numbers.
pub struct PCGRng {
    state: u64,
    inc: u64,
}

impl PCGRng {
    pub closed spec fn state(&self) -> u64 {
        self.state
    }

    pub closed spec fn inc(&self) -> u64 {
        self.inc
    }

    pub fn new(state: u64, inc: u64) -> (rng: PCGRng)
        ensures
            rng.state() == state,
            rng.inc() == inc,
    {
        PCGRng { state, inc }
    }

    /// The next number of the stream, anywhere in the range of `u32`.
    pub fn rand_u32(&mut self) -> (r: u32)
        ensures
            r == pcg_output(old(self).state()),
            final(self).state() == pcg_advance(old(self).state(), old(self).inc()),
            final(self).inc() == old(self).inc(),
    {
        let oldstate = self.state;
        self.state = oldstate.wrapping_mul(PCG_MULTIPLIER).wrapping_add(self.inc | 1);
        let xorshifted = #[verifier::truncate]
        ((((oldstate >> 18) ^ oldstate) >> 27) as u32);
        let top = oldstate >> 59;
        assert(top < 32) by (bit_vector)
            requires
                top == oldstate >> 59,
        ;
        let rot = top as u32;
        let back = (32 - rot) & 31;
        assert(back < 32) by (bit_vector)
            requires
                back == (32 - rot) as u32 & 31,
        ;
        (xorshifted >> rot) | (xorshifted << back)
    }

    /// The next number scaled into `0 .. range`.
    pub fn rand_range(&mut self, range: u32) -> (r: u32)
        ensures
            r == scale_to_range(pcg_output(old(self).state()), range),
            range > 0 ==> r < range,
            range == 0 ==> r == 0,
            final(self).state() == pcg_advance(old(self).state(), old(self).inc()),
            final(self).inc() == old(self).inc(),
    {
        let x = self.rand_u32();
        assert(x as u64 * range as u64 <= 0xffff_ffff * 0xffff_ffff) by (nonlinear_arith)
            requires
                x <= 0xffff_ffff,
                range <= 0xffff_ffff,
        ;
        let m: u64 = (x as u64) * (range as u64);
        let high = m >> 32;
        assert(high == m / 0x1_0000_0000 && high <= 0xffff_ffff) by (bit_vector)
            requires
                high == m >> 32,
        ;
        assert(m / 0x1_0000_0000 < range || (range == 0 && m == 0)) by (nonlinear_arith)
            requires
                m == x * range,
                x < 0x1_0000_0000,
                range >= 0,
        ;
        high as u32
    }

    /// The next number as a fraction of `FRACTION_ONE`: its 24 high bits.
    /// Divided by 2^24 this is a number in `[0, 1)`.
    pub fn rand_fraction(&mut self) -> (r: u32)
        ensures
            r == pcg_output(old(self).state()) >> 8,
            r < FRACTION_ONE,
            final(self).state() == pcg_advance(old(self).state(), old(self).inc()),
            final(self).inc() == old(self).inc(),
    {
        let x = self.rand_u32();
        let r = x >> 8;
        assert(r < 0x100_0000) by (bit_vector)
            requires
                r == x >> 8,
        ;
        r
    }
}

} // verus!
