//! Offsetting the origin of a secondary ray off the surface it starts on,
//! one coordinate at a time and on the bit pattern of the coordinate.
//!
//! A coordinate is given by the 32 bits of its single-precision encoding:
//! a sign bit and a magnitude. Among numbers of one sign the magnitudes are
//! ordered as the numbers' absolute values are, and neighbouring magnitudes
//! are neighbouring representable numbers.

use vstd::prelude::*;

verus! {

/// The magnitude from which on a coordinate is offset on its bits: 1/32.
pub const ORIGIN: u32 = 0x3d00_0000;

/// The magnitude of infinity; larger magnitudes are not numbers.
pub const INFINITE: u32 = 0x7f80_0000;

/// The largest offset in representable numbers: 256 times a component of a
/// unit normal.
pub const MAX_STEPS: i32 = 256;

/// The bits without the sign.
pub open spec fn magnitude(bits: u32) -> int {
    if bits >= 0x8000_0000 {
        bits - 0x8000_0000
    } else {
        bits as int
    }
}

/// The coordinate is a number below zero.
pub open spec fn is_negative(bits: u32) -> bool {
    bits >= 0x8000_0000 && 0 < magnitude(bits) <= INFINITE
}

/// The coordinate is closer to zero than 1/32.
pub open spec fn near_origin(bits: u32) -> bool {
    magnitude(bits) < ORIGIN
}

/// The bits read as a signed number in two's complement.
pub open spec fn as_signed(bits: u32) -> int {
    if bits >= 0x8000_0000 {
        bits - 0x1_0000_0000
    } else {
        bits as int
    }
}

/// The signed number that the offset bits are, read in two's complement:
/// `steps` are added for a coordinate that is not below zero, subtracted
/// for one that is.
pub open spec fn offset_signed(bits: u32, steps: i32) -> int {
    if is_negative(bits) {
        as_signed(bits) - steps
    } else {
        as_signed(bits) + steps
    }
}

/// The offset bits: the signed number `offset_signed` in two's complement.
pub open spec fn offset_bits(bits: u32, steps: i32) -> u32 {
    if offset_signed(bits, steps) < 0 {
        (offset_signed(bits, steps) + 0x1_0000_0000) as u32
    } else {
        offset_signed(bits, steps) as u32
    }
}

/// The place of a number among the numbers: counted in representable
/// numbers from zero, below zero for the numbers below zero.
pub open spec fn rank(bits: u32) -> int {
    if bits >= 0x8000_0000 {
        -magnitude(bits)
    } else {
        magnitude(bits)
    }
}

/// The offset coordinate of a point that lies off the origin: `steps`
/// representable numbers further along the normal. A coordinate closer to
/// zero than 1/32 is not offset on its bits: for it the result is `None`.
pub fn offset_component(bits: u32, steps: i32) -> (r: Option<u32>)
    requires
        !near_origin(bits) ==> i32::MIN <= offset_signed(bits, steps) <= i32::MAX,
    ensures
        r == if near_origin(bits) {
            None
        } else {
            Some(offset_bits(bits, steps))
        },
{
    let negative_zero: u32 = 0x8000_0000;
    let magnitude: u32 = if bits >= negative_zero {
        bits - negative_zero
    } else {
        bits
    };
    if magnitude < ORIGIN {
        return None;
    }
    let signed: i64 = if bits >= negative_zero {
        bits as i64 - 0x1_0000_0000
    } else {
        bits as i64
    };
    let below_zero = bits >= negative_zero && magnitude <= INFINITE;
    let moved: i64 = if below_zero {
        signed - steps as i64
    } else {
        signed + steps as i64
    };
    if moved < 0 {
        Some((moved + 0x1_0000_0000) as u32)
    } else {
        Some(moved as u32)
    }
}

/// The offset never steps into the surface: a number that is off the origin
/// moves by exactly `steps` places among the numbers, so upwards for a
/// normal that points upwards and downwards for one that points downwards,
/// and it keeps its sign.
pub proof fn lemma_offset_follows_normal(bits: u32, steps: i32)
    requires
        !near_origin(bits),
        magnitude(bits) <= INFINITE,
        -MAX_STEPS <= steps <= MAX_STEPS,
    ensures
        rank(offset_bits(bits, steps)) == rank(bits) + steps,
        (offset_bits(bits, steps) >= 0x8000_0000) == (bits >= 0x8000_0000),
        steps >= 0 ==> rank(offset_bits(bits, steps)) >= rank(bits),
        steps <= 0 ==> rank(offset_bits(bits, steps)) <= rank(bits),
{
}

} // verus!
