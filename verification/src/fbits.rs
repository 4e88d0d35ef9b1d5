//! Single-precision values as raw IEEE-754 bit patterns.
//!
//! The library never performs floating-point arithmetic in verified code;
//! every scalar travels as the `u32` bit pattern of an `f32`. This module
//! gives those patterns their order: `order_key` maps a pattern to an integer
//! so that, for every pair of non-NaN values, the keys compare exactly as the
//! floats do under IEEE-754 `<` (the two zeros share one key). NaN patterns
//! are the ones whose magnitude exceeds the infinity pattern; ranking rejects
//! them rather than sort them.

use vstd::prelude::*;

verus! {

/// The infinity pattern: sign bit clear, exponent all ones, mantissa zero.
pub const INF_MAG: u32 = 0x7f80_0000;

/// The magnitude part of a pattern: everything but the sign bit.
pub open spec fn mag(x: u32) -> u32 {
    x & 0x7fff_ffff
}

/// Whether the sign bit of the pattern is set.
pub open spec fn sign(x: u32) -> bool {
    x >= 0x8000_0000
}

/// A NaN pattern: magnitude strictly above the infinity pattern.
pub open spec fn is_nan_bits(x: u32) -> bool {
    mag(x) > INF_MAG
}

/// A (positive or negative) zero pattern.
pub open spec fn is_zero_bits(x: u32) -> bool {
    mag(x) == 0
}

/// Order key of a pattern. Negative values map below `0x8000_0000`, positive
/// values above it, both zeros onto it; within one sign, larger magnitude
/// means further from the middle. For non-NaN patterns this is exactly the
/// IEEE-754 order of the floats they encode.
pub open spec fn order_key(x: u32) -> int {
    if sign(x) {
        0x8000_0000 - mag(x)
    } else {
        0x8000_0000 + mag(x)
    }
}

/// Strict "less than" on patterns, by order key.
pub open spec fn f32_lt(a: u32, b: u32) -> bool {
    order_key(a) < order_key(b)
}

/// "Less than or equal" on patterns, by order key.
pub open spec fn f32_le(a: u32, b: u32) -> bool {
    order_key(a) <= order_key(b)
}

/// Computes the order key of a pattern.
pub fn order_key_exec(x: u32) -> (r: u32)
    ensures
        r == order_key(x),
{
    let m: u32 = x & 0x7fff_ffff;
    proof {
        assert(x & 0x7fff_ffff <= 0x7fff_ffff) by (bit_vector);
    }
    if x >= 0x8000_0000 {
        0x8000_0000 - m
    } else {
        0x8000_0000 + m
    }
}

/// Decides `f32_lt` on two patterns.
pub fn f32_lt_exec(a: u32, b: u32) -> (r: bool)
    ensures
        r == f32_lt(a, b),
{
    order_key_exec(a) < order_key_exec(b)
}

/// Recognizes a NaN pattern.
pub fn is_nan_exec(x: u32) -> (r: bool)
    ensures
        r == is_nan_bits(x),
{
    (x & 0x7fff_ffff) > INF_MAG
}

/// Recognizes a zero pattern (either sign).
pub fn is_zero_exec(x: u32) -> (r: bool)
    ensures
        r == is_zero_bits(x),
{
    (x & 0x7fff_ffff) == 0
}

} // verus!
