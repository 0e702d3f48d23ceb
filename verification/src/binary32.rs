//! Single-precision (IEEE-754 binary32) values held as their bit patterns.
//!
//! Importance, weights, thresholds, scores and embedding components are 32-bit
//! floating-point values. The library keeps each one as the `u32` that encodes it
//! (sign bit, 8 exponent bits, 23 fraction bits) and reasons about the order of the
//! encoded values: for non-NaN patterns, positive patterns order like their integers,
//! negative ones in reverse, and `+0` equals `-0`.
use vstd::prelude::*;

verus! {

/// Bit pattern of `0.0`.
pub const REAL_ZERO: u32 = 0x0000_0000;

/// Bit pattern of `-0.0`.
pub const REAL_NEG_ZERO: u32 = 0x8000_0000;

/// Bit pattern of `1.0`.
pub const REAL_ONE: u32 = 0x3F80_0000;

/// Bit pattern of `0.5`.
pub const REAL_HALF: u32 = 0x3F00_0000;

/// Bit pattern of `0.7`.
pub const REAL_0_7: u32 = 0x3F33_3333;

/// Bit pattern of `0.3`.
pub const REAL_0_3: u32 = 0x3E99_999A;

/// The magnitude bits (all but the sign).
pub open spec fn magnitude(b: u32) -> int {
    if b < 0x8000_0000 {
        b as int
    } else {
        b - 0x8000_0000
    }
}

/// The pattern encodes a NaN: all exponent bits set and a non-zero fraction.
pub open spec fn real_is_nan(b: u32) -> bool {
    magnitude(b) > 0x7F80_0000
}

/// An integer that orders non-NaN patterns as their values are ordered.
pub open spec fn real_key(b: u32) -> int {
    if b < 0x8000_0000 {
        b as int
    } else {
        -(b - 0x8000_0000)
    }
}

/// `a < b` on the encoded values (false when either is NaN).
pub open spec fn real_lt(a: u32, b: u32) -> bool {
    !real_is_nan(a) && !real_is_nan(b) && real_key(a) < real_key(b)
}

/// `a <= b` on the encoded values (false when either is NaN).
pub open spec fn real_le(a: u32, b: u32) -> bool {
    !real_is_nan(a) && !real_is_nan(b) && real_key(a) <= real_key(b)
}

/// `a == b` on the encoded values (`+0 == -0`; NaN equals nothing).
pub open spec fn real_eq(a: u32, b: u32) -> bool {
    !real_is_nan(a) && !real_is_nan(b) && real_key(a) == real_key(b)
}

/// The encoded value lies in `[0, 1]` (what `(0.0..=1.0).contains(&x)` tests).
pub open spec fn in_unit(b: u32) -> bool {
    real_le(REAL_ZERO, b) && real_le(b, REAL_ONE)
}

/// Executable [`real_is_nan`].
pub fn is_nan(b: u32) -> (r: bool)
    ensures
        r == real_is_nan(b),
{
    let m = if b < 0x8000_0000 {
        b
    } else {
        b - 0x8000_0000
    };
    m > 0x7F80_0000
}

fn key_le(a: u32, b: u32) -> (r: bool)
    ensures
        r == (real_key(a) <= real_key(b)),
{
    if a < 0x8000_0000 {
        if b < 0x8000_0000 {
            a <= b
        } else {
            a == 0 && b == 0x8000_0000
        }
    } else {
        if b < 0x8000_0000 {
            true
        } else {
            a >= b
        }
    }
}

/// Executable [`real_lt`].
pub fn lt(a: u32, b: u32) -> (r: bool)
    ensures
        r == real_lt(a, b),
{
    !is_nan(a) && !is_nan(b) && !key_le(b, a)
}

/// Executable [`real_le`].
pub fn le(a: u32, b: u32) -> (r: bool)
    ensures
        r == real_le(a, b),
{
    !is_nan(a) && !is_nan(b) && key_le(a, b)
}

/// Executable [`real_eq`].
pub fn eq(a: u32, b: u32) -> (r: bool)
    ensures
        r == real_eq(a, b),
{
    !is_nan(a) && !is_nan(b) && key_le(a, b) && key_le(b, a)
}

/// Executable [`in_unit`].
pub fn unit(b: u32) -> (r: bool)
    ensures
        r == in_unit(b),
{
    le(REAL_ZERO, b) && le(b, REAL_ONE)
}

/// Within `[0, 1]`, value order is the order of [`real_key`].
pub proof fn lemma_unit_key(b: u32)
    requires
        in_unit(b),
    ensures
        0 <= real_key(b) <= REAL_ONE,
        !real_is_nan(b),
{
}

} // verus!
