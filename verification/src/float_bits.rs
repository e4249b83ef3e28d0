//! Classifying an IEEE 754 binary64 number by its bit pattern, as
//! `f64::to_bits` gives it: the sign is the top bit, the magnitude the other
//! 63; the magnitude `0x7ff0_0000_0000_0000` is infinity, larger ones are
//! NaN, and zero is `+0.0` or `-0.0`.

use vstd::prelude::*;

verus! {

pub open spec fn sign_set(bits: u64) -> bool {
    bits >= 0x8000_0000_0000_0000u64
}

pub open spec fn magnitude(bits: u64) -> int {
    if sign_set(bits) {
        bits - 0x8000_0000_0000_0000u64
    } else {
        bits as int
    }
}

/// `f64::is_finite`: neither infinite nor NaN.
pub open spec fn finite_bits(bits: u64) -> bool {
    magnitude(bits) < 0x7ff0_0000_0000_0000
}

/// `f64::is_nan`.
pub open spec fn nan_bits(bits: u64) -> bool {
    magnitude(bits) > 0x7ff0_0000_0000_0000
}

/// `x == 0.0`: `+0.0` or `-0.0`.
pub open spec fn zero_bits(bits: u64) -> bool {
    magnitude(bits) == 0
}

/// `x <= 0.0`: zero, or negative and not NaN.
pub open spec fn at_most_zero_bits(bits: u64) -> bool {
    zero_bits(bits) || (sign_set(bits) && !nan_bits(bits))
}

fn magnitude_exec(bits: u64) -> (r: u64)
    ensures
        r == magnitude(bits),
{
    if bits >= 0x8000_0000_0000_0000u64 {
        bits - 0x8000_0000_0000_0000u64
    } else {
        bits
    }
}

pub fn is_finite_bits(bits: u64) -> (r: bool)
    ensures
        r == finite_bits(bits),
{
    magnitude_exec(bits) < 0x7ff0_0000_0000_0000u64
}

pub fn is_nan_bits(bits: u64) -> (r: bool)
    ensures
        r == nan_bits(bits),
{
    magnitude_exec(bits) > 0x7ff0_0000_0000_0000u64
}

pub fn is_zero_bits(bits: u64) -> (r: bool)
    ensures
        r == zero_bits(bits),
{
    magnitude_exec(bits) == 0
}

pub fn is_at_most_zero_bits(bits: u64) -> (r: bool)
    ensures
        r == at_most_zero_bits(bits),
{
    is_zero_bits(bits) || (bits >= 0x8000_0000_0000_0000u64 && !is_nan_bits(bits))
}

} // verus!
