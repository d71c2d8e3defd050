//! IEEE-754 double-precision semantics, expressed on `u64` bit patterns.
//!
//! The rest of the crate never holds a floating-point number: every `f64`
//! travels as the `u64` returned by `f64::to_bits`. The functions here give
//! the three views of such a bit pattern that the rewriter needs:
//!
//! - [`feq`]: IEEE equality (`==` on `f64`): NaN equals nothing, and the two
//!   zeros equal each other.
//! - [`fpos`]: strictly greater than zero (`> 0.0` on `f64`): the sign bit is
//!   clear and the value is neither a zero nor a NaN.
//! - [`fle`]: the IEEE total order, as `f64::total_cmp` defines it: negative
//!   NaNs sort below everything, positive NaNs above everything, `-0.0` below
//!   `+0.0`. Because a negative NaN sorts below every real value, a minimum
//!   scan must not feed NaNs into this order; the pass-1 scanner filters them
//!   out before comparing (see [`crate::scanner`]).

use vstd::prelude::*;

verus! {

/// Sign bit of a double's bit pattern.
pub const F64_SIGN_MASK: u64 = 0x8000_0000_0000_0000;

/// Exponent bits of a double's bit pattern.
pub const F64_EXP_MASK: u64 = 0x7FF0_0000_0000_0000;

/// Mantissa bits of a double's bit pattern.
pub const F64_MANTISSA_MASK: u64 = 0x000F_FFFF_FFFF_FFFF;

/// Everything but the sign bit.
pub const F64_ABS_MASK: u64 = 0x7FFF_FFFF_FFFF_FFFF;

/// The pattern is a NaN: exponent all ones and a non-zero mantissa.
pub open spec fn is_nan(a: u64) -> bool {
    a & F64_EXP_MASK == F64_EXP_MASK && a & F64_MANTISSA_MASK != 0
}

/// The pattern is one of the two zeros.
pub open spec fn is_zero(a: u64) -> bool {
    a & F64_ABS_MASK == 0
}

/// IEEE equality of the two doubles: both are non-NaN and either the bit
/// patterns coincide or both are zeros.
pub open spec fn feq(a: u64, b: u64) -> bool {
    &&& !is_nan(a)
    &&& !is_nan(b)
    &&& (a == b || (is_zero(a) && is_zero(b)))
}

/// The double is strictly greater than zero: non-NaN, sign clear, not a zero.
pub open spec fn fpos(a: u64) -> bool {
    &&& !is_nan(a)
    &&& a & F64_SIGN_MASK == 0
    &&& !is_zero(a)
}

/// Monotone key of the IEEE total order: negative patterns are complemented,
/// non-negative ones get the sign bit set, and the keys compare as plain
/// integers. This is the transformation `f64::total_cmp` documents.
pub open spec fn total_key(a: u64) -> u64 {
    if a & F64_SIGN_MASK == F64_SIGN_MASK {
        !a
    } else {
        a | F64_SIGN_MASK
    }
}

/// `a` is at most `b` in the IEEE total order.
pub open spec fn fle(a: u64, b: u64) -> bool {
    total_key(a) <= total_key(b)
}

/// The smaller of the two doubles in the IEEE total order.
pub open spec fn fmin(a: u64, b: u64) -> u64 {
    if fle(a, b) {
        a
    } else {
        b
    }
}

/// Runtime test for [`is_nan`].
pub fn is_nan_exec(a: u64) -> (r: bool)
    ensures
        r == is_nan(a),
{
    a & F64_EXP_MASK == F64_EXP_MASK && a & F64_MANTISSA_MASK != 0
}

/// Runtime test for [`is_zero`].
pub fn is_zero_exec(a: u64) -> (r: bool)
    ensures
        r == is_zero(a),
{
    a & F64_ABS_MASK == 0
}

/// Runtime test for [`feq`].
pub fn feq_exec(a: u64, b: u64) -> (r: bool)
    ensures
        r == feq(a, b),
{
    !is_nan_exec(a) && !is_nan_exec(b) && (a == b || (is_zero_exec(a) && is_zero_exec(b)))
}

/// Runtime test for [`fpos`].
pub fn fpos_exec(a: u64) -> (r: bool)
    ensures
        r == fpos(a),
{
    !is_nan_exec(a) && a & F64_SIGN_MASK == 0 && !is_zero_exec(a)
}

/// Runtime test for [`fle`].
pub fn fle_exec(a: u64, b: u64) -> (r: bool)
    ensures
        r == fle(a, b),
{
    let ka: u64 = if a & F64_SIGN_MASK == F64_SIGN_MASK {
        !a
    } else {
        a | F64_SIGN_MASK
    };
    let kb: u64 = if b & F64_SIGN_MASK == F64_SIGN_MASK {
        !b
    } else {
        b | F64_SIGN_MASK
    };
    ka <= kb
}

/// Runtime computation of [`fmin`].
pub fn fmin_exec(a: u64, b: u64) -> (r: u64)
    ensures
        r == fmin(a, b),
{
    if fle_exec(a, b) {
        a
    } else {
        b
    }
}

/// The total order is indeed total: any two patterns compare one way or the
/// other, and both ways only when the patterns are equal.
pub proof fn lemma_total_order(a: u64, b: u64)
    ensures
        fle(a, b) || fle(b, a),
        fle(a, b) && fle(b, a) ==> a == b,
{
    assert(fle(a, b) || fle(b, a)) by (bit_vector);
    assert(total_key(a) == total_key(b) ==> a == b) by (bit_vector);
}

} // verus!
