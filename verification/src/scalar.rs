//! Scalar depth values, carried as the bit patterns of 64-bit IEEE 754
//! numbers, together with trusted arithmetic on them.
//!
//! Verus gives floating-point values no reasoning support, so the verified
//! code never inspects a scalar: every arithmetic step goes through one of
//! the operations below, and every contract speaks of the uninterpreted
//! functions that name their results. An operation determines its result's
//! bits except for one gap: the payload bits of a NaN it produces are not
//! specified. So each trusted wrapper promises its result only up to NaN
//! payload, and the public operations canonicalize: every NaN result leaves
//! as the one canonical NaN pattern, making each public operation a genuine
//! function of its operands' bits. Inside the wrapper bodies,
//! `bytemuck::cast` reinterprets a bit pattern as a number and back, and
//! `glam`'s double-precision vectors fix the numeric type.

use vstd::prelude::*;

verus! {

/// Bit pattern of the number zero.
pub const ZERO_BITS: u64 = 0;

/// Bit pattern of negative zero.
pub const NEG_ZERO_BITS: u64 = 0x8000_0000_0000_0000;

/// Bit pattern of the number one.
pub const ONE_BITS: u64 = 0x3FF0_0000_0000_0000;

/// The canonical quiet NaN pattern.
pub const NAN_BITS: u64 = 0x7FF8_0000_0000_0000;

/// Whether the bit pattern reads as a NaN: exponent field all ones and a
/// nonzero mantissa.
pub open spec fn is_nan_bits(b: u64) -> bool {
    (b >> 52) & 0x7FF == 0x7FF && b & 0x000F_FFFF_FFFF_FFFF != 0
}

/// The canonical form of a scalar: every NaN pattern becomes the one
/// canonical NaN, everything else is itself.
pub open spec fn canon_bits(b: u64) -> u64 {
    if is_nan_bits(b) {
        NAN_BITS
    } else {
        b
    }
}

/// Canonicalizes a scalar.
pub(crate) fn canon(b: u64) -> (r: u64)
    ensures
        r == canon_bits(b),
{
    if (b >> 52) & 0x7FF == 0x7FF && b & 0x000F_FFFF_FFFF_FFFF != 0 {
        NAN_BITS
    } else {
        b
    }
}

/// The canonicalized sum of the two numbers whose bit patterns are given.
pub uninterp spec fn add_bits_of(a: u64, b: u64) -> u64;

/// The canonicalized difference of the two numbers whose bit patterns are
/// given.
pub uninterp spec fn sub_bits_of(a: u64, b: u64) -> u64;

/// The canonicalized product of the two numbers whose bit patterns are
/// given.
pub uninterp spec fn mul_bits_of(a: u64, b: u64) -> u64;

/// The canonicalized quotient of the two numbers whose bit patterns are
/// given.
pub uninterp spec fn div_bits_of(a: u64, b: u64) -> u64;

/// The bit pattern of the number nearest to the given integer.
pub uninterp spec fn float_of_int(n: u64) -> u64;

/// Relies on 64-bit IEEE 754 addition: up to the payload bits of a NaN
/// result, which the language leaves open, the sum depends on the two
/// operands alone.
#[verifier::external_body]
fn add_bits_raw(a: u64, b: u64) -> (r: u64)
    ensures
        canon_bits(r) == add_bits_of(a, b),
{
    let v = glam::DVec2::new(bytemuck::cast(a), bytemuck::cast(b));
    bytemuck::cast(v.x + v.y)
}

/// Relies on 64-bit IEEE 754 subtraction: up to the payload bits of a NaN
/// result, which the language leaves open, the difference depends on the
/// two operands alone.
#[verifier::external_body]
fn sub_bits_raw(a: u64, b: u64) -> (r: u64)
    ensures
        canon_bits(r) == sub_bits_of(a, b),
{
    let v = glam::DVec2::new(bytemuck::cast(a), bytemuck::cast(b));
    bytemuck::cast(v.x - v.y)
}

/// Relies on 64-bit IEEE 754 multiplication: up to the payload bits of a
/// NaN result, which the language leaves open, the product depends on the
/// two operands alone.
#[verifier::external_body]
fn mul_bits_raw(a: u64, b: u64) -> (r: u64)
    ensures
        canon_bits(r) == mul_bits_of(a, b),
{
    let v = glam::DVec2::new(bytemuck::cast(a), bytemuck::cast(b));
    bytemuck::cast(v.x * v.y)
}

/// Relies on 64-bit IEEE 754 division: up to the payload bits of a NaN
/// result, which the language leaves open, the quotient depends on the two
/// operands alone.
#[verifier::external_body]
fn div_bits_raw(a: u64, b: u64) -> (r: u64)
    ensures
        canon_bits(r) == div_bits_of(a, b),
{
    let v = glam::DVec2::new(bytemuck::cast(a), bytemuck::cast(b));
    bytemuck::cast(v.x / v.y)
}

/// The canonicalized sum.
pub fn add_bits(a: u64, b: u64) -> (r: u64)
    ensures
        r == add_bits_of(a, b),
{
    canon(add_bits_raw(a, b))
}

/// The canonicalized difference.
pub fn sub_bits(a: u64, b: u64) -> (r: u64)
    ensures
        r == sub_bits_of(a, b),
{
    canon(sub_bits_raw(a, b))
}

/// The canonicalized product.
pub fn mul_bits(a: u64, b: u64) -> (r: u64)
    ensures
        r == mul_bits_of(a, b),
{
    canon(mul_bits_raw(a, b))
}

/// The canonicalized quotient.
pub fn div_bits(a: u64, b: u64) -> (r: u64)
    ensures
        r == div_bits_of(a, b),
{
    canon(div_bits_raw(a, b))
}

/// Relies on the integer-to-double conversion: total, rounds to nearest,
/// never NaN, so the result depends on the integer alone.
#[verifier::external_body]
pub fn float_bits(n: u64) -> (r: u64)
    ensures
        r == float_of_int(n),
{
    bytemuck::cast(glam::DVec2::splat(n as _).x)
}

} // verus!
