//! The numeric scalar of the animation engine.
//!
//! A `Scalar` is the bit pattern of an IEEE-754 single-precision (binary32)
//! value, carried as a `u32`. Arithmetic on scalars is delegated to
//! `rustc_apfloat`'s software implementation of binary32, which computes the
//! correctly rounded (round to nearest, ties to even) result from the bit
//! patterns alone; each arithmetic operation is therefore a pure function of
//! its argument bits, named here by an uninterpreted spec function.
//! Comparisons, by contrast, are implemented and verified directly: the
//! IEEE-754 ordering of two binary32 values is plain integer logic on their
//! sign-magnitude representations.

use vstd::prelude::*;
use rustc_apfloat::Float;

verus! {

/// The bit pattern of an IEEE-754 binary32 value.
pub type Scalar = u32;

/// Bits of 0.0.
pub const SCALAR_ZERO: Scalar = 0;

/// Bits of 1.0.
pub const SCALAR_ONE: Scalar = 0x3F80_0000;

/// Bits of 1000.0, the number of milliseconds in a second.
pub const SCALAR_THOUSAND: Scalar = 0x447A_0000;

/// The binary32 sum of the two values given by `a` and `b`.
pub uninterp spec fn add_bits(a: Scalar, b: Scalar) -> Scalar;

/// The binary32 difference of the two values given by `a` and `b`.
pub uninterp spec fn sub_bits(a: Scalar, b: Scalar) -> Scalar;

/// The binary32 product of the two values given by `a` and `b`.
pub uninterp spec fn mul_bits(a: Scalar, b: Scalar) -> Scalar;

/// The binary32 quotient of the two values given by `a` and `b`.
pub uninterp spec fn div_bits(a: Scalar, b: Scalar) -> Scalar;

/// The binary32 value nearest to the integer `v`.
pub uninterp spec fn int_bits(v: int) -> Scalar;

/// The value given by `a`, truncated toward zero to a 64-bit signed
/// integer, saturating at the type's bounds, with NaN taken to zero.
pub uninterp spec fn trunc_bits(a: Scalar) -> i64;

/// Relies on `rustc_apfloat::ieee::Single`'s addition, which returns the
/// correctly rounded binary32 sum of the two bit patterns.
#[verifier::external_body]
pub(crate) fn scalar_add(a: Scalar, b: Scalar) -> (r: Scalar)
    ensures
        r == add_bits(a, b),
{
    let x = rustc_apfloat::ieee::Single::from_bits(a as u128);
    let y = rustc_apfloat::ieee::Single::from_bits(b as u128);
    (x + y).value.to_bits() as u32
}

/// Relies on `rustc_apfloat::ieee::Single`'s subtraction, which returns the
/// correctly rounded binary32 difference of the two bit patterns.
#[verifier::external_body]
pub(crate) fn scalar_sub(a: Scalar, b: Scalar) -> (r: Scalar)
    ensures
        r == sub_bits(a, b),
{
    let x = rustc_apfloat::ieee::Single::from_bits(a as u128);
    let y = rustc_apfloat::ieee::Single::from_bits(b as u128);
    (x - y).value.to_bits() as u32
}

/// Relies on `rustc_apfloat::ieee::Single`'s multiplication, which returns
/// the correctly rounded binary32 product of the two bit patterns.
#[verifier::external_body]
pub(crate) fn scalar_mul(a: Scalar, b: Scalar) -> (r: Scalar)
    ensures
        r == mul_bits(a, b),
{
    let x = rustc_apfloat::ieee::Single::from_bits(a as u128);
    let y = rustc_apfloat::ieee::Single::from_bits(b as u128);
    (x * y).value.to_bits() as u32
}

/// Relies on `rustc_apfloat::ieee::Single`'s division, which returns the
/// correctly rounded binary32 quotient of the two bit patterns (infinite
/// for a nonzero value divided by zero, NaN for zero by zero).
#[verifier::external_body]
pub(crate) fn scalar_div(a: Scalar, b: Scalar) -> (r: Scalar)
    ensures
        r == div_bits(a, b),
{
    let x = rustc_apfloat::ieee::Single::from_bits(a as u128);
    let y = rustc_apfloat::ieee::Single::from_bits(b as u128);
    (x / y).value.to_bits() as u32
}

/// Relies on `rustc_apfloat::Float::from_i128`, which rounds an integer to
/// the nearest binary32 value, ties to even.
#[verifier::external_body]
pub(crate) fn scalar_of_int(v: i128) -> (r: Scalar)
    ensures
        r == int_bits(v as int),
{
    rustc_apfloat::ieee::Single::from_i128(v).value.to_bits() as u32
}

/// Relies on `rustc_apfloat::Float::to_i128`, which truncates toward zero,
/// returns the nearest representable bound on overflow, and zero for NaN.
#[verifier::external_body]
pub(crate) fn scalar_trunc(a: Scalar) -> (r: i64)
    ensures
        r == trunc_bits(a),
{
    let x = rustc_apfloat::ieee::Single::from_bits(a as u128);
    x.to_i128(64).value as i64
}

/// Whether the bit pattern encodes a NaN: an all-ones exponent together
/// with a nonzero significand.
pub open spec fn scalar_is_nan(a: Scalar) -> bool {
    a & 0x7F80_0000 == 0x7F80_0000 && a & 0x007F_FFFF != 0
}

/// The magnitude field of the bit pattern: everything but the sign bit.
pub open spec fn scalar_magnitude(a: Scalar) -> int {
    (a & 0x7FFF_FFFF) as int
}

/// The position of the encoded value on the number line, as an integer key:
/// for a fixed exponent width, binary32 magnitudes order the same way their
/// low 31 bits do, so negating the magnitude of negative values yields a
/// key whose integer order is exactly the IEEE-754 order. Both zeros map
/// to key 0.
pub open spec fn scalar_key(a: Scalar) -> int {
    if a & 0x8000_0000 != 0 {
        -scalar_magnitude(a)
    } else {
        scalar_magnitude(a)
    }
}

/// IEEE-754 `<` on the encoded values: false when either side is NaN.
pub open spec fn lt_bits(a: Scalar, b: Scalar) -> bool {
    !scalar_is_nan(a) && !scalar_is_nan(b) && scalar_key(a) < scalar_key(b)
}

/// IEEE-754 `>` on the encoded values: false when either side is NaN.
pub open spec fn gt_bits(a: Scalar, b: Scalar) -> bool {
    lt_bits(b, a)
}

/// IEEE-754 `<=` on the encoded values: false when either side is NaN.
pub open spec fn le_bits(a: Scalar, b: Scalar) -> bool {
    !scalar_is_nan(a) && !scalar_is_nan(b) && scalar_key(a) <= scalar_key(b)
}

/// Decides IEEE-754 `>` on two scalar bit patterns.
pub fn scalar_gt(a: Scalar, b: Scalar) -> (r: bool)
    ensures
        r == gt_bits(a, b),
{
    let a_nan = a & 0x7F80_0000 == 0x7F80_0000 && a & 0x007F_FFFF != 0;
    let b_nan = b & 0x7F80_0000 == 0x7F80_0000 && b & 0x007F_FFFF != 0;
    if a_nan || b_nan {
        return false;
    }
    let ka: i64 = if a & 0x8000_0000 != 0 {
        -((a & 0x7FFF_FFFF) as i64)
    } else {
        (a & 0x7FFF_FFFF) as i64
    };
    let kb: i64 = if b & 0x8000_0000 != 0 {
        -((b & 0x7FFF_FFFF) as i64)
    } else {
        (b & 0x7FFF_FFFF) as i64
    };
    kb < ka
}

} // verus!
