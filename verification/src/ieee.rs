//! IEEE-754 comparisons on floating-point values held as their bit patterns.
//!
//! Scores are `f32` values and metadata numbers are `f64` values; the library
//! holds both as the `u32` / `u64` bit patterns that `to_bits` gives, and
//! compares them here with the semantics of the float operators.
use vstd::prelude::*;

verus! {

/// The `f64` with bit pattern `b` is a NaN.
pub open spec fn f64_is_nan(b: u64) -> bool {
    (b & 0x7ff0_0000_0000_0000u64) == 0x7ff0_0000_0000_0000u64
        && (b & 0x000f_ffff_ffff_ffffu64) != 0
}

/// `==` on the two `f64` with bit patterns `a` and `b`: no NaN is equal to
/// anything, both zeros are equal, and otherwise the patterns must agree.
pub open spec fn f64_eq(a: u64, b: u64) -> bool {
    &&& !f64_is_nan(a)
    &&& !f64_is_nan(b)
    &&& (a == b || ((a & 0x7fff_ffff_ffff_ffffu64) == 0 && (b & 0x7fff_ffff_ffff_ffffu64) == 0))
}

/// The `f32` with bit pattern `b` is a NaN.
pub open spec fn f32_is_nan(b: u32) -> bool {
    (b & 0x7fff_ffffu32) > 0x7f80_0000u32
}

/// The position of the `f32` with bit pattern `b` on the real line: the
/// magnitude bits, negated when the sign bit is set (both zeros sit at 0).
/// For two values that are not NaN, `x <= y` holds exactly when
/// `f32_position(x) <= f32_position(y)`.
pub open spec fn f32_position(b: u32) -> int {
    let magnitude = (b & 0x7fff_ffffu32) as int;
    if b >= 0x8000_0000u32 {
        -magnitude
    } else {
        magnitude
    }
}

/// `==` on the two `f32` with bit patterns `a` and `b`: no NaN is equal to
/// anything, both zeros are equal, and otherwise the patterns must agree.
pub open spec fn f32_eq(a: u32, b: u32) -> bool {
    &&& !f32_is_nan(a)
    &&& !f32_is_nan(b)
    &&& (a == b || ((a & 0x7fff_ffffu32) == 0 && (b & 0x7fff_ffffu32) == 0))
}

/// `>=` on the two `f32` with bit patterns `a` and `b`.
pub open spec fn f32_ge(a: u32, b: u32) -> bool {
    !f32_is_nan(a) && !f32_is_nan(b) && f32_position(a) >= f32_position(b)
}

/// Computes `f64_eq`.
pub fn f64_bits_eq(a: u64, b: u64) -> (r: bool)
    ensures
        r == f64_eq(a, b),
{
    let a_nan = (a & 0x7ff0_0000_0000_0000u64) == 0x7ff0_0000_0000_0000u64
        && (a & 0x000f_ffff_ffff_ffffu64) != 0;
    let b_nan = (b & 0x7ff0_0000_0000_0000u64) == 0x7ff0_0000_0000_0000u64
        && (b & 0x000f_ffff_ffff_ffffu64) != 0;
    !a_nan && !b_nan && (a == b || ((a & 0x7fff_ffff_ffff_ffffu64) == 0 && (b
        & 0x7fff_ffff_ffff_ffffu64) == 0))
}

/// Computes `f32_eq`.
pub fn f32_bits_eq(a: u32, b: u32) -> (r: bool)
    ensures
        r == f32_eq(a, b),
{
    let a_nan = (a & 0x7fff_ffffu32) > 0x7f80_0000u32;
    let b_nan = (b & 0x7fff_ffffu32) > 0x7f80_0000u32;
    !a_nan && !b_nan && (a == b || ((a & 0x7fff_ffffu32) == 0 && (b & 0x7fff_ffffu32) == 0))
}

/// Computes `f32_is_nan`.
pub fn f32_bits_is_nan(b: u32) -> (r: bool)
    ensures
        r == f32_is_nan(b),
{
    (b & 0x7fff_ffffu32) > 0x7f80_0000u32
}

/// Computes `f32_position`.
pub fn f32_bits_position(b: u32) -> (r: i64)
    ensures
        r == f32_position(b),
{
    let magnitude: u32 = b & 0x7fff_ffffu32;
    let m: i64 = magnitude as i64;
    if b >= 0x8000_0000u32 {
        -m
    } else {
        m
    }
}

/// Computes `f32_ge`.
pub fn f32_bits_ge(a: u32, b: u32) -> (r: bool)
    ensures
        r == f32_ge(a, b),
{
    !f32_bits_is_nan(a) && !f32_bits_is_nan(b) && f32_bits_position(a) >= f32_bits_position(b)
}

} // verus!
