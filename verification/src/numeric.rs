//! IEEE-754 binary32 arithmetic on raw bit patterns.
//!
//! Verified code never holds a floating-point value: it carries the 32-bit
//! patterns and hands them to `rustc_apfloat`'s software implementation of
//! IEEE-754 binary32 ("Single"), which computes on bit patterns directly and
//! rounds to nearest, ties to even — the same rounding hardware `f32`
//! arithmetic uses.  Each operation's result is named by an uninterpreted
//! spec function of its arguments; the results are deterministic functions of
//! the argument bits alone.

use vstd::prelude::*;

use rustc_apfloat::Float;

verus! {

/// The bit pattern of the IEEE binary32 sum of the numbers with bit patterns
/// `a` and `b` (round to nearest, ties to even).
pub uninterp spec fn add_bits(a: u32, b: u32) -> u32;

/// The bit pattern of the IEEE binary32 difference `a - b`.
pub uninterp spec fn sub_bits(a: u32, b: u32) -> u32;

/// The bit pattern of the IEEE binary32 product of `a` and `b`.
pub uninterp spec fn mul_bits(a: u32, b: u32) -> u32;

/// The bit pattern of the IEEE binary32 quotient `a / b`.
pub uninterp spec fn div_bits(a: u32, b: u32) -> u32;

/// The bit pattern of the IEEE binary32 remainder `a % b` (C `fmod`).
pub uninterp spec fn mod_bits(a: u32, b: u32) -> u32;

/// The bit pattern of the IEEE binary32 negation of `a`.
pub uninterp spec fn neg_bits(a: u32) -> u32;

/// The bit pattern of the IEEE binary32 number nearest to the 32-bit signed
/// integer `v` (round to nearest, ties to even), as the widening cast of the
/// source language's integer literals produces it.
pub uninterp spec fn i32_to_bits(v: i32) -> u32;

/// The bit pattern of the IEEE binary32 number nearest to the decimal number
/// written in `s`, or `None` where `s` is not a decimal number.
pub uninterp spec fn decimal_to_bits(s: Seq<char>) -> Option<u32>;

/// Relies on rustc_apfloat's `Single` (IEEE binary32) addition via
/// `Float::add_r` with round to nearest, ties to even.
#[verifier::external_body]
pub(crate) fn add_bits_exec(a: u32, b: u32) -> (r: u32)
    ensures
        r == add_bits(a, b),
{
    let x = rustc_apfloat::ieee::Single::from_bits(a as u128);
    let y = rustc_apfloat::ieee::Single::from_bits(b as u128);
    (x + y).value.to_bits() as u32
}

/// Relies on rustc_apfloat's `Single` subtraction via `Float::sub_r` with
/// round to nearest, ties to even.
#[verifier::external_body]
pub(crate) fn sub_bits_exec(a: u32, b: u32) -> (r: u32)
    ensures
        r == sub_bits(a, b),
{
    let x = rustc_apfloat::ieee::Single::from_bits(a as u128);
    let y = rustc_apfloat::ieee::Single::from_bits(b as u128);
    (x - y).value.to_bits() as u32
}

/// Relies on rustc_apfloat's `Single` multiplication via `Float::mul_r` with
/// round to nearest, ties to even.
#[verifier::external_body]
pub(crate) fn mul_bits_exec(a: u32, b: u32) -> (r: u32)
    ensures
        r == mul_bits(a, b),
{
    let x = rustc_apfloat::ieee::Single::from_bits(a as u128);
    let y = rustc_apfloat::ieee::Single::from_bits(b as u128);
    (x * y).value.to_bits() as u32
}

/// Relies on rustc_apfloat's `Single` division via `Float::div_r` with round
/// to nearest, ties to even; division by zero yields an infinity, per IEEE.
#[verifier::external_body]
pub(crate) fn div_bits_exec(a: u32, b: u32) -> (r: u32)
    ensures
        r == div_bits(a, b),
{
    let x = rustc_apfloat::ieee::Single::from_bits(a as u128);
    let y = rustc_apfloat::ieee::Single::from_bits(b as u128);
    (x / y).value.to_bits() as u32
}

/// Relies on rustc_apfloat's `Single` remainder via `Float::c_fmod`, the
/// same operation Rust's `%` performs on floats.
#[verifier::external_body]
pub(crate) fn mod_bits_exec(a: u32, b: u32) -> (r: u32)
    ensures
        r == mod_bits(a, b),
{
    let x = rustc_apfloat::ieee::Single::from_bits(a as u128);
    let y = rustc_apfloat::ieee::Single::from_bits(b as u128);
    (x % y).value.to_bits() as u32
}

/// Relies on rustc_apfloat's `Single` negation (`Neg`), which flips the sign.
#[verifier::external_body]
pub(crate) fn neg_bits_exec(a: u32) -> (r: u32)
    ensures
        r == neg_bits(a),
{
    let x = rustc_apfloat::ieee::Single::from_bits(a as u128);
    (-x).to_bits() as u32
}

/// Relies on rustc_apfloat's `Float::from_i128` (round to nearest, ties to
/// even), the rounding Rust's integer-to-float casts use.
#[verifier::external_body]
pub(crate) fn i32_to_bits_exec(v: i32) -> (r: u32)
    ensures
        r == i32_to_bits(v),
{
    rustc_apfloat::ieee::Single::from_i128(v as i128).value.to_bits() as u32
}

/// Relies on rustc_apfloat's `Float::from_str_r` (round to nearest, ties to
/// even), which rounds a decimal string to the nearest binary32 number.
#[verifier::external_body]
pub(crate) fn decimal_to_bits_exec(s: &str) -> (r: Option<u32>)
    ensures
        r == decimal_to_bits(s@),
{
    match s.parse::<rustc_apfloat::ieee::Single>() {
        Ok(f) => Some(f.to_bits() as u32),
        Err(_) => None,
    }
}

} // verus!
