//! Single-precision IEEE-754 numbers, held as their 32-bit patterns.
//!
//! Sign tests, ordering and truncation to integers are computed on the bits
//! and proved here. Rounded arithmetic is done in software: the four basic
//! operations and the conversion from integers by `rustc_apfloat`, roots and
//! the trigonometric functions by `softfloat`. Both work in integer
//! arithmetic alone, so equal operands give equal results on every machine.
use vstd::prelude::*;
use rustc_apfloat::ieee::Single;
use rustc_apfloat::{Float, Round};
use vstd::arithmetic::div_mod::lemma_div_denominator;
use vstd::arithmetic::power2::{
    pow2, lemma_pow2_strictly_increases, lemma2_to64, lemma_pow2_pos, lemma_pow2_unfold,
};
use vstd::bits::{lemma_u32_shr_is_div, lemma_u32_shl_is_mul};

verus! {

/// The bit that holds the sign.
pub const SIGN_BIT: u32 = 0x8000_0000;

/// Positive infinity; every larger magnitude is a NaN.
pub const INFINITY: u32 = 0x7f80_0000;

/// The weight of the hidden leading bit of a significand.
pub const HIDDEN_BIT: u32 = 0x0080_0000;

/// 0.0
pub const ZERO: u32 = 0;

/// 0.0625
pub const SIXTEENTH: u32 = 0x3d80_0000;

/// 0.25
pub const QUARTER: u32 = 0x3e80_0000;

/// 1.0
pub const ONE: u32 = 0x3f80_0000;

/// 2.0
pub const TWO: u32 = 0x4000_0000;

/// 4.0
pub const FOUR: u32 = 0x4080_0000;

/// The sign bit is clear. True of `+0.0` and of NaNs with a clear sign bit.
pub open spec fn sign_positive(b: u32) -> bool {
    b < SIGN_BIT
}

/// The pattern with its sign bit cleared, as a number.
pub open spec fn magnitude(b: u32) -> int {
    if b < SIGN_BIT {
        b as int
    } else {
        b - SIGN_BIT
    }
}

/// The pattern is a NaN.
pub open spec fn nan(b: u32) -> bool {
    magnitude(b) > INFINITY
}

/// The place of a number that is not a NaN on the number line: patterns of
/// one sign are ordered as their magnitudes are, and both zeros are at 0.
pub open spec fn rank(b: u32) -> int {
    if sign_positive(b) {
        magnitude(b)
    } else {
        -magnitude(b)
    }
}

/// `a == b` as numbers: false as soon as one of them is a NaN, and true of
/// the two zeros.
pub open spec fn eq(a: u32, b: u32) -> bool {
    !nan(a) && !nan(b) && rank(a) == rank(b)
}

/// `a <= b` as numbers: false as soon as one of them is a NaN.
pub open spec fn le(a: u32, b: u32) -> bool {
    !nan(a) && !nan(b) && rank(a) <= rank(b)
}

/// `a > b` as numbers: false as soon as one of them is a NaN.
pub open spec fn gt(a: u32, b: u32) -> bool {
    !nan(a) && !nan(b) && rank(a) > rank(b)
}

/// `m` halved `s` times, rounding down each time.
pub open spec fn halved(m: int, s: nat) -> int
    decreases s,
{
    if s == 0 {
        m
    } else {
        halved(m / 2, (s - 1) as nat)
    }
}

/// `m` doubled `s` times.
pub open spec fn doubled(m: int, s: nat) -> int
    decreases s,
{
    if s == 0 {
        m
    } else {
        doubled(2 * m, (s - 1) as nat)
    }
}

/// The number rounded toward zero, before it is fitted into an integer type.
/// Negative numbers and NaNs give 0. A positive number with exponent field
/// `e` and 24-bit significand `m` is `m * 2^(e - 150)`.
pub open spec fn truncation(b: u32) -> int {
    let e = b / HIDDEN_BIT;
    let m = HIDDEN_BIT + b % HIDDEN_BIT;
    if !sign_positive(b) || nan(b) || e < 127 {
        0
    } else if e >= 150 {
        doubled(m as int, (e - 150) as nat)
    } else {
        halved(m as int, (150 - e) as nat)
    }
}

/// Halving `s` times divides by `2^s`.
pub proof fn lemma_halved_divides(m: int, s: nat)
    requires
        0 <= m,
    ensures
        halved(m, s) == m / (pow2(s) as int),
    decreases s,
{
    if s == 0 {
        lemma2_to64();
    } else {
        lemma_halved_divides(m / 2, (s - 1) as nat);
        lemma_pow2_unfold(s);
        lemma_pow2_pos((s - 1) as nat);
        lemma_div_denominator(m, 2, pow2((s - 1) as nat) as int);
    }
}

/// Doubling `s` times multiplies by `2^s`.
pub proof fn lemma_doubled_multiplies(m: int, s: nat)
    ensures
        doubled(m, s) == m * pow2(s),
    decreases s,
{
    if s == 0 {
        lemma2_to64();
    } else {
        lemma_doubled_multiplies(2 * m, (s - 1) as nat);
        lemma_pow2_unfold(s);
        assert((2 * m) * pow2((s - 1) as nat) == m * (2 * pow2((s - 1) as nat))) by (nonlinear_arith);
    }
}

/// What `as u32` gives: the truncation, at most `u32::MAX`.
pub open spec fn truncation_u32(b: u32) -> int {
    if truncation(b) > u32::MAX {
        u32::MAX as int
    } else {
        truncation(b)
    }
}

/// What `as u8` gives: the truncation, at most 255.
pub open spec fn truncation_u8(b: u32) -> int {
    if truncation(b) > 255 {
        255
    } else {
        truncation(b)
    }
}

/// The sign bit is clear.
pub fn float_is_sign_positive(b: u32) -> (r: bool)
    ensures
        r == sign_positive(b),
{
    b < SIGN_BIT
}

/// The pattern with its sign bit cleared.
pub fn float_abs(b: u32) -> (r: u32)
    ensures
        r == magnitude(b),
{
    if b < SIGN_BIT {
        b
    } else {
        b - SIGN_BIT
    }
}

/// The pattern is a NaN.
pub fn float_is_nan(b: u32) -> (r: bool)
    ensures
        r == nan(b),
{
    float_abs(b) > INFINITY
}

/// `a == b` as numbers.
pub fn float_eq(a: u32, b: u32) -> (r: bool)
    ensures
        r == eq(a, b),
{
    if float_is_nan(a) || float_is_nan(b) {
        return false;
    }
    a == b || (float_abs(a) == 0 && float_abs(b) == 0)
}

/// `a <= b` as numbers.
pub fn float_le(a: u32, b: u32) -> (r: bool)
    ensures
        r == le(a, b),
{
    if float_is_nan(a) || float_is_nan(b) {
        return false;
    }
    let am = float_abs(a);
    let bm = float_abs(b);
    if a < SIGN_BIT {
        if b < SIGN_BIT {
            am <= bm
        } else {
            am == 0 && bm == 0
        }
    } else {
        if b < SIGN_BIT {
            true
        } else {
            bm <= am
        }
    }
}

/// `a > b` as numbers.
pub fn float_gt(a: u32, b: u32) -> (r: bool)
    ensures
        r == gt(a, b),
{
    if float_is_nan(a) || float_is_nan(b) {
        return false;
    }
    !float_le(a, b)
}

/// The saturating, truncating conversion that `as u32` performs.
pub fn float_to_u32(b: u32) -> (r: u32)
    ensures
        r == truncation_u32(b),
{
    if b >= SIGN_BIT || b > INFINITY {
        return 0;
    }
    let e: u32 = b / HIDDEN_BIT;
    let m: u32 = HIDDEN_BIT + b % HIDDEN_BIT;
    if e < 127 {
        0
    } else if e >= 159 {
        proof {
            lemma_doubled_multiplies(m as int, (e - 150) as nat);
            lemma_pow2_grows(9, (e - 150) as nat);
            lemma2_to64();
            assert(m * pow2((e - 150) as nat) > u32::MAX) by (nonlinear_arith)
                requires
                    m >= 0x80_0000,
                    pow2((e - 150) as nat) >= 512,
            ;
        }
        u32::MAX
    } else if e >= 150 {
        let shift: u32 = e - 150;
        proof {
            lemma_doubled_multiplies(m as int, shift as nat);
            lemma2_to64();
            assert(m * pow2(shift as nat) <= u32::MAX) by (nonlinear_arith)
                requires
                    m < 0x100_0000,
                    pow2(shift as nat) <= 256,
            ;
            lemma_u32_shl_is_mul(m, shift);
        }
        m << shift
    } else {
        let shift: u32 = 150 - e;
        proof {
            lemma_halved_divides(m as int, shift as nat);
            lemma_u32_shr_is_div(m, shift);
        }
        m >> shift
    }
}

/// The saturating, truncating conversion that `as u8` performs.
pub fn float_to_u8(b: u32) -> (r: u8)
    ensures
        r == truncation_u8(b),
{
    let t = float_to_u32(b);
    if t > 255 {
        255
    } else {
        t as u8
    }
}

/// The sum of two numbers, rounded to nearest with ties to even, as
/// `rustc_apfloat` computes it.
pub uninterp spec fn sum(a: u32, b: u32) -> u32;

/// The difference of two numbers, rounded to nearest with ties to even, as
/// `rustc_apfloat` computes it.
pub uninterp spec fn difference(a: u32, b: u32) -> u32;

/// The product of two numbers, rounded to nearest with ties to even, as
/// `rustc_apfloat` computes it.
pub uninterp spec fn product(a: u32, b: u32) -> u32;

/// The quotient of two numbers, rounded to nearest with ties to even, as
/// `rustc_apfloat` computes it.
pub uninterp spec fn quotient(a: u32, b: u32) -> u32;

/// The number that `rustc_apfloat` rounds an integer to, to nearest with
/// ties to even.
pub uninterp spec fn from_integer(n: u64) -> u32;

/// The square root that `softfloat::F32::sqrt` computes.
pub uninterp spec fn square_root(a: u32) -> u32;

/// The sine that `softfloat::F32::sin` computes of an angle in radians.
pub uninterp spec fn sine(a: u32) -> u32;

/// The cosine that `softfloat::F32::cos` computes of an angle in radians.
pub uninterp spec fn cosine(a: u32) -> u32;

/// Calls `add_r` of `rustc_apfloat::ieee::Single` with rounding to nearest,
/// ties to even. Trusted: the call returns for every pair of patterns, and
/// its result is a function of the two operands alone.
#[verifier::external_body]
pub(crate) fn float_add(a: u32, b: u32) -> (r: u32)
    ensures
        r == sum(a, b),
{
    let x = Single::from_bits(a as u128);
    let y = Single::from_bits(b as u128);
    x.add_r(y, Round::NearestTiesToEven).value.to_bits() as u32
}

/// Calls `sub_r` of `rustc_apfloat::ieee::Single` with rounding to nearest,
/// ties to even. Trusted: the call returns for every pair of patterns, and
/// its result is a function of the two operands alone.
#[verifier::external_body]
pub(crate) fn float_sub(a: u32, b: u32) -> (r: u32)
    ensures
        r == difference(a, b),
{
    let x = Single::from_bits(a as u128);
    let y = Single::from_bits(b as u128);
    x.sub_r(y, Round::NearestTiesToEven).value.to_bits() as u32
}

/// Calls `mul_r` of `rustc_apfloat::ieee::Single` with rounding to nearest,
/// ties to even. Trusted: the call returns for every pair of patterns, and
/// its result is a function of the two operands alone.
#[verifier::external_body]
pub(crate) fn float_mul(a: u32, b: u32) -> (r: u32)
    ensures
        r == product(a, b),
{
    let x = Single::from_bits(a as u128);
    let y = Single::from_bits(b as u128);
    x.mul_r(y, Round::NearestTiesToEven).value.to_bits() as u32
}

/// Calls `div_r` of `rustc_apfloat::ieee::Single` with rounding to nearest,
/// ties to even; a zero divisor gives an infinity or a NaN. Trusted: the call
/// returns for every pair of patterns, and its result is a function of the
/// two operands alone.
#[verifier::external_body]
pub(crate) fn float_div(a: u32, b: u32) -> (r: u32)
    ensures
        r == quotient(a, b),
{
    let x = Single::from_bits(a as u128);
    let y = Single::from_bits(b as u128);
    x.div_r(y, Round::NearestTiesToEven).value.to_bits() as u32
}

/// Calls `from_u128_r` of `rustc_apfloat::ieee::Single` with rounding to
/// nearest, ties to even. Trusted: the call returns for every integer, and
/// its result is a function of the integer alone.
#[verifier::external_body]
pub(crate) fn float_from_u64(n: u64) -> (r: u32)
    ensures
        r == from_integer(n),
{
    Single::from_u128_r(n as u128, Round::NearestTiesToEven).value.to_bits() as u32
}

/// Calls `softfloat::F32::sqrt`, which works on the bits in integer
/// arithmetic and gives a NaN for a negative operand. Trusted: the call
/// returns for every pattern, and its result is a function of the operand
/// alone.
#[verifier::external_body]
pub(crate) fn float_sqrt(a: u32) -> (r: u32)
    ensures
        r == square_root(a),
{
    softfloat::F32::from_bits(a).sqrt().to_bits()
}

/// Calls `softfloat::F32::sin`. Trusted: the call returns for every pattern,
/// and its result is a function of the operand alone.
#[verifier::external_body]
pub(crate) fn float_sin(a: u32) -> (r: u32)
    ensures
        r == sine(a),
{
    softfloat::F32::from_bits(a).sin().to_bits()
}

/// Calls `softfloat::F32::cos`. Trusted: the call returns for every pattern,
/// and its result is a function of the operand alone.
#[verifier::external_body]
pub(crate) fn float_cos(a: u32) -> (r: u32)
    ensures
        r == cosine(a),
{
    softfloat::F32::from_bits(a).cos().to_bits()
}

proof fn lemma_pow2_grows(a: nat, b: nat)
    requires
        a <= b,
    ensures
        pow2(a) <= pow2(b),
{
    if a < b {
        lemma_pow2_strictly_increases(a, b);
    }
}

} // verus!
