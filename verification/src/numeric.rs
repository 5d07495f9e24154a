//! The numeric kernel.
//!
//! A floating-point value is carried everywhere as its IEEE 754 binary64 bit
//! pattern (`u64`).  Purely structural operations (negation, absolute value,
//! ordering, truncation, the "fractional part is zero" test that drives
//! demotion, and conversion to `i64`) are ordinary integer logic and are
//! verified.  The arithmetic that genuinely needs floating point (add, sub,
//! mul, div, rem, conversions from integers and decimal strings, rendering,
//! and exponentiation) is delegated to software floating-point crates behind
//! trusted wrappers whose results are named by uninterpreted spec functions:
//! each is a deterministic function of its arguments alone.

use astro_float::{BigFloat, Consts, RoundingMode, Sign};
use rustc_apfloat::Float;
use vstd::prelude::*;

verus! {

/// Mask of the sign bit of a binary64 pattern.
pub const SIGN_MASK: u64 = 0x8000_0000_0000_0000;

/// Mask of everything but the sign bit.
pub const MAG_MASK: u64 = 0x7FFF_FFFF_FFFF_FFFF;

/// Mask of the 52 fraction bits.
pub const FRAC_MASK: u64 = 0x000F_FFFF_FFFF_FFFF;

/// The implicit leading significand bit of a normal number.
pub const IMPLICIT_BIT: u64 = 0x0010_0000_0000_0000;

/// Bit pattern of `1.0`.
pub const ONE_BITS: u64 = 0x3FF0_0000_0000_0000;

/// Bit pattern of positive infinity.
pub const INF_BITS: u64 = 0x7FF0_0000_0000_0000;

/// Bit pattern of a quiet NaN.
pub const QNAN_BITS: u64 = 0x7FF8_0000_0000_0000;

/// Bit pattern of `-1.0`.
pub const NEG_ONE_BITS: u64 = 0xBFF0_0000_0000_0000;

/// Bit pattern of `3.14`, the built-in binding of `pi`.
pub const PI_BITS: u64 = 0x4009_1EB8_51EB_851F;

/// Bit pattern of the absolute tolerance used for float equality: the
/// machine epsilon of binary64 (the gap between one and the next float).
pub const EPSILON_BITS: u64 = 0x3CB0_0000_0000_0000;

/// The biased exponent field (11 bits).
pub open spec fn exp_of(b: u64) -> u64 {
    (b >> 52) & 0x7FF
}

/// The 52-bit fraction field.
pub open spec fn frac_of(b: u64) -> u64 {
    b & FRAC_MASK
}

/// Whether the sign bit is set.
pub open spec fn sign_of(b: u64) -> bool {
    b & SIGN_MASK != 0
}

pub open spec fn is_nan_bits(b: u64) -> bool {
    exp_of(b) == 0x7FF && frac_of(b) != 0
}

pub open spec fn is_inf_bits(b: u64) -> bool {
    exp_of(b) == 0x7FF && frac_of(b) == 0
}

/// Whether the pattern encodes `+0.0` or `-0.0`.
pub open spec fn is_zero_bits(b: u64) -> bool {
    b & MAG_MASK == 0
}

/// The pattern of the value with the fractional part discarded
/// (truncation toward zero).  Infinities and NaNs are returned unchanged.
pub open spec fn trunc_bits(b: u64) -> u64 {
    let e = exp_of(b);
    if e >= 1075 {
        b  // |value| >= 2^52 (already integral), infinity, or NaN
    } else if e < 1023 {
        b & SIGN_MASK  // |value| < 1 truncates to a signed zero
    } else {
        let low: u64 = ((1u64 << ((1075 - e) as u64)) - 1) as u64;
        b & !low
    }
}

/// Whether the value is finite with fractional part exactly zero.
/// This is the test that decides demotion of a float result to an integer.
pub open spec fn fract_is_zero(b: u64) -> bool {
    exp_of(b) != 0x7FF && trunc_bits(b) == b
}

/// The IEEE 754 negation: the sign bit is flipped.
pub open spec fn neg_bits(b: u64) -> u64 {
    b ^ SIGN_MASK
}

/// The IEEE 754 absolute value: the sign bit is cleared.
pub open spec fn abs_bits(b: u64) -> u64 {
    b & MAG_MASK
}

/// Conversion of the value to `i64` with Rust's `as`-cast semantics:
/// truncation toward zero, saturation at the ends of the range, NaN to 0.
pub open spec fn trunc_to_i64(b: u64) -> i64 {
    let e = exp_of(b);
    let neg = sign_of(b);
    if e == 0x7FF {
        if frac_of(b) != 0 {
            0  // NaN
        } else if neg {
            i64::MIN
        } else {
            i64::MAX
        }
    } else if e < 1023 {
        0  // |value| < 1
    } else if e >= 1086 {
        // |value| >= 2^63
        if neg {
            i64::MIN
        } else {
            i64::MAX
        }
    } else {
        let m: u64 = (frac_of(b) | IMPLICIT_BIT) as u64;
        let mag: u64 = if e >= 1075 {
            (m << ((e - 1075) as u64)) as u64
        } else {
            (m >> ((1075 - e) as u64)) as u64
        };
        if neg {
            (-(mag as i64)) as i64
        } else {
            mag as i64
        }
    }
}

/// Executable truncation toward zero; see `trunc_bits`.
pub fn trunc_of(b: u64) -> (r: u64)
    ensures
        r == trunc_bits(b),
{
    let e: u64 = (b >> 52) & 0x7FF;
    if e >= 1075 {
        b
    } else if e < 1023 {
        b & SIGN_MASK
    } else {
        let sh: u64 = 1075 - e;
        proof {
            assert((1u64 << sh) >= 1) by (bit_vector)
                requires
                    sh <= 52,
            ;
        }
        let low: u64 = (1u64 << sh) - 1;
        b & !low
    }
}

/// Executable demotion test; see `fract_is_zero`.
pub fn fract_zero_of(b: u64) -> (r: bool)
    ensures
        r == fract_is_zero(b),
{
    let e: u64 = (b >> 52) & 0x7FF;
    e != 0x7FF && trunc_of(b) == b
}

/// Executable `i64` conversion; see `trunc_to_i64`.
pub fn trunc_to_i64_of(b: u64) -> (r: i64)
    ensures
        r == trunc_to_i64(b),
{
    let e: u64 = (b >> 52) & 0x7FF;
    let neg: bool = b & SIGN_MASK != 0;
    if e == 0x7FF {
        if b & FRAC_MASK != 0 {
            0
        } else if neg {
            i64::MIN
        } else {
            i64::MAX
        }
    } else if e < 1023 {
        0
    } else if e >= 1086 {
        if neg {
            i64::MIN
        } else {
            i64::MAX
        }
    } else {
        let m: u64 = (b & FRAC_MASK) | IMPLICIT_BIT;
        let mag: u64 = if e >= 1075 {
            proof {
                assert(m < 0x20_0000_0000_0000 && e - 1075 < 11 ==> (m << (e - 1075) as u64)
                    < 0x8000_0000_0000_0000) by (bit_vector);
                assert(m < 0x20_0000_0000_0000) by (bit_vector)
                    requires
                        m == (b & FRAC_MASK) | IMPLICIT_BIT,
                ;
            }
            m << (e - 1075)
        } else {
            m >> (1075 - e)
        };
        proof {
            assert(mag < 0x8000_0000_0000_0000) by (bit_vector)
                requires
                    mag == if e >= 1075 {
                        (((b & FRAC_MASK) | IMPLICIT_BIT) << (e - 1075) as u64) as u64
                    } else {
                        (((b & FRAC_MASK) | IMPLICIT_BIT) >> (1075 - e) as u64) as u64
                    },
                    1023 <= e < 1086,
            ;
        }
        if neg {
            -(mag as i64)
        } else {
            mag as i64
        }
    }
}

/// Executable IEEE absolute value; see `abs_bits`.
pub fn abs_of(b: u64) -> (r: u64)
    ensures
        r == abs_bits(b),
{
    b & MAG_MASK
}

/// Whether the value of the first bit pattern is strictly below the value
/// of the second in the IEEE 754 partial order: NaN compares with nothing,
/// the two zeros are equal, non-negative patterns order ascending and
/// negative patterns descending.
pub open spec fn fp_lt(a: u64, b: u64) -> bool {
    if is_nan_bits(a) || is_nan_bits(b) {
        false
    } else if is_zero_bits(a) && is_zero_bits(b) {
        false
    } else if sign_of(a) != sign_of(b) {
        sign_of(a)
    } else if sign_of(a) {
        b < a
    } else {
        a < b
    }
}

/// Executable IEEE ordering; see `fp_lt`.
pub(crate) fn lt_bits(a: u64, b: u64) -> (r: bool)
    ensures
        r == fp_lt(a, b),
{
    let a_exp: u64 = (a >> 52) & 0x7FF;
    let b_exp: u64 = (b >> 52) & 0x7FF;
    if (a_exp == 0x7FF && a & FRAC_MASK != 0) || (b_exp == 0x7FF && b & FRAC_MASK != 0) {
        false
    } else if a & MAG_MASK == 0 && b & MAG_MASK == 0 {
        false
    } else if (a & SIGN_MASK != 0) != (b & SIGN_MASK != 0) {
        a & SIGN_MASK != 0
    } else if a & SIGN_MASK != 0 {
        b < a
    } else {
        a < b
    }
}

// ------------------------------------------------------------------
// Trusted wrappers.  Each relies on a deterministic software
// floating-point routine of an outside crate; the uninterpreted spec
// function beside it names the routine's result.
// ------------------------------------------------------------------

/// Bit pattern of the IEEE 754 binary64 sum of two bit patterns.
pub uninterp spec fn fp_add(a: u64, b: u64) -> u64;

/// Relies on `rustc_apfloat::ieee::Double` addition (`+`): IEEE 754 binary64
/// addition, rounded to nearest even, a function of the bit patterns alone.
#[verifier::external_body]
pub(crate) fn add_bits(a: u64, b: u64) -> (r: u64)
    ensures
        r == fp_add(a, b),
{
    let x = rustc_apfloat::ieee::Double::from_bits(a as u128);
    let y = rustc_apfloat::ieee::Double::from_bits(b as u128);
    (x + y).value.to_bits() as u64
}

/// Bit pattern of the IEEE 754 binary64 difference of two bit patterns.
pub uninterp spec fn fp_sub(a: u64, b: u64) -> u64;

/// Relies on `rustc_apfloat::ieee::Double` subtraction (`-`): IEEE 754
/// binary64 subtraction, rounded to nearest even.
#[verifier::external_body]
pub(crate) fn sub_bits(a: u64, b: u64) -> (r: u64)
    ensures
        r == fp_sub(a, b),
{
    let x = rustc_apfloat::ieee::Double::from_bits(a as u128);
    let y = rustc_apfloat::ieee::Double::from_bits(b as u128);
    (x - y).value.to_bits() as u64
}

/// Bit pattern of the IEEE 754 binary64 product of two bit patterns.
pub uninterp spec fn fp_mul(a: u64, b: u64) -> u64;

/// Relies on `rustc_apfloat::ieee::Double` multiplication (`*`): IEEE 754
/// binary64 multiplication, rounded to nearest even.
#[verifier::external_body]
pub(crate) fn mul_bits(a: u64, b: u64) -> (r: u64)
    ensures
        r == fp_mul(a, b),
{
    let x = rustc_apfloat::ieee::Double::from_bits(a as u128);
    let y = rustc_apfloat::ieee::Double::from_bits(b as u128);
    (x * y).value.to_bits() as u64
}

/// Bit pattern of the IEEE 754 binary64 quotient of two bit patterns.
pub uninterp spec fn fp_div(a: u64, b: u64) -> u64;

/// Relies on `rustc_apfloat::ieee::Double` division (`/`): IEEE 754 binary64
/// division, rounded to nearest even.
#[verifier::external_body]
pub(crate) fn div_bits(a: u64, b: u64) -> (r: u64)
    ensures
        r == fp_div(a, b),
{
    let x = rustc_apfloat::ieee::Double::from_bits(a as u128);
    let y = rustc_apfloat::ieee::Double::from_bits(b as u128);
    (x / y).value.to_bits() as u64
}

/// Bit pattern of the IEEE 754 binary64 remainder (`fmod`, the semantics of
/// Rust's `%` on floats) of two bit patterns.
pub uninterp spec fn fp_rem(a: u64, b: u64) -> u64;

/// Relies on `rustc_apfloat::ieee::Double` remainder (`%`, i.e. `c_fmod`):
/// the remainder with the sign of the dividend, exact.
#[verifier::external_body]
pub(crate) fn rem_bits(a: u64, b: u64) -> (r: u64)
    ensures
        r == fp_rem(a, b),
{
    let x = rustc_apfloat::ieee::Double::from_bits(a as u128);
    let y = rustc_apfloat::ieee::Double::from_bits(b as u128);
    (x % y).value.to_bits() as u64
}

/// Bit pattern of the binary64 nearest to an `i64` (round to nearest even).
pub uninterp spec fn fp_of_int(i: i64) -> u64;

/// Relies on `rustc_apfloat::ieee::Double::from_i128`: conversion of an
/// integer to the nearest binary64, round to nearest even.
#[verifier::external_body]
pub(crate) fn bits_of_int(i: i64) -> (r: u64)
    ensures
        r == fp_of_int(i),
{
    rustc_apfloat::ieee::Double::from_i128(i as i128).value.to_bits() as u64
}

/// Whether a character sequence has the shape the lexer builds for a decimal
/// float literal: digits with exactly one dot, starting with a digit.
pub open spec fn is_simple_decimal(s: Seq<char>) -> bool {
    &&& s.len() > 0
    &&& '0' <= s[0] <= '9'
    &&& forall|i: int| 0 <= i < s.len() ==> ('0' <= s[i] <= '9' || s[i] == '.')
    &&& exists|i: int| 0 <= i < s.len() && s[i] == '.'
    &&& forall|i: int, j: int| 0 <= i < j < s.len() && s[i] == '.' ==> s[j] != '.'
}

/// Bit pattern of the binary64 nearest to the decimal number written in the
/// sequence (round to nearest even).
pub uninterp spec fn fp_of_decimal(s: Seq<char>) -> u64;

/// Relies on `rustc_apfloat::ieee::Double::from_str`: correctly rounded
/// conversion from a decimal string, which accepts `digits [. digits]` and
/// cannot fail on the shapes admitted here.
#[verifier::external_body]
pub(crate) fn bits_of_decimal(s: &str) -> (r: u64)
    requires
        is_simple_decimal(s@),
    ensures
        r == fp_of_decimal(s@),
{
    let d: rustc_apfloat::ieee::Double = s.parse().unwrap();
    d.to_bits() as u64
}

/// The character sequence `rustc_apfloat` renders for a bit pattern.
pub uninterp spec fn fp_display(b: u64) -> Seq<char>;

/// Relies on `rustc_apfloat::ieee::Double`'s `Display`: a decimal rendering
/// of the value, a function of the bit pattern alone.
#[verifier::external_body]
pub(crate) fn display_bits(b: u64) -> (r: String)
    ensures
        r@ == fp_display(b),
{
    format!("{}", rustc_apfloat::ieee::Double::from_bits(b as u128))
}

// ------------------------------------------------------------------
// Exponentiation.  The special cases of IEEE 754 `pow` are decided by
// verified integer logic; only the positive finite core is delegated
// to a software floating-point crate.
// ------------------------------------------------------------------

/// The result of the software pow call, as plain parts.
/// `Num { mant, exp }` stands for the positive value `mant * 2^(exp - 64)`
/// (the mantissa word read as a binary fraction); `mant == 0` stands for
/// zero after underflow.
#[derive(Debug, Clone, Copy, PartialEq, Eq, Structural)]
pub enum SoftNum {
    Num { mant: u64, exp: i64 },
    Inf,
    Nan,
}

/// The parts `astro_float` computes for `base ^ expo`, where the base is the
/// positive value `bm * 2^(be - 64)` and the exponent is `em * 2^(ee - 64)`,
/// negated when `eneg` is set.
pub uninterp spec fn astro_pow(bm: u64, be: i64, em: u64, ee: i64, eneg: bool) -> SoftNum;

/// Relies on `astro_float::BigFloat::pow` at precision 64, round to even:
/// a deterministic software floating-point exponentiation.
#[verifier::external_body]
fn pow_soft(bm: u64, be: i64, em: u64, ee: i64, eneg: bool) -> (r: SoftNum)
    ensures
        r == astro_pow(bm, be, em, ee, eneg),
{
    let base = BigFloat::from_words(&[bm], Sign::Pos, be as i32);
    let es = if eneg { Sign::Neg } else { Sign::Pos };
    let expo = BigFloat::from_words(&[em], es, ee as i32);
    let mut cc = Consts::new().expect("constants cache");
    let r = base.pow(&expo, 64, RoundingMode::ToEven, &mut cc);
    if r.is_inf() {
        SoftNum::Inf
    } else {
        match r.as_raw_parts() {
            Some((w, _n, _s, e, _inexact)) => SoftNum::Num { mant: w[0], exp: e as i64 },
            None => SoftNum::Nan,
        }
    }
}

/// The software-float parts of a finite nonzero pattern's magnitude:
/// a mantissa word `m` and an exponent `e` with magnitude `m * 2^(e - 64)`.
pub open spec fn soft_parts_mant(b: u64) -> u64 {
    if exp_of(b) == 0 {
        frac_of(b)
    } else {
        frac_of(b) | IMPLICIT_BIT
    }
}

pub open spec fn soft_parts_exp(b: u64) -> i64 {
    if exp_of(b) == 0 {
        -1010i64
    } else {
        (exp_of(b) - 1011) as i64
    }
}

/// Rounding of a software result in the normal binary64 range
/// (round to nearest, ties to even, from a 64-bit mantissa to 53 bits).
pub open spec fn round_normal(mant: u64, ebin: int) -> u64 {
    let sig: u64 = mant >> 11;
    let rest: u64 = mant & 0x7FF;
    let sig2: u64 = if rest > 0x400 || (rest == 0x400 && sig & 1 == 1) {
        (sig + 1) as u64
    } else {
        sig
    };
    if sig2 == 0x20_0000_0000_0000 {
        if ebin + 1 > 1023 {
            INF_BITS
        } else {
            ((ebin + 1 + 1023) as u64) << 52
        }
    } else {
        (((ebin + 1023) as u64) << 52) | (sig2 & FRAC_MASK)
    }
}

/// Rounding of a software result below the normal binary64 range into a
/// subnormal pattern (or zero), round to nearest, ties to even.
pub open spec fn round_subnormal(mant: u64, ebin: int) -> u64 {
    let sh: int = 11 + (-1022 - ebin);
    if sh > 64 {
        0u64
    } else if sh == 64 {
        if mant > SIGN_MASK {
            1u64
        } else {
            0u64
        }
    } else {
        let shu: u64 = sh as u64;
        let sig: u64 = mant >> shu;
        let rest: u64 = mant & (((1u64 << shu) - 1) as u64);
        let half: u64 = 1u64 << ((shu - 1) as u64);
        if rest > half || (rest == half && sig & 1 == 1) {
            (sig + 1) as u64
        } else {
            sig
        }
    }
}

/// The binary64 pattern encoding a software result (always positive).
pub open spec fn assemble_bits(sn: SoftNum) -> u64 {
    match sn {
        SoftNum::Nan => QNAN_BITS,
        SoftNum::Inf => INF_BITS,
        SoftNum::Num { mant, exp } => {
            if mant == 0 {
                0u64
            } else {
                let ebin: int = exp - 1;
                if ebin > 1023 {
                    INF_BITS
                } else if ebin >= -1022 {
                    round_normal(mant, ebin)
                } else {
                    round_subnormal(mant, ebin)
                }
            }
        },
    }
}

/// Whether the pattern's value is an odd integer.
pub open spec fn is_odd_int_bits(b: u64) -> bool {
    let e = exp_of(b);
    1023 <= e <= 1075 && ((frac_of(b) | IMPLICIT_BIT) >> ((1075 - e) as u64)) & 1 == 1
}

/// The exponentiation behind `^`: the special cases of IEEE 754 `pow`
/// (decided here, in integer logic), with the positive finite core
/// delegated to the software pow and rounded back to binary64.
pub open spec fn fp_pow(a: u64, b: u64) -> u64 {
    if is_zero_bits(b) {
        ONE_BITS  // anything to the power zero is one
    } else if a == ONE_BITS {
        ONE_BITS  // one to any power is one
    } else if is_nan_bits(a) || is_nan_bits(b) {
        QNAN_BITS
    } else if is_inf_bits(b) {
        if abs_bits(a) == ONE_BITS {
            ONE_BITS
        } else if (abs_bits(a) > ONE_BITS) == !sign_of(b) {
            INF_BITS
        } else {
            0u64
        }
    } else if is_inf_bits(a) {
        if sign_of(a) {
            if !sign_of(b) {
                if is_odd_int_bits(b) {
                    neg_bits(INF_BITS)
                } else {
                    INF_BITS
                }
            } else {
                if is_odd_int_bits(b) {
                    SIGN_MASK
                } else {
                    0u64
                }
            }
        } else {
            if !sign_of(b) {
                INF_BITS
            } else {
                0u64
            }
        }
    } else if is_zero_bits(a) {
        let oddneg = sign_of(a) && is_odd_int_bits(b);
        if !sign_of(b) {
            if oddneg {
                SIGN_MASK
            } else {
                0u64
            }
        } else {
            if oddneg {
                neg_bits(INF_BITS)
            } else {
                INF_BITS
            }
        }
    } else if sign_of(a) {
        if !fract_is_zero(b) {
            QNAN_BITS  // negative base with a non-integer exponent
        } else {
            let core = pow_core(abs_bits(a), b);
            if is_odd_int_bits(b) {
                neg_bits(core)
            } else {
                core
            }
        }
    } else {
        pow_core(a, b)
    }
}

/// The positive finite core of `fp_pow`: `a ^ b` for positive finite
/// nonzero `a` and finite nonzero `b`.
pub open spec fn pow_core(a: u64, b: u64) -> u64 {
    assemble_bits(
        astro_pow(
            soft_parts_mant(a),
            soft_parts_exp(a),
            soft_parts_mant(abs_bits(b)),
            soft_parts_exp(abs_bits(b)),
            sign_of(b),
        ),
    )
}

/// Executable encoding of a software result; see `assemble_bits`.
fn assemble_of(sn: SoftNum) -> (r: u64)
    ensures
        r == assemble_bits(sn),
{
    match sn {
        SoftNum::Nan => QNAN_BITS,
        SoftNum::Inf => INF_BITS,
        SoftNum::Num { mant, exp } => {
            if mant == 0 {
                0u64
            } else if exp > 1024 {
                INF_BITS
            } else if exp >= -1021 {
                let ebin: i64 = exp - 1;
                let sig: u64 = mant >> 11u64;
                let rest: u64 = mant & 0x7FF;
                proof {
                    assert((mant >> 11u64) <= (0xFFFF_FFFF_FFFF_FFFFu64 >> 11u64)) by (bit_vector);
                    assert((0xFFFF_FFFF_FFFF_FFFFu64 >> 11u64) == 0x1F_FFFF_FFFF_FFFF) by (bit_vector);
                }
                let sig2: u64 = if rest > 0x400 || (rest == 0x400 && sig & 1 == 1) {
                    sig + 1
                } else {
                    sig
                };
                if sig2 == 0x20_0000_0000_0000 {
                    if ebin + 1 > 1023 {
                        INF_BITS
                    } else {
                        ((ebin + 1 + 1023) as u64) << 52u64
                    }
                } else {
                    (((ebin + 1023) as u64) << 52u64) | (sig2 & FRAC_MASK)
                }
            } else {
                if exp < -1074 {
                    0u64
                } else if exp == -1074 {
                    if mant > SIGN_MASK {
                        1u64
                    } else {
                        0u64
                    }
                } else {
                    let shu: u64 = (-1010 - exp) as u64;
                    proof {
                        assert((1u64 << shu) >= 1 && (1u64 << shu) <= 0x8000_0000_0000_0000)
                            by (bit_vector)
                            requires
                                shu < 64,
                        ;
                        assert((mant >> shu) < 0xFFFF_FFFF_FFFF_FFFF) by (bit_vector)
                            requires
                                12 <= shu < 64,
                        ;
                    }
                    let sig: u64 = mant >> shu;
                    let rest: u64 = mant & ((1u64 << shu) - 1);
                    let half: u64 = 1u64 << (shu - 1);
                    if rest > half || (rest == half && sig & 1 == 1) {
                        sig + 1
                    } else {
                        sig
                    }
                }
            }
        },
    }
}

/// Executable test for an odd integer value; see `is_odd_int_bits`.
fn is_odd_int_of(b: u64) -> (r: bool)
    ensures
        r == is_odd_int_bits(b),
{
    let e: u64 = (b >> 52) & 0x7FF;
    1023 <= e && e <= 1075 && (((b & FRAC_MASK) | IMPLICIT_BIT) >> (1075 - e)) & 1 == 1
}

/// Executable exponentiation; see `fp_pow`.
pub fn pow_bits(a: u64, b: u64) -> (r: u64)
    ensures
        r == fp_pow(a, b),
{
    let b_zero: bool = b & MAG_MASK == 0;
    let a_exp: u64 = (a >> 52) & 0x7FF;
    let b_exp: u64 = (b >> 52) & 0x7FF;
    if b_zero {
        ONE_BITS
    } else if a == ONE_BITS {
        ONE_BITS
    } else if (a_exp == 0x7FF && a & FRAC_MASK != 0) || (b_exp == 0x7FF && b & FRAC_MASK != 0) {
        QNAN_BITS
    } else if b_exp == 0x7FF {
        let a_abs: u64 = a & MAG_MASK;
        if a_abs == ONE_BITS {
            ONE_BITS
        } else if (a_abs > ONE_BITS) == (b & SIGN_MASK == 0) {
            INF_BITS
        } else {
            0u64
        }
    } else if a_exp == 0x7FF {
        if a & SIGN_MASK != 0 {
            if b & SIGN_MASK == 0 {
                if is_odd_int_of(b) {
                    INF_BITS ^ SIGN_MASK
                } else {
                    INF_BITS
                }
            } else {
                if is_odd_int_of(b) {
                    SIGN_MASK
                } else {
                    0u64
                }
            }
        } else {
            if b & SIGN_MASK == 0 {
                INF_BITS
            } else {
                0u64
            }
        }
    } else if a & MAG_MASK == 0 {
        let oddneg: bool = a & SIGN_MASK != 0 && is_odd_int_of(b);
        if b & SIGN_MASK == 0 {
            if oddneg {
                SIGN_MASK
            } else {
                0u64
            }
        } else {
            if oddneg {
                INF_BITS ^ SIGN_MASK
            } else {
                INF_BITS
            }
        }
    } else if a & SIGN_MASK != 0 {
        if !fract_zero_of(b) {
            QNAN_BITS
        } else {
            let core = pow_core_of(a & MAG_MASK, b);
            if is_odd_int_of(b) {
                core ^ SIGN_MASK
            } else {
                core
            }
        }
    } else {
        pow_core_of(a, b)
    }
}

/// Executable positive finite core; see `pow_core`.
fn pow_core_of(a: u64, b: u64) -> (r: u64)
    ensures
        r == pow_core(a, b),
{
    let b_abs: u64 = b & MAG_MASK;
    let a_exp: u64 = (a >> 52) & 0x7FF;
    let b_exp: u64 = (b_abs >> 52) & 0x7FF;
    proof {
        assert(((a >> 52) & 0x7FF) <= 0x7FF) by (bit_vector);
        assert((((b & 0x7FFF_FFFF_FFFF_FFFF) >> 52) & 0x7FF) <= 0x7FF) by (bit_vector);
    }
    let bm: u64 = if a_exp == 0 {
        a & FRAC_MASK
    } else {
        (a & FRAC_MASK) | IMPLICIT_BIT
    };
    let be: i64 = if a_exp == 0 {
        -1010i64
    } else {
        (a_exp as i64) - 1011
    };
    let em: u64 = if b_exp == 0 {
        b_abs & FRAC_MASK
    } else {
        (b_abs & FRAC_MASK) | IMPLICIT_BIT
    };
    let ee: i64 = if b_exp == 0 {
        -1010i64
    } else {
        (b_exp as i64) - 1011
    };
    let sn = pow_soft(bm, be, em, ee, b & SIGN_MASK != 0);
    assemble_of(sn)
}

} // verus!
