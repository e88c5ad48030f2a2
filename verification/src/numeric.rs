//! Double-precision arithmetic over 64-bit representations.
//!
//! Every value of the calculator is an IEEE-754 double, carried as its bit
//! pattern in a `u64` so that the rest of the crate can reason about it.
//! Sign manipulation (negation, absolute value) and classification are plain
//! bit operations and are implemented and verified here.  Rounding
//! arithmetic is delegated to `rustc_apfloat`, a pure-integer IEEE-754
//! implementation, behind trusted wrappers whose results are named by
//! uninterpreted spec functions; the power function is delegated to
//! `astro-float` in the same way.

use vstd::prelude::*;
use rustc_apfloat::Float;
use rustc_apfloat::Round;
use rustc_apfloat::ieee::Double;
use astro_float::BigFloat;
use astro_float::Consts;
use astro_float::RoundingMode;
use astro_float::Sign;

verus! {

/// Mask of the sign bit of a double.
pub const F64_SIGN_MASK: u64 = 0x8000_0000_0000_0000;

/// Mask of the exponent and significand bits of a double.
pub const F64_ABS_MASK: u64 = 0x7FFF_FFFF_FFFF_FFFF;

/// A double is zero (of either sign) exactly when all bits but the sign bit
/// are clear.
pub open spec fn is_zero_bits(b: u64) -> bool {
    b & F64_ABS_MASK == 0
}

/// Negating a double flips its sign bit.
pub open spec fn neg_bits_of(b: u64) -> u64 {
    b ^ F64_SIGN_MASK
}

/// The absolute value of a double clears its sign bit.
pub open spec fn abs_bits_of(b: u64) -> u64 {
    b & F64_ABS_MASK
}

/// IEEE-754 negation: flip the sign bit.
pub fn neg_bits(b: u64) -> (r: u64)
    ensures
        r == neg_bits_of(b),
{
    b ^ F64_SIGN_MASK
}

/// IEEE-754 absolute value: clear the sign bit.
pub fn abs_bits(b: u64) -> (r: u64)
    ensures
        r == abs_bits_of(b),
{
    b & F64_ABS_MASK
}

/// Whether the double with representation `b` compares equal to zero.
pub fn is_zero(b: u64) -> (r: bool)
    ensures
        r == is_zero_bits(b),
{
    b & F64_ABS_MASK == 0
}

pub uninterp spec fn add_of(a: u64, b: u64) -> u64;

pub uninterp spec fn sub_of(a: u64, b: u64) -> u64;

pub uninterp spec fn mul_of(a: u64, b: u64) -> u64;

pub uninterp spec fn div_of(a: u64, b: u64) -> u64;

pub uninterp spec fn fmod_of(a: u64, b: u64) -> u64;

/// Relies on `rustc_apfloat::ieee::Double::add_r`: IEEE-754 addition,
/// rounded to nearest with ties to even, on the 64-bit representations.
#[verifier::external_body]
pub(crate) fn add_bits(a: u64, b: u64) -> (r: u64)
    ensures
        r == add_of(a, b),
{
    let x = Double::from_bits(a as u128);
    let y = Double::from_bits(b as u128);
    x.add_r(y, Round::NearestTiesToEven).value.to_bits() as u64
}

/// Relies on `rustc_apfloat::ieee::Double::sub_r`: IEEE-754 subtraction,
/// rounded to nearest with ties to even, on the 64-bit representations.
#[verifier::external_body]
pub(crate) fn sub_bits(a: u64, b: u64) -> (r: u64)
    ensures
        r == sub_of(a, b),
{
    let x = Double::from_bits(a as u128);
    let y = Double::from_bits(b as u128);
    x.sub_r(y, Round::NearestTiesToEven).value.to_bits() as u64
}

/// Relies on `rustc_apfloat::ieee::Double::mul_r`: IEEE-754 multiplication,
/// rounded to nearest with ties to even, on the 64-bit representations.
#[verifier::external_body]
pub(crate) fn mul_bits(a: u64, b: u64) -> (r: u64)
    ensures
        r == mul_of(a, b),
{
    let x = Double::from_bits(a as u128);
    let y = Double::from_bits(b as u128);
    x.mul_r(y, Round::NearestTiesToEven).value.to_bits() as u64
}

/// Relies on `rustc_apfloat::ieee::Double::div_r`: IEEE-754 division,
/// rounded to nearest with ties to even, on the 64-bit representations.
#[verifier::external_body]
pub(crate) fn div_bits(a: u64, b: u64) -> (r: u64)
    ensures
        r == div_of(a, b),
{
    let x = Double::from_bits(a as u128);
    let y = Double::from_bits(b as u128);
    x.div_r(y, Round::NearestTiesToEven).value.to_bits() as u64
}

/// Relies on `rustc_apfloat::ieee::Double::c_fmod`: the C `fmod` remainder,
/// which is what Rust's `%` computes on doubles.
#[verifier::external_body]
pub(crate) fn fmod_bits(a: u64, b: u64) -> (r: u64)
    ensures
        r == fmod_of(a, b),
{
    let x = Double::from_bits(a as u128);
    let y = Double::from_bits(b as u128);
    x.c_fmod(y).value.to_bits() as u64
}

/// Rounding directions for `round_int_bits`.
pub const ROUND_UP: u8 = 0;

/// See `ROUND_UP`.
pub const ROUND_DOWN: u8 = 1;

/// See `ROUND_UP`.
pub const ROUND_HALF_AWAY: u8 = 2;

pub uninterp spec fn round_int_of(b: u64, mode: u8) -> u64;

/// Relies on `rustc_apfloat::ieee::Double::round_to_integral`: rounds a
/// double to a nearby integral double, upward (`ROUND_UP`, as `ceil`),
/// downward (`ROUND_DOWN`, as `floor`), or to the nearest integer with ties
/// away from zero (`ROUND_HALF_AWAY`, as `round`).
#[verifier::external_body]
pub(crate) fn round_int_bits(b: u64, mode: u8) -> (r: u64)
    ensures
        r == round_int_of(b, mode),
{
    let x = Double::from_bits(b as u128);
    let round = match mode {
        0 => Round::TowardPositive,
        1 => Round::TowardNegative,
        _ => Round::NearestTiesToAway,
    };
    x.round_to_integral(round).value.to_bits() as u64
}

/// Truncation of a double toward zero into a 64-bit signed integer, with
/// the saturating semantics of Rust's `as` cast: a NaN becomes 0, values
/// beyond the range become the nearest bound.  A finite double is
/// `(-1)^sign * (2^52 + fraction) * 2^(exponent - 1075)` (the implicit bit
/// replaced by the fraction alone when the exponent field is zero), so the
/// integral part is that significand shifted by the exponent.
pub open spec fn to_i64_of(b: u64) -> i64 {
    let e = exp_bits_of(b);
    let f = frac_bits_of(b);
    if e == 0x7FF && f != 0 {
        0i64
    } else if e >= 1086 {
        if sign_bit_of(b) {
            i64::MIN
        } else {
            i64::MAX
        }
    } else if e >= 1075 {
        to_i64_signed(b, (f | 0x0010_0000_0000_0000) << sub64(e, 1075))
    } else if e >= 1023 {
        to_i64_signed(b, (f | 0x0010_0000_0000_0000) >> sub64(1075, e))
    } else {
        0i64
    }
}

/// See `to_i64_of`: apply the sign to a truncated magnitude.
pub open spec fn to_i64_signed(b: u64, m: u64) -> i64 {
    if sign_bit_of(b) {
        (-(m as int)) as i64
    } else {
        m as i64
    }
}

/// See `to_i64_of`.
pub open spec fn sub64(a: u64, b: u64) -> u64 {
    (a - b) as u64
}

/// See `to_i64_of`.
pub(crate) fn to_i64_bits(b: u64) -> (r: i64)
    ensures
        r == to_i64_of(b),
{
    let e = (b >> 52) & 0x7FF;
    let f = b & F64_FRAC_MASK;
    let neg = b & F64_SIGN_MASK != 0;
    if e == 0x7FF && f != 0 {
        0
    } else if e >= 1086 {
        if neg {
            i64::MIN
        } else {
            i64::MAX
        }
    } else if e >= 1075 {
        let k = e - 1075;
        proof {
            assert(((b & 0x000F_FFFF_FFFF_FFFF) | 0x0010_0000_0000_0000) << k
                < 0x8000_0000_0000_0000) by (bit_vector)
                requires
                    k < 11u64,
            ;
        }
        let m = (f | 0x0010_0000_0000_0000) << k;
        if neg {
            -(m as i64)
        } else {
            m as i64
        }
    } else if e >= 1023 {
        let k = 1075 - e;
        proof {
            assert(((b & 0x000F_FFFF_FFFF_FFFF) | 0x0010_0000_0000_0000) >> k
                < 0x8000_0000_0000_0000) by (bit_vector)
                requires
                    1u64 <= k <= 52u64,
            ;
        }
        let m = (f | 0x0010_0000_0000_0000) >> k;
        if neg {
            -(m as i64)
        } else {
            m as i64
        }
    } else {
        0
    }
}

/// The double nearest to an unsigned 64-bit integer, ties to even, as
/// Rust's `as` cast computes it: place the most significant bit as the
/// implicit one; when more than 53 bits are significant, round the excess
/// half to even, carrying into the exponent when the significand overflows.
pub open spec fn bits_of_u64(n: u64) -> u64 {
    if n == 0 {
        0u64
    } else {
        let p = (63 - u64_leading_zeros_spec(n)) as u64;
        if p <= 52 {
            (add64(p, 1023) << 52) | ((n << sub64(52, p)) & F64_FRAC_MASK)
        } else {
            let shift = sub64(p, 52);
            let keep = n >> shift;
            let rest = n & low_mask(shift);
            let half = 1u64 << sub64(shift, 1);
            let keep2 = if rest > half || (rest == half && keep & 1 == 1) {
                add64(keep, 1)
            } else {
                keep
            };
            if keep2 == 1u64 << 53 {
                add64(p, 1024) << 52
            } else {
                (add64(p, 1023) << 52) | (keep2 & F64_FRAC_MASK)
            }
        }
    }
}

/// See `bits_of_u64`.
pub open spec fn add64(a: u64, b: u64) -> u64 {
    (a + b) as u64
}

/// The double nearest to a 64-bit signed integer: the conversion of its
/// magnitude, with the sign bit copied over.
pub open spec fn of_i64(i: i64) -> u64 {
    if i >= 0 {
        bits_of_u64(i as u64)
    } else {
        neg_bits_of(bits_of_u64(((-(i as int))) as u64))
    }
}

/// See `bits_of_u64`.
pub(crate) fn u64_to_bits(n: u64) -> (r: u64)
    ensures
        r == bits_of_u64(n),
{
    if n == 0 {
        return 0;
    }
    proof {
        vstd::std_specs::bits::axiom_u64_leading_zeros(n);
    }
    let lz = n.leading_zeros();
    let p = 63 - (lz as u64);
    if p <= 52 {
        ((p + 1023) << 52) | ((n << (52 - p)) & F64_FRAC_MASK)
    } else {
        let shift = p - 52;
        let keep = n >> shift;
        let rest = n & exec_low_mask(shift);
        let half = 1u64 << (shift - 1);
        proof {
            assert(n >> shift <= 0x7FFF_FFFF_FFFF_FFFF) by (bit_vector)
                requires
                    1u64 <= shift,
            ;
        }
        let keep2 = if rest > half || (rest == half && keep & 1 == 1) {
            keep + 1
        } else {
            keep
        };
        if keep2 == 1u64 << 53 {
            (p + 1024) << 52
        } else {
            ((p + 1023) << 52) | (keep2 & F64_FRAC_MASK)
        }
    }
}

/// See `of_i64`.
pub(crate) fn i64_to_bits(i: i64) -> (r: u64)
    ensures
        r == of_i64(i),
{
    if i >= 0 {
        u64_to_bits(i as u64)
    } else {
        let mag = (-(i as i128)) as u64;
        u64_to_bits(mag) ^ F64_SIGN_MASK
    }
}

pub uninterp spec fn scaled_of(m: u64, e: i32) -> u64;

/// Relies on `rustc_apfloat::ieee::Double::from_u128_r` followed by
/// `scalbn_r`, both rounding to nearest with ties to even: the double
/// nearest to `m * 2^e`.
#[verifier::external_body]
pub(crate) fn scaled_bits(m: u64, e: i32) -> (r: u64)
    ensures
        r == scaled_of(m, e),
{
    let x = Double::from_u128_r(m as u128, Round::NearestTiesToEven).value;
    x.scalbn_r(e, Round::NearestTiesToEven).to_bits() as u64
}

/// Mask of the significand bits of a double.
pub const F64_FRAC_MASK: u64 = 0x000F_FFFF_FFFF_FFFF;

/// The representation of the double `1.0`.
pub const ONE_BITS: u64 = 0x3FF0_0000_0000_0000;

/// The representation of positive infinity.
pub const INF_BITS: u64 = 0x7FF0_0000_0000_0000;

/// The representation of the quiet NaN that arithmetic produces.
pub const QNAN_BITS: u64 = 0x7FF8_0000_0000_0000;

/// The biased exponent field of a double.
pub open spec fn exp_bits_of(b: u64) -> u64 {
    (b >> 52) & 0x7FF
}

/// The significand field of a double.
pub open spec fn frac_bits_of(b: u64) -> u64 {
    b & F64_FRAC_MASK
}

/// Whether the double is a NaN.
pub open spec fn is_nan_bits(b: u64) -> bool {
    exp_bits_of(b) == 0x7FF && frac_bits_of(b) != 0
}

/// Whether the double is an infinity (of either sign).
pub open spec fn is_inf_bits(b: u64) -> bool {
    exp_bits_of(b) == 0x7FF && frac_bits_of(b) == 0
}

/// Whether the double is negative (sign bit set).
pub open spec fn sign_bit_of(b: u64) -> bool {
    b & F64_SIGN_MASK != 0
}

/// Whether a finite double is a mathematical integer.
pub open spec fn is_int_bits(b: u64) -> bool {
    let e = exp_bits_of(b);
    if is_zero_bits(b) {
        true
    } else if e >= 1075 {
        e < 0x7FF
    } else if e >= 1023 {
        frac_bits_of(b) & low_mask((1075 - e) as u64) == 0
    } else {
        false
    }
}

/// Whether a finite double is an odd integer.
pub open spec fn is_odd_int_bits(b: u64) -> bool {
    let e = exp_bits_of(b);
    if is_zero_bits(b) || e >= 1076 || e < 1023 {
        false
    } else if e == 1075 {
        frac_bits_of(b) & 1 == 1
    } else {
        is_int_bits(b) && ((frac_bits_of(b) | 0x0010_0000_0000_0000) >> ((1075 - e) as u64)) & 1
            == 1
    }
}

/// A mask of the low `k` bits, for `k < 64`.
pub open spec fn low_mask(k: u64) -> u64 {
    sub_one(1u64 << k)
}

/// See `low_mask`.
pub open spec fn sub_one(m: u64) -> u64 {
    (m - 1) as u64
}

fn exec_low_mask(k: u64) -> (r: u64)
    requires
        k < 64,
    ensures
        r == low_mask(k),
{
    proof {
        assert(1u64 << k >= 1) by (bit_vector)
            requires
                k < 64,
        ;
    }
    (1u64 << k) - 1
}

fn exec_is_int_bits(b: u64) -> (r: bool)
    ensures
        r == is_int_bits(b),
{
    let e = (b >> 52) & 0x7FF;
    let f = b & F64_FRAC_MASK;
    if b & F64_ABS_MASK == 0 {
        true
    } else if e >= 1075 {
        e < 0x7FF
    } else if e >= 1023 {
        f & exec_low_mask(1075 - e) == 0
    } else {
        false
    }
}

fn exec_is_odd_int_bits(b: u64) -> (r: bool)
    ensures
        r == is_odd_int_bits(b),
{
    let e = (b >> 52) & 0x7FF;
    let f = b & F64_FRAC_MASK;
    if b & F64_ABS_MASK == 0 || e >= 1076 || e < 1023 {
        false
    } else if e == 1075 {
        f & 1 == 1
    } else {
        exec_is_int_bits(b) && ((f | 0x0010_0000_0000_0000) >> (1075 - e)) & 1 == 1
    }
}

/// A finite, nonzero double decomposed as an unsigned mantissa with its
/// top bit set and a binary exponent, so that the magnitude of the value
/// is `0.mantissa * 2^exponent`.
pub open spec fn norm_of(b: u64) -> (u64, i32) {
    let e = exp_bits_of(b);
    let f = frac_bits_of(b);
    if e == 0 {
        ((f << (u64_leading_zeros_spec(f) as u64)), (-1010 - u64_leading_zeros_spec(f)) as i32)
    } else {
        (((f | 0x0010_0000_0000_0000) << 11), (e - 1022) as i32)
    }
}

/// See `vstd::std_specs::bits::u64_leading_zeros`.
pub open spec fn u64_leading_zeros_spec(m: u64) -> int {
    vstd::std_specs::bits::u64_leading_zeros(m)
}

fn norm_bits(b: u64) -> (r: (u64, i32))
    requires
        !is_nan_bits(b),
        !is_inf_bits(b),
        !is_zero_bits(b),
    ensures
        r == norm_of(b),
{
    let e = (b >> 52) & 0x7FF;
    let f = b & F64_FRAC_MASK;
    if e == 0 {
        proof {
            assert(f != 0 && f < 0x8000_0000_0000_0000) by (bit_vector)
                requires
                    (b >> 52) & 0x7FF == 0,
                    b & 0x7FFF_FFFF_FFFF_FFFF != 0,
                    f == b & 0x000F_FFFF_FFFF_FFFF,
            ;
            vstd::std_specs::bits::axiom_u64_leading_zeros(f);
        }
        let k = f.leading_zeros();
        (f << (k as u64), -1010 - (k as i32))
    } else {
        proof {
            assert(e <= 0x7FF) by (bit_vector)
                requires
                    e == (b >> 52) & 0x7FF,
            ;
        }
        ((f | 0x0010_0000_0000_0000) << 11, (e as i32) - 1022)
    }
}

/// The IEEE-754 power function over representations.  Special operands
/// (zeros, infinities, NaNs, one, negative bases) follow the rules of the
/// standard's `pow`; a positive finite base with a finite nonzero exponent
/// is delegated to `pow_core_of`.
pub open spec fn pow_full(a: u64, b: u64) -> u64 {
    if is_zero_bits(b) {
        ONE_BITS
    } else if a == ONE_BITS {
        ONE_BITS
    } else if is_nan_bits(a) || is_nan_bits(b) {
        QNAN_BITS
    } else if is_inf_bits(b) {
        let mag = abs_bits_of(a);
        if mag == ONE_BITS {
            ONE_BITS
        } else if (mag > ONE_BITS) == !sign_bit_of(b) {
            INF_BITS
        } else {
            0u64
        }
    } else if is_inf_bits(a) {
        if !sign_bit_of(a) {
            if !sign_bit_of(b) {
                INF_BITS
            } else {
                0u64
            }
        } else if !sign_bit_of(b) {
            if is_odd_int_bits(b) {
                INF_BITS | F64_SIGN_MASK
            } else {
                INF_BITS
            }
        } else {
            if is_odd_int_bits(b) {
                F64_SIGN_MASK
            } else {
                0u64
            }
        }
    } else if is_zero_bits(a) {
        if !sign_bit_of(b) {
            if is_odd_int_bits(b) {
                a
            } else {
                0u64
            }
        } else {
            if is_odd_int_bits(b) {
                INF_BITS | (a & F64_SIGN_MASK)
            } else {
                INF_BITS
            }
        }
    } else if sign_bit_of(a) {
        if !is_int_bits(b) {
            QNAN_BITS
        } else if is_odd_int_bits(b) {
            neg_bits_of(pow_core_of(abs_bits_of(a), b))
        } else {
            pow_core_of(abs_bits_of(a), b)
        }
    } else {
        pow_core_of(a, b)
    }
}

/// The power of a positive finite base to a finite nonzero exponent, as
/// `astro-float` computes it at 64 bits of precision and `rustc_apfloat`
/// rounds it to a double, with the inexactness flag folded into the sticky
/// bit.  This software power can differ from a platform `libm` power by
/// one unit in the last place on some inputs; exact results (integral
/// powers in range, square numbers) agree.
pub open spec fn pow_core_of(a: u64, b: u64) -> u64 {
    let na = norm_of(a);
    let nb = norm_of(abs_bits_of(b));
    let t = pow_parts_of(na.0, na.1, nb.0, nb.1, sign_bit_of(b));
    if t.0 == 0 {
        0u64
    } else if t.0 == 2 {
        INF_BITS
    } else if t.0 == 1 {
        scaled_of(
            t.1 | (if t.3 {
                1u64
            } else {
                0u64
            }),
            clamp_exp(t.2),
        )
    } else {
        QNAN_BITS
    }
}

/// The astro-float exponent shifted to apfloat's scale, kept inside `i32`.
pub open spec fn clamp_exp(e: i32) -> i32 {
    if e - 64 < i32::MIN {
        i32::MIN
    } else {
        (e - 64) as i32
    }
}

/// IEEE-754 power on representations; see `pow_full`.
pub fn pow_bits(a: u64, b: u64) -> (r: u64)
    ensures
        r == pow_full(a, b),
{
    if is_zero(b) {
        ONE_BITS
    } else if a == ONE_BITS {
        ONE_BITS
    } else if exec_is_nan(a) || exec_is_nan(b) {
        QNAN_BITS
    } else if exec_is_inf(b) {
        let mag = a & F64_ABS_MASK;
        if mag == ONE_BITS {
            ONE_BITS
        } else if (mag > ONE_BITS) == (b & F64_SIGN_MASK == 0) {
            INF_BITS
        } else {
            0u64
        }
    } else if exec_is_inf(a) {
        if a & F64_SIGN_MASK == 0 {
            if b & F64_SIGN_MASK == 0 {
                INF_BITS
            } else {
                0u64
            }
        } else if b & F64_SIGN_MASK == 0 {
            if exec_is_odd_int_bits(b) {
                INF_BITS | F64_SIGN_MASK
            } else {
                INF_BITS
            }
        } else {
            if exec_is_odd_int_bits(b) {
                F64_SIGN_MASK
            } else {
                0u64
            }
        }
    } else if is_zero(a) {
        if b & F64_SIGN_MASK == 0 {
            if exec_is_odd_int_bits(b) {
                a
            } else {
                0u64
            }
        } else {
            if exec_is_odd_int_bits(b) {
                INF_BITS | (a & F64_SIGN_MASK)
            } else {
                INF_BITS
            }
        }
    } else if a & F64_SIGN_MASK != 0 {
        proof {
            lemma_abs_mask_classes(a);
        }
        if !exec_is_int_bits(b) {
            QNAN_BITS
        } else if exec_is_odd_int_bits(b) {
            pow_core(a & F64_ABS_MASK, b) ^ F64_SIGN_MASK
        } else {
            pow_core(a & F64_ABS_MASK, b)
        }
    } else {
        pow_core(a, b)
    }
}

fn exec_is_nan(b: u64) -> (r: bool)
    ensures
        r == is_nan_bits(b),
{
    (b >> 52) & 0x7FF == 0x7FF && b & F64_FRAC_MASK != 0
}

fn exec_is_inf(b: u64) -> (r: bool)
    ensures
        r == is_inf_bits(b),
{
    (b >> 52) & 0x7FF == 0x7FF && b & F64_FRAC_MASK == 0
}

/// Masking off the sign bit leaves the exponent and significand fields
/// unchanged and clears the sign.
proof fn lemma_abs_mask_classes(x: u64)
    ensures
        exp_bits_of(x & F64_ABS_MASK) == exp_bits_of(x),
        frac_bits_of(x & F64_ABS_MASK) == frac_bits_of(x),
        (x & F64_ABS_MASK) & F64_ABS_MASK == x & F64_ABS_MASK,
        !sign_bit_of(x & F64_ABS_MASK),
        abs_bits_of(x) == x & F64_ABS_MASK,
{
    assert((((x & 0x7FFF_FFFF_FFFF_FFFF) >> 52) & 0x7FF == (x >> 52) & 0x7FF) && ((x
        & 0x7FFF_FFFF_FFFF_FFFF) & 0x000F_FFFF_FFFF_FFFF == x & 0x000F_FFFF_FFFF_FFFF) && ((x
        & 0x7FFF_FFFF_FFFF_FFFF) & 0x7FFF_FFFF_FFFF_FFFF == x & 0x7FFF_FFFF_FFFF_FFFF) && ((x
        & 0x7FFF_FFFF_FFFF_FFFF) & 0x8000_0000_0000_0000 == 0)) by (bit_vector);
}

fn pow_core(a: u64, b: u64) -> (r: u64)
    requires
        !is_nan_bits(a),
        !is_inf_bits(a),
        !is_zero_bits(a),
        !sign_bit_of(a),
        !is_nan_bits(b),
        !is_inf_bits(b),
        !is_zero_bits(b),
    ensures
        r == pow_core_of(a, b),
{
    let na = norm_bits(a);
    proof {
        lemma_abs_mask_classes(b);
    }
    let nb = norm_bits(b & F64_ABS_MASK);
    let t = pow_parts(na.0, na.1, nb.0, nb.1, b & F64_SIGN_MASK != 0);
    if t.0 == 0 {
        0u64
    } else if t.0 == 2 {
        INF_BITS
    } else if t.0 == 1 {
        let sticky: u64 = if t.3 {
            1
        } else {
            0
        };
        let e2 = if t.2 >= i32::MIN + 64 {
            t.2 - 64
        } else {
            i32::MIN
        };
        scaled_bits(t.1 | sticky, e2)
    } else {
        QNAN_BITS
    }
}

/// A decimal digit.
pub open spec fn digit_char(c: char) -> bool {
    ('0' as u32) <= (c as u32) && (c as u32) <= ('9' as u32)
}

/// A decimal-literal character: a digit or the decimal point.
pub open spec fn dec_literal_char(c: char) -> bool {
    digit_char(c) || c == '.'
}

/// How many decimal points the sequence holds.
pub open spec fn dot_count(s: Seq<char>) -> nat
    decreases s.len(),
{
    if s.len() == 0 {
        0
    } else {
        dot_count(s.drop_last()) + (if s.last() == '.' {
            1nat
        } else {
            0nat
        })
    }
}

/// A well-formed decimal literal as the scanner produces it: digits and at
/// most one decimal point.
pub open spec fn dec_literal_chars(s: Seq<char>) -> bool {
    &&& forall|i: int| 0 <= i < s.len() ==> dec_literal_char(#[trigger] s[i])
    &&& dot_count(s) <= 1
}

/// Whether the sequence holds at least one decimal digit.
pub open spec fn has_dec_digit(s: Seq<char>) -> bool {
    exists|i: int| 0 <= i < s.len() && digit_char(#[trigger] s[i])
}

pub uninterp spec fn dec_of(s: Seq<char>) -> u64;

/// Relies on `rustc_apfloat::ieee::Double::from_str_r` (via `FromStr`),
/// which rounds a decimal numeral correctly to the nearest double, ties to
/// even, exactly as Rust's own `str::parse::<f64>` does; on a string of
/// digits and at most one point it fails exactly when there is no digit.
#[verifier::external_body]
pub(crate) fn dec_bits(s: &str) -> (r: Option<u64>)
    requires
        dec_literal_chars(s@),
    ensures
        r is Some <==> has_dec_digit(s@),
        r is Some ==> r->0 == dec_of(s@),
{
    match s.parse::<Double>() {
        Ok(d) => Some(d.to_bits() as u64),
        Err(_) => None,
    }
}

pub uninterp spec fn alphabetic_of(c: char) -> bool;

/// Relies on `char::is_alphabetic`: whether the character has the Unicode
/// `Alphabetic` property.
pub assume_specification[ char::is_alphabetic ](c: char) -> (r: bool)
    ensures
        r == alphabetic_of(c),
;

pub uninterp spec fn alphanumeric_of(c: char) -> bool;

/// Relies on `char::is_alphanumeric`: whether the character is Unicode
/// alphabetic or numeric.
pub assume_specification[ char::is_alphanumeric ](c: char) -> (r: bool)
    ensures
        r == alphanumeric_of(c),
;

pub uninterp spec fn pow_parts_of(ma: u64, ea: i32, mb: u64, eb: i32, neg_b: bool) -> (u8, u64, i32, bool);

/// Relies on `astro_float::BigFloat::pow` at 64 bits of precision, rounded
/// to nearest with ties to even.  Both arguments are finite, positive and
/// nonzero, given as normalized mantissa and exponent with value
/// `0.m * 2^e` (`neg_b` negates the exponent argument of the power).  The
/// result is returned the same way, tagged 0 for zero, 1 for a finite
/// value, 2 for infinity and 3 for an undefined result, together with a
/// flag telling whether it was rounded.
#[verifier::external_body]
pub(crate) fn pow_parts(ma: u64, ea: i32, mb: u64, eb: i32, neg_b: bool) -> (r: (u8, u64, i32, bool))
    ensures
        r == pow_parts_of(ma, ea, mb, eb, neg_b),
{
    let x = BigFloat::from_words(&[ma], Sign::Pos, ea);
    let mut y = BigFloat::from_words(&[mb], Sign::Pos, eb);
    if neg_b { y.inv_sign(); }
    let mut cc = Consts::new().unwrap();
    let p = x.pow(&y, 64, RoundingMode::ToEven, &mut cc);
    if p.is_inf() { return (2, 0, 0, true); }
    if p.is_zero() { return (0, 0, 0, true); }
    match p.as_raw_parts() {
        Some((w, _, _, e, inexact)) if w.len() >= 1 => (1, w[w.len() - 1], e, inexact),
        _ => (3, 0, 0, true),
    }
}

} // verus!
