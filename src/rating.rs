//! The Glicko-2 rating of one player, as the `skillratings` crate holds it.
//!
//! A rating is three floating-point numbers. This library never computes with
//! them: it hands ratings to the rating formula, and reads each number through
//! its IEEE-754 bit pattern, which is enough to check that it is finite and
//! positive and to order ratings by their mean.

use vstd::prelude::*;

use vstd::arithmetic::div_mod::{lemma_basic_div, lemma_div_denominator, lemma_div_multiples_vanish};
use vstd::arithmetic::power2::{
    lemma2_to64, lemma2_to64_rest, lemma_pow2_adds, lemma_pow2_strictly_increases, pow2,
};
use vstd::bits::{lemma_u64_shl_is_mul, lemma_u64_shr_is_div};

use crate::player::GameResult;

use skillratings::glicko2::Glicko2Rating;

verus! {

#[verifier::external_type_specification]
#[verifier::external_body]
pub struct ExGlicko2Rating(skillratings::glicko2::Glicko2Rating);

/// Bit pattern of the mean `1500.0`.
pub const DEFAULT_MEAN_BITS: u64 = 0x4097_7000_0000_0000;

/// Bit pattern of the deviation `350.0`.
pub const DEFAULT_DEVIATION_BITS: u64 = 0x4075_E000_0000_0000;

/// Bit pattern of the volatility `0.06`.
pub const DEFAULT_VOLATILITY_BITS: u64 = 0x3FAE_B851_EB85_1EB8;

/// The sign bit of a double.
pub const SIGN_BIT: u64 = 0x8000_0000_0000_0000;

/// The exponent bits of a double.
pub const EXPONENT_MASK: u64 = 0x7FF0_0000_0000_0000;

/// The bit pattern of a rating's mean.
pub uninterp spec fn mean_bits_of(r: Glicko2Rating) -> u64;

/// The bit pattern of a rating's deviation.
pub uninterp spec fn deviation_bits_of(r: Glicko2Rating) -> u64;

/// The bit pattern of a rating's volatility.
pub uninterp spec fn volatility_bits_of(r: Glicko2Rating) -> u64;

/// The exponent field of a double's bit pattern.
pub open spec fn exponent_field(b: u64) -> nat {
    ((b >> 52u64) & 0x7FFu64) as nat
}

/// The fraction field of a double's bit pattern.
pub open spec fn fraction_field(b: u64) -> nat {
    (b & 0xF_FFFF_FFFF_FFFFu64) as nat
}

/// The integer significand of a finite double: its magnitude is
/// `significand(b) / 2^(1075 - scale(b))`.
pub open spec fn significand(b: u64) -> nat {
    if exponent_field(b) == 0 {
        fraction_field(b)
    } else {
        fraction_field(b) + pow2(52)
    }
}

/// The binary scale of a finite double, as the significand reads it.
pub open spec fn scale(b: u64) -> nat {
    if exponent_field(b) == 0 {
        1
    } else {
        exponent_field(b)
    }
}

/// The magnitude of a finite double rounded half away from zero: the floor
/// of the magnitude plus one half.
pub open spec fn rounded_magnitude(b: u64) -> int {
    if scale(b) >= 1075 {
        (significand(b) * pow2((scale(b) - 1075) as nat)) as int
    } else {
        ((2 * significand(b) + pow2((1075 - scale(b)) as nat)) / pow2((1076 - scale(b)) as nat)) as int
    }
}

/// A double rounded half away from zero and converted with `as i64`: NaN
/// gives zero, and values beyond the range of `i64` give its nearest bound.
pub open spec fn rounded_mean_of(b: u64) -> i64 {
    if exponent_field(b) == 0x7FF {
        if fraction_field(b) != 0 {
            0
        } else if b & SIGN_BIT != 0 {
            i64::MIN
        } else {
            i64::MAX
        }
    } else {
        let m = rounded_magnitude(b);
        let v = if b & SIGN_BIT != 0 {
            -m
        } else {
            m
        };
        if v > i64::MAX {
            i64::MAX
        } else if v < i64::MIN {
            i64::MIN
        } else {
            v as i64
        }
    }
}

/// The default mean rounds to 1500.
pub proof fn lemma_default_mean_rounds()
    ensures
        rounded_mean_of(DEFAULT_MEAN_BITS) == 1500,
{
    let b = DEFAULT_MEAN_BITS;
    assert(((b >> 52u64) & 0x7FFu64) == 0x409) by (bit_vector)
        requires b == 0x4097_7000_0000_0000u64;
    assert((b & 0xF_FFFF_FFFF_FFFFu64) == 0x7_7000_0000_0000u64) by (bit_vector)
        requires b == 0x4097_7000_0000_0000u64;
    assert(b & SIGN_BIT == 0) by (bit_vector)
        requires b == 0x4097_7000_0000_0000u64, SIGN_BIT == 0x8000_0000_0000_0000u64;
    lemma2_to64_rest();
    assert(exponent_field(b) == 0x409);
    assert(fraction_field(b) == 0x7_7000_0000_0000);
    assert(significand(b) == 0x17_7000_0000_0000);
    assert(scale(b) == 0x409);
    assert(rounded_magnitude(b) == (2 * 0x17_7000_0000_0000int + pow2(42)) / (pow2(43) as int));
    assert((2 * 0x17_7000_0000_0000int + 0x400_0000_0000int) / 0x800_0000_0000int == 1500);
}

/// A double whose bit pattern is `b` is finite: its exponent is not all ones.
pub open spec fn finite_bits(b: u64) -> bool {
    b & EXPONENT_MASK != EXPONENT_MASK
}

/// A double whose bit pattern is `b` is finite and greater than zero.
pub open spec fn positive_bits(b: u64) -> bool {
    &&& finite_bits(b)
    &&& b & SIGN_BIT == 0
    &&& b != 0
}

/// A rating on which the Glicko-2 formula is defined: a finite mean and a
/// finite, positive deviation and volatility.
pub open spec fn valid_rating(r: Glicko2Rating) -> bool {
    &&& finite_bits(mean_bits_of(r))
    &&& positive_bits(deviation_bits_of(r))
    &&& positive_bits(volatility_bits_of(r))
}

/// The IEEE-754 total order on doubles, as an order on unsigned integers:
/// for bit patterns of doubles that are not NaN, `order_key(a) < order_key(b)`
/// exactly when `a` is below `b`, with `-0.0` below `0.0`.
pub open spec fn order_key(b: u64) -> u64 {
    if b & SIGN_BIT != 0 {
        !b
    } else {
        b | SIGN_BIT
    }
}

/// The key by which ratings are ranked: their mean in the total order.
pub open spec fn rank_key(r: Glicko2Rating) -> u64 {
    order_key(mean_bits_of(r))
}

/// Relies on `Glicko2Rating::new`: a mean of 1500.0, a deviation of 350.0 and
/// a volatility of 0.06.
#[verifier::external_body]
pub(crate) fn default_rating() -> (r: Glicko2Rating)
    ensures
        mean_bits_of(r) == DEFAULT_MEAN_BITS,
        deviation_bits_of(r) == DEFAULT_DEVIATION_BITS,
        volatility_bits_of(r) == DEFAULT_VOLATILITY_BITS,
{
    Glicko2Rating::new()
}

/// Relies on `to_bits` of the `rating` field: the bit pattern of the mean.
#[verifier::external_body]
pub(crate) fn mean_bits(r: &Glicko2Rating) -> (b: u64)
    ensures
        b == mean_bits_of(*r),
{
    r.rating.to_bits()
}

/// Relies on `to_bits` of the `deviation` field: the bit pattern of the
/// deviation.
#[verifier::external_body]
pub(crate) fn deviation_bits(r: &Glicko2Rating) -> (b: u64)
    ensures
        b == deviation_bits_of(*r),
{
    r.deviation.to_bits()
}

/// Relies on `to_bits` of the `volatility` field: the bit pattern of the
/// volatility.
#[verifier::external_body]
pub(crate) fn volatility_bits(r: &Glicko2Rating) -> (b: u64)
    ensures
        b == volatility_bits_of(*r),
{
    r.volatility.to_bits()
}

/// The double with bit pattern `b` rounded half away from zero and
/// converted with `as i64`, as `round` and the cast compute it.
pub fn round_bits(b: u64) -> (v: i64)
    ensures
        v == rounded_mean_of(b),
{
    let e: u64 = (b >> 52u64) & 0x7FFu64;
    let f: u64 = b & 0xF_FFFF_FFFF_FFFFu64;
    let negative = b & SIGN_BIT != 0;
    assert(e <= 0x7FF && f <= 0xF_FFFF_FFFF_FFFF) by (bit_vector)
        requires
            e == (b >> 52u64) & 0x7FFu64,
            f == b & 0xF_FFFF_FFFF_FFFFu64,
    ;
    if e == 0x7FF {
        if f != 0 {
            return 0;
        } else if negative {
            return i64::MIN;
        } else {
            return i64::MAX;
        }
    }
    proof {
        lemma2_to64();
        lemma2_to64_rest();
    }
    let sig: u64 = if e == 0 {
        f
    } else {
        f + 0x10_0000_0000_0000u64
    };
    let sc: u64 = if e == 0 {
        1
    } else {
        e
    };
    assert(sig == significand(b) && sc == scale(b));
    assert(sig < 0x20_0000_0000_0000);
    let m: u64;
    if sc >= 1075 {
        let s = sc - 1075;
        if s >= 11 {
            proof {
                if s > 11 {
                    lemma_pow2_strictly_increases(11, s as nat);
                }
                assert(sig >= 0x10_0000_0000_0000);
                assert(sig * pow2(s as nat) >= 0x10_0000_0000_0000 * 2048) by (nonlinear_arith)
                    requires
                        sig >= 0x10_0000_0000_0000,
                        pow2(s as nat) >= 2048,
                ;
            }
            if negative {
                return i64::MIN;
            } else {
                return i64::MAX;
            }
        }
        proof {
            if s < 10 {
                lemma_pow2_strictly_increases(s as nat, 10);
            }
            assert(sig * pow2(s as nat) < 0x20_0000_0000_0000 * 1024) by (nonlinear_arith)
                requires
                    sig < 0x20_0000_0000_0000,
                    pow2(s as nat) <= 1024,
            ;
            lemma_u64_shl_is_mul(sig, s);
        }
        m = sig << s;
    } else {
        let k = 1075 - sc;
        proof {
            lemma_pow2_adds(k as nat, 1);
        }
        if k >= 54 {
            proof {
                if k > 54 {
                    lemma_pow2_strictly_increases(54, k as nat);
                }
                lemma_basic_div(2 * sig + pow2(k as nat), pow2((k + 1) as nat) as int);
            }
            m = 0;
        } else {
            let half: u64 = 1u64 << (k - 1);
            proof {
                lemma_u64_shl_is_mul(1, (k - 1) as u64);
                lemma_pow2_adds((k - 1) as nat, 1);
                if k - 1 < 52 {
                    lemma_pow2_strictly_increases((k - 1) as nat, 52);
                }
            }
            let t: u64 = sig + half;
            proof {
                lemma_u64_shr_is_div(t, k);
                lemma_div_multiples_vanish(t as int, 2);
                lemma_div_denominator(2 * t, 2, pow2(k as nat) as int);
                assert(2 * sig + pow2(k as nat) == 2 * t);
                assert(pow2((k + 1) as nat) == 2 * pow2(k as nat));
            }
            m = t >> k;
            proof {
                assert(t < 0x30_0000_0000_0000);
                assert(m <= t) by {
                    vstd::arithmetic::div_mod::lemma_div_is_ordered_by_denominator(
                        t as int,
                        1,
                        pow2(k as nat) as int,
                    );
                };
            }
        }
    }
    assert(m as int == rounded_magnitude(b));
    assert(m < 0x8000_0000_0000_0000);
    if negative {
        -(m as i64)
    } else {
        m as i64
    }
}

/// The Glicko-2 update, run on the ratings `first` and `second` with the
/// outcome `result` seen from the first player, can give the new ratings
/// `new_first` and `new_second`. This is a relation, not a function: the
/// formula's floating-point functions may round differently from one machine
/// or one call to another.
pub uninterp spec fn glicko2_gives(
    first: Glicko2Rating,
    second: Glicko2Rating,
    result: GameResult,
    new_first: Glicko2Rating,
    new_second: Glicko2Rating,
) -> bool;

/// Relies on `skillratings::glicko2::glicko2` with `Glicko2Config::new()`,
/// with the outcome `WIN` for a win of the first player, `LOSS` for a win of
/// the second and `DRAW` for a tie: the two new ratings are what the formula
/// gives on these ratings and this outcome. The formula computes through
/// `exp`, `ln` and `hypot`, whose precision std leaves open, so nothing more is
/// claimed of them: callers check them. It is called only on valid ratings,
/// where it is defined.
#[verifier::external_body]
pub(crate) fn glicko2_update(
    first: &Glicko2Rating,
    second: &Glicko2Rating,
    result: GameResult,
) -> (r: (Glicko2Rating, Glicko2Rating))
    requires
        valid_rating(*first),
        valid_rating(*second),
    ensures
        glicko2_gives(*first, *second, result, r.0, r.1),
{
    let outcome = match result {
        GameResult::Player1Wins => skillratings::Outcomes::WIN,
        GameResult::Player2Wins => skillratings::Outcomes::LOSS,
        GameResult::Tie => skillratings::Outcomes::DRAW,
    };
    let config = skillratings::glicko2::Glicko2Config::new();
    skillratings::glicko2::glicko2(first, second, &outcome, &config)
}

/// Whether a double with bit pattern `b` is finite.
pub fn is_finite_bits(b: u64) -> (r: bool)
    ensures
        r == finite_bits(b),
{
    b & EXPONENT_MASK != EXPONENT_MASK
}

/// Whether a double with bit pattern `b` is finite and greater than zero.
pub fn is_positive_bits(b: u64) -> (r: bool)
    ensures
        r == positive_bits(b),
{
    is_finite_bits(b) && b & SIGN_BIT == 0 && b != 0
}

/// Whether the Glicko-2 formula is defined on `r`.
pub fn is_valid_rating(r: &Glicko2Rating) -> (ok: bool)
    ensures
        ok == valid_rating(*r),
{
    is_finite_bits(mean_bits(r)) && is_positive_bits(deviation_bits(r))
        && is_positive_bits(volatility_bits(r))
}

/// The ranking key of a rating.
pub fn rating_key(r: &Glicko2Rating) -> (k: u64)
    ensures
        k == rank_key(*r),
{
    let b = mean_bits(r);
    if b & SIGN_BIT != 0 {
        !b
    } else {
        b | SIGN_BIT
    }
}

/// The default rating is one on which the formula is defined.
pub proof fn lemma_default_rating_valid(r: Glicko2Rating)
    requires
        mean_bits_of(r) == DEFAULT_MEAN_BITS,
        deviation_bits_of(r) == DEFAULT_DEVIATION_BITS,
        volatility_bits_of(r) == DEFAULT_VOLATILITY_BITS,
    ensures
        valid_rating(r),
{
    assert(DEFAULT_MEAN_BITS & EXPONENT_MASK != EXPONENT_MASK) by (bit_vector);
    assert(DEFAULT_DEVIATION_BITS & EXPONENT_MASK != EXPONENT_MASK) by (bit_vector);
    assert(DEFAULT_DEVIATION_BITS & SIGN_BIT == 0) by (bit_vector);
    assert(DEFAULT_VOLATILITY_BITS & EXPONENT_MASK != EXPONENT_MASK) by (bit_vector);
    assert(DEFAULT_VOLATILITY_BITS & SIGN_BIT == 0) by (bit_vector);
}

} // verus!
