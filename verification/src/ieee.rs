//! The exact real value of an IEEE-754 binary64 encoding.
//!
//! A value is carried as its 64-bit pattern: one sign bit, an 11-bit exponent
//! field and a 52-bit fraction field. For a finite pattern the real value times
//! 2^1074 is an integer, so every comparison is done exactly over `int`.
use vstd::prelude::*;
use vstd::arithmetic::power2::*;

use crate::error::GeoError;

verus! {

/// 2^52, the weight of the implicit leading bit of a normal number.
pub open spec fn hidden_bit() -> nat {
    0x10_0000_0000_0000
}

/// True when the sign bit is set.
pub open spec fn sign_bit(b: u64) -> bool {
    b >= 0x8000_0000_0000_0000
}

/// The pattern with its sign bit cleared.
pub open spec fn magnitude_bits(b: u64) -> nat {
    (b % 0x8000_0000_0000_0000) as nat
}

/// The biased exponent field.
pub open spec fn exponent_field(b: u64) -> nat {
    ((b / 0x10_0000_0000_0000) % 0x800) as nat
}

/// The fraction (mantissa) field.
pub open spec fn fraction_field(b: u64) -> nat {
    (b % 0x10_0000_0000_0000) as nat
}

/// Finite: neither an infinity nor a NaN (the exponent field is not all ones).
pub open spec fn is_finite(b: u64) -> bool {
    exponent_field(b) != 0x7ff
}

/// |x| * 2^1074 for the fields of a finite number.
pub open spec fn scaled_from_fields(e: nat, f: nat) -> nat {
    if e == 0 {
        f
    } else {
        (f + hidden_bit()) * pow2((e - 1) as nat)
    }
}

/// |x| * 2^1074, an exact integer for every finite pattern.
pub open spec fn scaled_magnitude(b: u64) -> nat {
    scaled_from_fields(exponent_field(b), fraction_field(b))
}

/// x * 2^1074, signed.
pub open spec fn scaled_value(b: u64) -> int {
    if sign_bit(b) {
        -(scaled_magnitude(b) as int)
    } else {
        scaled_magnitude(b) as int
    }
}

/// |x| > k for the real value x of a finite pattern.
pub open spec fn magnitude_exceeds(b: u64, k: nat) -> bool {
    scaled_magnitude(b) > k * pow2(1074)
}

/// x < 0 for the real value x of a finite pattern (negative zero is not below zero).
pub open spec fn is_below_zero(b: u64) -> bool {
    scaled_value(b) < 0
}

/// The bit pattern of 90.0.
pub const NINETY: u64 = 0x4056_8000_0000_0000;

/// The bit pattern of 180.0.
pub const ONE_EIGHTY: u64 = 0x4066_8000_0000_0000;

proof fn lemma_fields(b: u64)
    ensures
        magnitude_bits(b) == exponent_field(b) * hidden_bit() + fraction_field(b),
        exponent_field(b) < 0x800,
        fraction_field(b) < hidden_bit(),
        sign_bit(b) <==> b / 0x10_0000_0000_0000 >= 0x800,
{
    assert((b % 0x8000_0000_0000_0000) == ((b / 0x10_0000_0000_0000) % 0x800)
        * 0x10_0000_0000_0000 + b % 0x10_0000_0000_0000) by (bit_vector);
    assert((b >= 0x8000_0000_0000_0000) <==> (b / 0x10_0000_0000_0000 >= 0x800)) by (bit_vector);
}

proof fn lemma_scaled_from_fields_lt(e1: nat, f1: nat, e2: nat, f2: nat)
    requires
        e1 * hidden_bit() + f1 < e2 * hidden_bit() + f2,
        f1 < hidden_bit(),
        f2 < hidden_bit(),
    ensures
        scaled_from_fields(e1, f1) < scaled_from_fields(e2, f2),
{
    let p = hidden_bit();
    assert(e1 <= e2) by (nonlinear_arith)
        requires
            e1 * p + f1 < e2 * p + f2,
            f1 < p,
            f2 < p,
            p > 0,
    ;
    if e1 == e2 {
        assert(f1 < f2) by (nonlinear_arith)
            requires
                e1 * p + f1 < e2 * p + f2,
                e1 == e2,
        ;
        if e1 != 0 {
            let q = pow2((e1 - 1) as nat);
            lemma_pow2_pos((e1 - 1) as nat);
            assert((f1 + p) * q < (f2 + p) * q) by (nonlinear_arith)
                requires
                    f1 < f2,
                    q > 0,
            ;
        }
    } else {
        let q2 = pow2((e2 - 1) as nat);
        lemma_pow2_pos((e2 - 1) as nat);
        assert(p <= (f2 + p) * q2) by (nonlinear_arith)
            requires
                q2 >= 1,
        ;
        if e1 != 0 {
            let q1 = pow2((e1 - 1) as nat);
            lemma_pow2_pos((e1 - 1) as nat);
            lemma_pow2_unfold(e1);
            if e1 < e2 - 1 {
                lemma_pow2_strictly_increases(e1, (e2 - 1) as nat);
            }
            assert(pow2(e1) <= q2);
            assert((f1 + p) * q1 < 2 * p * q1) by (nonlinear_arith)
                requires
                    f1 < p,
                    q1 > 0,
            ;
            let pe1 = pow2(e1);
            assert(2 * p * q1 == p * pe1) by (nonlinear_arith)
                requires
                    pe1 == 2 * q1,
            ;
            assert(p * pow2(e1) <= p * q2) by (nonlinear_arith)
                requires
                    pow2(e1) <= q2,
                    p > 0,
            ;
            assert(p * q2 <= (f2 + p) * q2) by (nonlinear_arith)
                requires
                    q2 > 0,
            ;
        }
    }
}

/// Among finite patterns, a larger magnitude pattern has a strictly larger real magnitude.
pub proof fn lemma_magnitude_monotone(a: u64, b: u64)
    requires
        is_finite(a),
        is_finite(b),
    ensures
        magnitude_bits(a) < magnitude_bits(b) <==> scaled_magnitude(a) < scaled_magnitude(b),
        magnitude_bits(a) == magnitude_bits(b) <==> scaled_magnitude(a) == scaled_magnitude(b),
{
    lemma_fields(a);
    lemma_fields(b);
    if magnitude_bits(a) < magnitude_bits(b) {
        lemma_scaled_from_fields_lt(exponent_field(a), fraction_field(a), exponent_field(b), fraction_field(b));
    } else if magnitude_bits(b) < magnitude_bits(a) {
        lemma_scaled_from_fields_lt(exponent_field(b), fraction_field(b), exponent_field(a), fraction_field(a));
    } else {
        let p = hidden_bit();
        let (ea, fa, eb, fb) = (exponent_field(a), fraction_field(a), exponent_field(b), fraction_field(b));
        assert(ea == eb && fa == fb) by (nonlinear_arith)
            requires
                ea * p + fa == eb * p + fb,
                fa < p,
                fb < p,
                p > 0,
        ;
    }
}

/// A finite pattern has real magnitude zero exactly when its magnitude bits are zero.
pub proof fn lemma_zero_magnitude(b: u64)
    requires
        is_finite(b),
    ensures
        scaled_magnitude(b) == 0 <==> magnitude_bits(b) == 0,
{
    lemma_magnitude_monotone(b, 0);
    assert(scaled_magnitude(0) == 0);
}

/// The pattern `NINETY` stands for exactly 90.
pub proof fn lemma_ninety()
    ensures
        scaled_magnitude(NINETY) == 90 * pow2(1074),
        is_finite(NINETY),
        magnitude_bits(NINETY) == NINETY,
{
    assert(exponent_field(NINETY) == 0x405);
    assert(fraction_field(NINETY) == 0x6_8000_0000_0000);
    lemma2_to64_rest();
    lemma_pow2_adds(47, 1028);
    lemma_pow2_unfold(1075);
    assert(0x6_8000_0000_0000 + hidden_bit() == 45 * pow2(47));
}

/// The pattern `ONE_EIGHTY` stands for exactly 180.
pub proof fn lemma_one_eighty()
    ensures
        scaled_magnitude(ONE_EIGHTY) == 180 * pow2(1074),
        is_finite(ONE_EIGHTY),
        magnitude_bits(ONE_EIGHTY) == ONE_EIGHTY,
{
    assert(exponent_field(ONE_EIGHTY) == 0x406);
    assert(fraction_field(ONE_EIGHTY) == 0x6_8000_0000_0000);
    lemma2_to64_rest();
    lemma_pow2_adds(47, 1029);
    lemma_pow2_unfold(1076);
    lemma_pow2_unfold(1075);
    assert(0x6_8000_0000_0000 + hidden_bit() == 45 * pow2(47));
}

/// Not a number: the exponent field is all ones and the fraction is not zero.
pub open spec fn is_nan(b: u64) -> bool {
    exponent_field(b) == 0x7ff && fraction_field(b) != 0
}

/// IEEE equality (`==` on `f64`): no NaN equals anything, and the two zeros are equal.
pub open spec fn float_eq(a: u64, b: u64) -> bool {
    !is_nan(a) && !is_nan(b) && (a == b || (magnitude_bits(a) == 0 && magnitude_bits(b) == 0))
}

/// `==` on the encoded numbers, as `f64` compares them.
pub fn equal(a: u64, b: u64) -> (r: bool)
    ensures
        r == float_eq(a, b),
{
    let a_nan = (a / 0x10_0000_0000_0000) % 0x800 == 0x7ff && a % 0x10_0000_0000_0000 != 0;
    let b_nan = (b / 0x10_0000_0000_0000) % 0x800 == 0x7ff && b % 0x10_0000_0000_0000 != 0;
    !a_nan && !b_nan && (a == b || (a % 0x8000_0000_0000_0000 == 0 && b % 0x8000_0000_0000_0000 == 0))
}

/// Whether the encoded number is finite (not NaN, not infinite).
pub fn finite(b: u64) -> (r: bool)
    ensures
        r == is_finite(b),
{
    (b / 0x10_0000_0000_0000) % 0x800 != 0x7ff
}

/// Whether a finite number lies strictly below zero.
pub fn below_zero(b: u64) -> (r: bool)
    requires
        is_finite(b),
    ensures
        r == is_below_zero(b),
{
    proof {
        lemma_zero_magnitude(b);
    }
    b >= 0x8000_0000_0000_0000 && b % 0x8000_0000_0000_0000 != 0
}

/// |b| > |bound| for two finite numbers.
fn magnitude_greater(b: u64, bound: u64) -> (r: bool)
    requires
        is_finite(b),
        is_finite(bound),
    ensures
        r == (scaled_magnitude(b) > scaled_magnitude(bound)),
{
    proof {
        lemma_magnitude_monotone(bound, b);
    }
    b % 0x8000_0000_0000_0000 > bound % 0x8000_0000_0000_0000
}

/// The outcome of checking a `[longitude, latitude]` pair.
pub open spec fn point_status(lon: u64, lat: u64) -> Result<(), GeoError> {
    if !is_finite(lon) || !is_finite(lat) {
        Err(GeoError::NonFiniteCoord)
    } else if magnitude_exceeds(lat, 90) || magnitude_exceeds(lon, 180) {
        Err(GeoError::OutOfRange)
    } else {
        Ok(())
    }
}

/// Checks a `[longitude, latitude]` pair for WGS-84 use: both parts finite, the
/// latitude within ±90 and the longitude within ±180 degrees (bounds included).
/// A non-finite part is reported before a range violation.
pub fn point_in_range(lon: u64, lat: u64) -> (r: Result<(), GeoError>)
    ensures
        r == Err::<(), GeoError>(GeoError::NonFiniteCoord) <==> !is_finite(lon) || !is_finite(lat),
        r == Err::<(), GeoError>(GeoError::OutOfRange) <==> is_finite(lon) && is_finite(lat) && (
        magnitude_exceeds(lat, 90) || magnitude_exceeds(lon, 180)),
        r is Ok <==> is_finite(lon) && is_finite(lat) && !magnitude_exceeds(lat, 90)
            && !magnitude_exceeds(lon, 180),
        r == point_status(lon, lat),
{
    if !finite(lon) || !finite(lat) {
        return Err(GeoError::NonFiniteCoord);
    }
    proof {
        lemma_ninety();
        lemma_one_eighty();
    }
    if magnitude_greater(lat, NINETY) || magnitude_greater(lon, ONE_EIGHTY) {
        return Err(GeoError::OutOfRange);
    }
    Ok(())
}

/// The order of finite values: x < y. Negative and positive zero compare equal.
pub fn less_than(a: u64, b: u64) -> (r: bool)
    requires
        is_finite(a),
        is_finite(b),
    ensures
        r == (scaled_value(a) < scaled_value(b)),
{
    proof {
        lemma_magnitude_monotone(a, b);
        lemma_zero_magnitude(a);
        lemma_zero_magnitude(b);
    }
    let ma = a % 0x8000_0000_0000_0000;
    let mb = b % 0x8000_0000_0000_0000;
    let na = a >= 0x8000_0000_0000_0000;
    let nb = b >= 0x8000_0000_0000_0000;
    if !na && !nb {
        ma < mb
    } else if na && nb {
        mb < ma
    } else if na {
        !(ma == 0 && mb == 0)
    } else {
        false
    }
}

} // verus!
