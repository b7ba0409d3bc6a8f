//! The scalar model: IEEE 754 binary32 values as raw `u32` bit patterns.
//!
//! A pattern splits into a sign bit and a 31-bit magnitude. For patterns that
//! are not NaN, the numeric order of the encoded values is exactly the order
//! of the magnitudes, reversed on the negative side, with the two zeros equal.
//! The operations below are the ones whose results are exact functions of the
//! bit patterns — comparison, absolute value, the rectifier, and the encoding
//! of a 24-bit uniform sample — so they can be implemented and verified as
//! plain integer code.

use vstd::arithmetic::div_mod::lemma_fundamental_div_mod;
use vstd::arithmetic::power2::{lemma_pow2_pos, lemma_pow2_strictly_increases, pow2};
use vstd::prelude::*;

verus! {

/// The bit pattern of 1.0; every pattern strictly below it encodes a finite
/// non-negative value strictly below one.
pub const ONE_BITS: u32 = 0x3F80_0000;

/// The bit pattern of positive infinity: the largest non-NaN magnitude.
pub const INFINITY_BITS: u32 = 0x7F80_0000;

/// The sign bit of a pattern.
pub open spec fn sign_bits(b: u32) -> bool {
    b >= 0x8000_0000
}

/// The magnitude of a pattern: the pattern with its sign bit cleared.
pub open spec fn magnitude_bits(b: u32) -> u32 {
    (b % 0x8000_0000) as u32
}

/// A pattern encodes NaN when its magnitude exceeds the infinity pattern.
pub open spec fn is_nan_bits(b: u32) -> bool {
    magnitude_bits(b) > INFINITY_BITS
}

/// A pattern encodes a finite value when its magnitude is below the infinity
/// pattern.
pub open spec fn is_finite_bits(b: u32) -> bool {
    magnitude_bits(b) < INFINITY_BITS
}

/// The key that orders non-NaN patterns as the values they encode: the
/// magnitude, negated when the sign bit is set. Both zeros get key 0.
pub open spec fn order_key(b: u32) -> int {
    if sign_bits(b) {
        -(magnitude_bits(b) as int)
    } else {
        magnitude_bits(b) as int
    }
}

/// IEEE `<` on two patterns: false when either is NaN, otherwise the strict
/// order of the keys.
pub open spec fn float_lt(a: u32, b: u32) -> bool {
    &&& !is_nan_bits(a)
    &&& !is_nan_bits(b)
    &&& order_key(a) < order_key(b)
}

/// IEEE `<=` on two patterns: false when either is NaN, otherwise the order
/// of the keys.
pub open spec fn float_le(a: u32, b: u32) -> bool {
    &&& !is_nan_bits(a)
    &&& !is_nan_bits(b)
    &&& order_key(a) <= order_key(b)
}

/// The exponent field of a pattern.
pub open spec fn exponent_bits(b: u32) -> u32 {
    magnitude_bits(b) / 0x80_0000
}

/// The fraction field of a pattern.
pub open spec fn fraction_bits(b: u32) -> u32 {
    (magnitude_bits(b) % 0x80_0000) as u32
}

/// The magnitude a finite pattern encodes, counted in units of 2^-149 (the
/// smallest positive subnormal): subnormal patterns encode their fraction
/// directly, normal ones (2^23 + fraction) * 2^(exponent - 1).
pub open spec fn scaled_magnitude(b: u32) -> int {
    if exponent_bits(b) == 0 {
        fraction_bits(b) as int
    } else {
        (0x80_0000 + fraction_bits(b) as int) * (pow2((exponent_bits(b) - 1) as nat) as int)
    }
}

/// The value a finite pattern encodes, counted in units of 2^-149.
pub open spec fn scaled_value(b: u32) -> int {
    if sign_bits(b) {
        -scaled_magnitude(b)
    } else {
        scaled_magnitude(b)
    }
}

/// The field decomposition of a magnitude, and the field bounds.
proof fn lemma_fields(a: u32)
    ensures
        magnitude_bits(a) == exponent_bits(a) * 0x80_0000 + fraction_bits(a),
        fraction_bits(a) < 0x80_0000,
        is_finite_bits(a) ==> exponent_bits(a) <= 254,
{
    lemma_fundamental_div_mod(magnitude_bits(a) as int, 0x80_0000);
}

/// Monotonicity of the encoding: of two finite patterns, the one with the
/// strictly larger magnitude field encodes the strictly larger magnitude.
proof fn lemma_scaled_magnitude_strict(a: u32, b: u32)
    requires
        is_finite_bits(a),
        is_finite_bits(b),
        magnitude_bits(a) < magnitude_bits(b),
    ensures
        scaled_magnitude(a) < scaled_magnitude(b),
{
    lemma_fields(a);
    lemma_fields(b);
    let e1 = exponent_bits(a);
    let f1 = fraction_bits(a) as int;
    let e2 = exponent_bits(b);
    let f2 = fraction_bits(b) as int;
    assert(e1 <= e2);
    if e1 == e2 {
        if e1 == 0 {
        } else {
            let p = pow2((e1 - 1) as nat) as int;
            lemma_pow2_pos((e1 - 1) as nat);
            assert((0x80_0000 + f1) * p < (0x80_0000 + f2) * p) by (nonlinear_arith)
                requires
                    f1 < f2,
                    p >= 1,
            ;
        }
    } else if e1 == 0 {
        let p2 = pow2((e2 - 1) as nat) as int;
        lemma_pow2_pos((e2 - 1) as nat);
        assert(0x80_0000 <= (0x80_0000 + f2) * p2) by (nonlinear_arith)
            requires
                f2 >= 0,
                p2 >= 1,
        ;
    } else {
        let p1 = pow2((e1 - 1) as nat) as int;
        let p2 = pow2((e2 - 1) as nat) as int;
        lemma_pow2_pos((e1 - 1) as nat);
        lemma_pow2_pos((e2 - 1) as nat);
        if e1 < e2 - 1 {
            lemma_pow2_strictly_increases((e1 - 1) as nat, (e2 - 1) as nat);
        }
        assert(2 * p1 <= p2) by {
            assert(pow2((e1 - 1) as nat + 1) == 2 * pow2((e1 - 1) as nat)) by {
                vstd::arithmetic::power2::lemma_pow2_unfold((e1) as nat);
            }
            if (e1 - 1) as nat + 1 < (e2 - 1) as nat {
                lemma_pow2_strictly_increases((e1 - 1) as nat + 1, (e2 - 1) as nat);
            }
        }
        assert((0x80_0000 + f1) * p1 < (0x80_0000 + f2) * p2) by (nonlinear_arith)
            requires
                0 <= f1 < 0x80_0000,
                0 <= f2,
                p1 >= 1,
                2 * p1 <= p2,
        ;
    }
}

/// A zero magnitude field encodes zero; a non-zero one a positive magnitude.
proof fn lemma_scaled_magnitude_sign(a: u32)
    requires
        is_finite_bits(a),
    ensures
        scaled_magnitude(a) >= 0,
        (scaled_magnitude(a) == 0) == (magnitude_bits(a) == 0),
{
    lemma_fields(a);
    let e = exponent_bits(a);
    let f = fraction_bits(a) as int;
    if e != 0 {
        let p = pow2((e - 1) as nat) as int;
        lemma_pow2_pos((e - 1) as nat);
        assert(0x80_0000 <= (0x80_0000 + f) * p) by (nonlinear_arith)
            requires
                f >= 0,
                p >= 1,
        ;
    }
}

/// Law (the comparison is the numeric order): for finite patterns, the strict
/// comparison that `lt_bits` decides and the trainer's accept-or-revert
/// judgement uses holds exactly when the value the left pattern encodes is
/// numerically below the value the right one encodes; the keys tie exactly
/// when the values are equal (the two zeros both encode zero).
pub proof fn lemma_order_is_the_value_order(a: u32, b: u32)
    requires
        is_finite_bits(a),
        is_finite_bits(b),
    ensures
        float_lt(a, b) == (scaled_value(a) < scaled_value(b)),
        (order_key(a) == order_key(b)) == (scaled_value(a) == scaled_value(b)),
{
    lemma_scaled_magnitude_sign(a);
    lemma_scaled_magnitude_sign(b);
    if magnitude_bits(a) < magnitude_bits(b) {
        lemma_scaled_magnitude_strict(a, b);
    } else if magnitude_bits(b) < magnitude_bits(a) {
        lemma_scaled_magnitude_strict(b, a);
    }
}

/// Clears the sign bit: the bit pattern of the absolute value.
pub fn abs_bits(a: u32) -> (r: u32)
    ensures
        r == magnitude_bits(a),
        !sign_bits(r),
        order_key(r) >= 0,
{
    if a >= 0x8000_0000 {
        a - 0x8000_0000
    } else {
        a
    }
}

/// The strict IEEE comparison of two patterns, decided from the bits alone.
pub fn lt_bits(a: u32, b: u32) -> (r: bool)
    ensures
        r == float_lt(a, b),
{
    let ma: u32 = abs_bits(a);
    let mb: u32 = abs_bits(b);
    if ma > INFINITY_BITS || mb > INFINITY_BITS {
        false
    } else if a >= 0x8000_0000 {
        if b >= 0x8000_0000 {
            mb < ma
        } else {
            ma > 0 || mb > 0
        }
    } else {
        if b >= 0x8000_0000 {
            false
        } else {
            ma < mb
        }
    }
}

/// The IEEE `<=` of two patterns, decided from the bits alone.
pub fn le_bits(a: u32, b: u32) -> (r: bool)
    ensures
        r == float_le(a, b),
{
    let ma: u32 = abs_bits(a);
    let mb: u32 = abs_bits(b);
    if ma > INFINITY_BITS || mb > INFINITY_BITS {
        false
    } else if a >= 0x8000_0000 {
        if b >= 0x8000_0000 {
            mb <= ma
        } else {
            true
        }
    } else {
        if b >= 0x8000_0000 {
            ma == 0 && mb == 0
        } else {
            ma <= mb
        }
    }
}

/// The rectifier on one pattern: the bit pattern of `max(x, 0.0)`. A NaN or a
/// pattern with the sign bit set (negative zero included) maps to positive
/// zero; every other pattern is returned unchanged.
pub fn relu_bits(a: u32) -> (r: u32)
    ensures
        r == (if is_nan_bits(a) || sign_bits(a) {
            0u32
        } else {
            a
        }),
        order_key(r) >= 0,
        !is_nan_bits(r),
{
    let ma: u32 = abs_bits(a);
    if ma > INFINITY_BITS || a >= 0x8000_0000 {
        0
    } else {
        a
    }
}

/// Encodes the value `(raw / 256) / 2^24` — the top 24 bits of a raw draw,
/// read as a binary fraction — as a binary32 pattern. The encoding is exact:
/// a 24-bit fraction always fits the 24-bit significand, and the pattern
/// provably encodes that very value. The result is the library's uniform
/// sample on `[0, 1)`.
pub fn unit_bits(raw: u32) -> (r: u32)
    ensures
        r < ONE_BITS,
        !sign_bits(r),
        is_finite_bits(r),
        order_key(r) >= 0,
        scaled_value(r) == (raw / 256) * pow2(125),
{
    let frac: u32 = raw / 256;
    if frac == 0 {
        return 0;
    }
    proof {
        assert(1u32 << 0u32 == 1u32) by (bit_vector);
    }
    let mut sh: u32 = 0;
    while sh < 23 && (1u32 << (sh + 1)) <= frac
        invariant
            sh <= 23,
            (1u32 << sh) <= frac,
            1 <= frac < 0x100_0000,
        decreases 23 - sh,
    {
        sh = sh + 1;
    }
    let p: u32 = 1u32 << sh;
    let diff: u32 = frac - p;
    let mantissa: u32 = diff << (23 - sh);
    proof {
        assert(mantissa < 0x80_0000) by (bit_vector)
            requires
                sh <= 23u32,
                p == 1u32 << sh,
                p <= frac,
                frac < 0x100_0000u32,
                sh < 23u32 ==> frac < (1u32 << ((sh + 1) as u32)),
                diff == (frac - p) as u32,
                mantissa == diff << ((23u32 - sh) as u32),
        ;
    }
    let result: u32 = (103 + sh) * 0x80_0000 + mantissa;
    proof {
        assert(frac < 2 * p) by (bit_vector)
            requires
                sh <= 23u32,
                p == 1u32 << sh,
                frac < 0x100_0000u32,
                sh < 23u32 ==> frac < (1u32 << ((sh + 1) as u32)),
        ;
        lemma_unit_encoding(frac as int, sh, p, diff, mantissa, result);
    }
    result
}

/// The normalised pattern built from a 24-bit fraction encodes exactly that
/// fraction of 2^24, counted in units of 2^-149.
proof fn lemma_unit_encoding(frac: int, sh: u32, p: u32, diff: u32, mantissa: u32, result: u32)
    requires
        sh <= 23,
        p == 1u32 << sh,
        p <= frac < 0x100_0000,
        frac < 2 * p,
        diff == frac - p,
        mantissa == diff << ((23u32 - sh) as u32),
        mantissa < 0x80_0000,
        result == (103 + sh) * 0x80_0000 + mantissa,
    ensures
        scaled_value(result) == frac * pow2(125),
{
    let q = pow2((23 - sh) as nat) as int;
    let p102 = pow2((102 + sh) as nat) as int;
    let p125 = pow2(125) as int;
    vstd::arithmetic::power2::lemma2_to64();
    assert(pow2(sh as nat) <= pow2(23)) by {
        if sh < 23 {
            lemma_pow2_strictly_increases(sh as nat, 23);
        }
    }
    vstd::bits::lemma_u32_shl_is_mul(1u32, sh);
    assert(p == pow2(sh as nat));
    assert(p * q == 0x80_0000) by {
        vstd::arithmetic::power2::lemma_pow2_adds(sh as nat, (23 - sh) as nat);
    }
    assert(diff * q <= (p - 1) * q && (p - 1) * q == p * q - q) by (nonlinear_arith)
        requires
            diff <= p - 1,
            q >= 0,
    ;
    vstd::bits::lemma_u32_shl_is_mul(diff, (23 - sh) as u32);
    assert(mantissa == diff * q);
    assert(q * p102 == p125) by {
        vstd::arithmetic::power2::lemma_pow2_adds((23 - sh) as nat, (102 + sh) as nat);
    }
    // The field decomposition of the result.
    assert(!sign_bits(result));
    assert(exponent_bits(result) == 103 + sh && fraction_bits(result) == mantissa) by {
        vstd::arithmetic::div_mod::lemma_fundamental_div_mod_converse(
            result as int,
            0x80_0000,
            (103 + sh) as int,
            mantissa as int,
        );
    }
    assert((0x80_0000 + mantissa) * p102 == frac * p125) by (nonlinear_arith)
        requires
            0x80_0000 == p * q,
            mantissa == diff * q,
            p + diff == frac,
            q * p102 == p125,
    ;
}

} // verus!
