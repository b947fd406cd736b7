//! Single-precision numbers as bit patterns: order, classification and bf16 conversion.

use vstd::arithmetic::power2::{
    lemma_pow2_pos, lemma_pow2_strictly_increases, lemma_pow2_unfold, pow2,
};
use vstd::prelude::*;

verus! {

/// The pattern without its sign bit.
pub open spec fn magnitude(bits: u32) -> int {
    bits as int % 0x8000_0000
}

pub open spec fn is_negative(bits: u32) -> bool {
    bits >= 0x8000_0000
}

pub open spec fn is_nan(bits: u32) -> bool {
    magnitude(bits) > 0x7F80_0000
}

pub open spec fn is_finite(bits: u32) -> bool {
    magnitude(bits) < 0x7F80_0000
}

/// An integer that orders the patterns that are not NaN as the numbers they stand for.
pub open spec fn order_key(bits: u32) -> int {
    if is_negative(bits) {
        -magnitude(bits)
    } else {
        magnitude(bits)
    }
}

/// The comparison `a < b` of two numbers; false if either is NaN.
pub open spec fn float_lt(a: u32, b: u32) -> bool {
    !is_nan(a) && !is_nan(b) && order_key(a) < order_key(b)
}

/// The comparison `a <= b` of two numbers; false if either is NaN.
pub open spec fn float_le(a: u32, b: u32) -> bool {
    !is_nan(a) && !is_nan(b) && order_key(a) <= order_key(b)
}

/// The pattern of the absolute value.
pub open spec fn abs_bits(bits: u32) -> u32 {
    magnitude(bits) as u32
}

/// The absolute value of a finite number with magnitude bits `m`, in units of 2^-149.
pub open spec fn scaled_abs(m: int) -> int {
    let exponent = m / 0x80_0000;
    let fraction = m % 0x80_0000;
    if exponent == 0 {
        fraction
    } else {
        (0x80_0000 + fraction) * pow2((exponent - 1) as nat)
    }
}

/// The value of a finite number, in units of 2^-149.
pub open spec fn scaled_value(bits: u32) -> int {
    if is_negative(bits) {
        -scaled_abs(magnitude(bits))
    } else {
        scaled_abs(magnitude(bits))
    }
}

proof fn lemma_scaled_abs_increases(m1: int, m2: int)
    requires
        0 <= m1 < m2,
    ensures
        0 <= scaled_abs(m1) < scaled_abs(m2),
{
    let (e1, f1) = (m1 / 0x80_0000, m1 % 0x80_0000);
    let (e2, f2) = (m2 / 0x80_0000, m2 % 0x80_0000);
    assert(e1 < e2 || (e1 == e2 && f1 < f2));
    if e2 > 0 {
        let p2 = pow2((e2 - 1) as nat) as int;
        lemma_pow2_pos((e2 - 1) as nat);
        assert((0x80_0000 + f2) * p2 >= 0x80_0000 * p2) by (nonlinear_arith)
            requires
                p2 > 0,
                f2 >= 0,
        ;
        if e1 == 0 {
            assert(0x80_0000 * p2 >= 0x80_0000) by (nonlinear_arith)
                requires
                    p2 >= 1,
            ;
        } else {
            let p1 = pow2((e1 - 1) as nat) as int;
            lemma_pow2_pos((e1 - 1) as nat);
            assert((0x80_0000 + f1) * p1 >= 0) by (nonlinear_arith)
                requires
                    p1 > 0,
                    f1 >= 0,
            ;
            if e1 == e2 {
                assert((0x80_0000 + f1) * p1 < (0x80_0000 + f2) * p1) by (nonlinear_arith)
                    requires
                        p1 > 0,
                        f1 < f2,
                ;
            } else {
                lemma_pow2_unfold(e1 as nat);
                if e1 < e2 - 1 {
                    lemma_pow2_strictly_increases(e1 as nat, (e2 - 1) as nat);
                }
                assert(2 * p1 <= p2);
                assert((0x80_0000 + f1) * p1 < 0x80_0000 * p2) by (nonlinear_arith)
                    requires
                        p1 > 0,
                        f1 < 0x80_0000,
                        2 * p1 <= p2,
                ;
            }
        }
    }
}

/// The order of the integer keys is the order of the numbers, and the two zeros are equal.
pub proof fn law_order_key_is_numeric_order(a: u32, b: u32)
    requires
        is_finite(a),
        is_finite(b),
    ensures
        order_key(a) < order_key(b) <==> scaled_value(a) < scaled_value(b),
        order_key(a) == order_key(b) <==> scaled_value(a) == scaled_value(b),
{
    let (ma, mb) = (magnitude(a), magnitude(b));
    assert(scaled_abs(0) == 0);
    if ma < mb {
        lemma_scaled_abs_increases(ma, mb);
    } else if mb < ma {
        lemma_scaled_abs_increases(mb, ma);
    }
    if ma > 0 {
        lemma_scaled_abs_increases(0, ma);
    }
    if mb > 0 {
        lemma_scaled_abs_increases(0, mb);
    }
}

/// Whether the pattern is NaN.
pub fn f32_is_nan(bits: u32) -> (r: bool)
    ensures
        r == is_nan(bits),
{
    bits % 0x8000_0000 > 0x7F80_0000
}

/// The comparison `a < b`.
pub fn f32_lt(a: u32, b: u32) -> (r: bool)
    ensures
        r == float_lt(a, b),
{
    let ma: u32 = a % 0x8000_0000;
    let mb: u32 = b % 0x8000_0000;
    if ma > 0x7F80_0000 || mb > 0x7F80_0000 {
        return false;
    }
    if a >= 0x8000_0000 {
        if b >= 0x8000_0000 {
            mb < ma
        } else {
            ma > 0 || mb > 0
        }
    } else if b >= 0x8000_0000 {
        false
    } else {
        ma < mb
    }
}

/// The comparison `a <= b`.
pub fn f32_le(a: u32, b: u32) -> (r: bool)
    ensures
        r == float_le(a, b),
{
    let ma: u32 = a % 0x8000_0000;
    let mb: u32 = b % 0x8000_0000;
    if ma > 0x7F80_0000 || mb > 0x7F80_0000 {
        return false;
    }
    if a >= 0x8000_0000 {
        if b >= 0x8000_0000 {
            mb <= ma
        } else {
            true
        }
    } else if b >= 0x8000_0000 {
        ma == 0 && mb == 0
    } else {
        ma <= mb
    }
}

/// The pattern of the absolute value.
pub fn f32_abs(bits: u32) -> (r: u32)
    ensures
        r == abs_bits(bits),
{
    bits % 0x8000_0000
}

/// The single-precision pattern of a bf16 number: its 16 bits followed by zeros.
pub fn bf16_to_f32(bf16: u16) -> (bits: u32)
    ensures
        bits == bf16 * 0x1_0000,
{
    let w: u32 = bf16 as u32;
    assert(w << 16 == w * 0x1_0000) by (bit_vector)
        requires
            w <= 0xFFFF,
    ;
    w << 16
}

/// The bf16 number that keeps the upper half of a single-precision pattern.
pub fn f32_to_bf16(bits: u32) -> (r: u16)
    ensures
        r == bits / 0x1_0000,
{
    assert(bits >> 16 == bits / 0x1_0000) by (bit_vector);
    (bits >> 16) as u16
}

/// Widening a bf16 number and truncating it again gives the number back.
pub proof fn law_bf16_round_trip(x: u16)
    ensures
        (x * 0x1_0000) / 0x1_0000 == x,
{
}

/// Storing a number as bf16 never enlarges it: the truncated pattern, widened again, has the
/// same sign and no larger magnitude, and the magnitude is off by less than one bf16 step.
pub proof fn law_bf16_truncation(bits: u32)
    ensures
        ({
            let back = (bits / 0x1_0000 * 0x1_0000) as u32;
            &&& is_negative(back) == is_negative(bits)
            &&& magnitude(back) <= magnitude(bits) < magnitude(back) + 0x1_0000
        }),
{
}

} // verus!
