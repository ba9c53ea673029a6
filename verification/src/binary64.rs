//! The numbers that IEEE 754 binary64 bit patterns denote, as far as angles need
//! them: which whole number of units a pattern rounds to, and which pattern
//! denotes a whole number of units.
//!
//! A pattern is what `f64::to_bits` returns: one sign bit, eleven exponent bits
//! and 52 fraction bits. A finite pattern denotes its significand times a power
//! of two. The smallest positive binary64 number is 2^-1074, so every finite
//! magnitude is a whole multiple of 2^-1074, and one unit of angle, 2^-45, is
//! 2^1029 of those.

use vstd::prelude::*;
use vstd::arithmetic::div_mod::{
    lemma_basic_div, lemma_div_is_ordered, lemma_div_multiples_vanish,
    lemma_div_multiples_vanish_quotient, lemma_fundamental_div_mod, lemma_small_mod,
    lemma_truncate_middle,
};
use vstd::arithmetic::power2::{
    lemma2_to64_rest, lemma_pow2_adds, lemma_pow2_pos, lemma_pow2_strictly_increases,
    lemma_pow2_unfold, pow2,
};
use crate::grid::LNG_LIMIT;

verus! {

/// The sign bit: 2^63.
pub const SIGN_BIT: u64 = 0x8000_0000_0000_0000;

/// The leading one of a normal significand, which the pattern does not store:
/// 2^52.
pub const HIDDEN_BIT: u64 = 0x0010_0000_0000_0000;

/// Whether the sign bit is set.
pub open spec fn is_negative(bits: u64) -> bool {
    bits >= SIGN_BIT
}

/// The exponent field.
pub open spec fn exponent_of(bits: u64) -> nat {
    (bits / HIDDEN_BIT % 2048) as nat
}

/// The fraction field.
pub open spec fn fraction_of(bits: u64) -> nat {
    (bits % HIDDEN_BIT) as nat
}

/// Whether the pattern denotes a number, zero included, and neither an infinity
/// nor a NaN.
pub open spec fn is_finite(bits: u64) -> bool {
    exponent_of(bits) != 2047
}

/// Whether the pattern is a NaN.
pub open spec fn is_nan(bits: u64) -> bool {
    exponent_of(bits) == 2047 && fraction_of(bits) != 0
}

/// The significand of a finite pattern: the fraction, with the hidden bit in
/// front unless the number is subnormal.
pub open spec fn significand_of(bits: u64) -> nat {
    if exponent_of(bits) == 0 {
        fraction_of(bits)
    } else {
        HIDDEN_BIT as nat + fraction_of(bits)
    }
}

/// The power of two by which the significand of a finite pattern counts
/// multiples of 2^-1074.
pub open spec fn scale_of(bits: u64) -> nat {
    if exponent_of(bits) == 0 {
        0
    } else {
        (exponent_of(bits) - 1) as nat
    }
}

/// The magnitude of a finite pattern in multiples of 2^-1074.
pub open spec fn magnitude_of(bits: u64) -> nat {
    significand_of(bits) * pow2(scale_of(bits))
}

/// One unit of angle in multiples of 2^-1074.
pub open spec fn unit() -> nat {
    pow2(1029)
}

/// The number that a finite pattern denotes, in multiples of 2^-1074.
pub open spec fn scaled_of(bits: u64) -> int {
    if is_negative(bits) {
        -(magnitude_of(bits) as int)
    } else {
        magnitude_of(bits) as int
    }
}

/// Whether the pattern denotes exactly `units` units. Zero is denoted by the
/// pattern of positive zero only.
pub open spec fn denotes(bits: u64, units: int) -> bool {
    &&& is_finite(bits)
    &&& units == 0 ==> bits == 0
    &&& units >= 0 ==> !is_negative(bits) && magnitude_of(bits) == units * unit()
    &&& units < 0 ==> is_negative(bits) && magnitude_of(bits) == -units * unit()
}

/// Whether the number that the pattern denotes is greater than `units` units.
/// A NaN is greater than nothing, positive infinity greater than everything.
pub open spec fn exceeds(bits: u64, units: int) -> bool {
    if is_nan(bits) {
        false
    } else if !is_finite(bits) {
        !is_negative(bits)
    } else {
        scaled_of(bits) > units * unit()
    }
}

/// A finite pattern rounded up to whole units: the least whole number of units
/// that is not below the number.
pub open spec fn rounded_up(bits: u64) -> int {
    let whole = (magnitude_of(bits) / unit()) as int;
    if is_negative(bits) {
        -whole
    } else if magnitude_of(bits) % unit() == 0 {
        whole
    } else {
        whole + 1
    }
}

/// A number of units limited to the range from -180 to 180 degrees.
pub open spec fn limited(units: int) -> int {
    if units < -LNG_LIMIT {
        -LNG_LIMIT
    } else if units > LNG_LIMIT {
        LNG_LIMIT as int
    } else {
        units
    }
}

/// The angle that a pattern is read as: the number rounded up to whole units
/// and limited to the range from -180 to 180 degrees. The infinities are read
/// as the bound on their side, and a NaN as -180 degrees.
pub open spec fn angle_of(bits: u64) -> int {
    if is_nan(bits) {
        -LNG_LIMIT
    } else if !is_finite(bits) {
        if is_negative(bits) {
            -LNG_LIMIT
        } else {
            LNG_LIMIT as int
        }
    } else {
        limited(rounded_up(bits))
    }
}

/// Dividing a magnitude by the unit is dividing the significand by the power
/// of two that the scale leaves of the unit.
pub proof fn lemma_scaled_division(significand: nat, scale: nat, shift: nat)
    requires
        scale + shift == 1029,
    ensures
        pow2(shift) > 0,
        (significand * pow2(scale)) / unit() == significand / pow2(shift),
        ((significand * pow2(scale)) % unit() == 0) <==> (significand % pow2(shift) == 0),
{
    let p = pow2(scale) as int;
    let d = pow2(shift) as int;
    let s = significand as int;
    lemma_pow2_adds(scale, shift);
    lemma_pow2_pos(scale);
    lemma_pow2_pos(shift);
    assert(unit() == p * d);
    lemma_div_multiples_vanish_quotient(p, s, d);
    lemma_truncate_middle(s, p, d);
    assert(s * p == p * s) by (nonlinear_arith);
    assert((p * (s % d) == 0) <==> (s % d == 0)) by (nonlinear_arith)
        requires
            p > 0,
    ;
}

/// A significand below a power of two divides to zero with itself as the
/// remainder.
pub proof fn lemma_small_significand(significand: nat, shift: nat)
    requires
        significand < 0x20_0000_0000_0000,
        shift >= 53,
    ensures
        significand / pow2(shift) == 0,
        significand % pow2(shift) == significand,
{
    lemma2_to64_rest();
    if shift > 53 {
        lemma_pow2_strictly_increases(53, shift);
    }
    lemma_basic_div(significand as int, pow2(shift) as int);
    lemma_small_mod(significand, pow2(shift));
}

/// A normal number with an exponent field above 1030 is at least 256 degrees in
/// magnitude, beyond the limit on either side.
pub proof fn lemma_large_magnitude(bits: u64)
    requires
        1030 < exponent_of(bits) < 2047,
    ensures
        magnitude_of(bits) / unit() >= 0x20_0000_0000_0000,
        limited(rounded_up(bits)) == if is_negative(bits) {
            -LNG_LIMIT
        } else {
            LNG_LIMIT as int
        },
{
    let s = significand_of(bits) as int;
    let scale = scale_of(bits);
    let u = unit() as int;
    lemma_pow2_pos(1029);
    lemma_pow2_unfold(1030);
    if scale > 1030 {
        lemma_pow2_strictly_increases(1030, scale);
    }
    let p = pow2(scale) as int;
    assert(p >= 2 * u);
    assert(s >= 0x10_0000_0000_0000);
    assert(s * p >= 0x20_0000_0000_0000 * u) by (nonlinear_arith)
        requires
            s >= 0x10_0000_0000_0000,
            p >= 2 * u,
            u > 0,
    ;
    lemma_div_is_ordered(0x20_0000_0000_0000 * u, s * p, u);
    lemma_div_multiples_vanish(0x20_0000_0000_0000, u);
    assert(u * 0x20_0000_0000_0000 == 0x20_0000_0000_0000 * u) by (nonlinear_arith);
}

/// The pattern of positive zero denotes zero.
pub proof fn lemma_zero_denotes_zero()
    ensures
        denotes(0, 0),
{
    assert(magnitude_of(0) == 0) by (nonlinear_arith)
        requires
            magnitude_of(0) == 0 * pow2(0),
    ;
    assert(0 * unit() == 0) by (nonlinear_arith);
}

/// Doubling a significand below the hidden bit while lowering the exponent by
/// one keeps the magnitude, and the exponent stays at 978 or above: the
/// significand has at least `1030 - exponent` binary digits after the first.
pub proof fn lemma_normalise_step(significand: nat, exponent: nat)
    requires
        0 < significand < HIDDEN_BIT,
        1 <= exponent <= 1030,
        significand >= pow2((1030 - exponent) as nat),
    ensures
        exponent >= 979,
        2 * significand >= pow2((1030 - (exponent - 1)) as nat),
        (2 * significand) * pow2((exponent - 2) as nat) == significand * pow2((exponent - 1) as nat),
{
    lemma2_to64_rest();
    let above = (1030 - exponent) as nat;
    if above >= 52 {
        if above > 52 {
            lemma_pow2_strictly_increases(52, above);
        }
        assert(false);
    }
    lemma_pow2_unfold(above + 1);
    lemma_pow2_unfold((exponent - 1) as nat);
    let lower = pow2((exponent - 2) as nat) as int;
    let s = significand as int;
    assert((2 * s) * lower == s * (2 * lower)) by (nonlinear_arith);
}

/// Rounding a finite number up to whole units keeps its order against every
/// whole number of units.
pub proof fn lemma_rounded_up_order(bits: u64, units: int)
    requires
        is_finite(bits),
    ensures
        rounded_up(bits) > units <==> exceeds(bits, units),
{
    let m = magnitude_of(bits) as int;
    let u = unit() as int;
    let q = m / u;
    let r = m % u;
    lemma_pow2_pos(1029);
    lemma_fundamental_div_mod(m, u);
    assert(0 <= r < u);
    let t = units;
    if is_negative(bits) {
        assert((-q > t) <==> (-m > t * u)) by (nonlinear_arith)
            requires
                m == u * q + r,
                0 <= r < u,
        ;
    } else if r == 0 {
        assert((q > t) <==> (m > t * u)) by (nonlinear_arith)
            requires
                m == u * q + r,
                r == 0,
                u > 0,
        ;
    } else {
        assert((q + 1 > t) <==> (m > t * u)) by (nonlinear_arith)
            requires
                m == u * q + r,
                0 < r < u,
        ;
    }
}

/// Reading a pattern as an angle keeps its order against every whole number of
/// units from -180 degrees up to, but not including, 180 degrees: the angle is
/// greater than such a number of units exactly if the number itself is. So the
/// bisection of an axis, whose midpoints are all of that kind, emits for the
/// angle the bits that it would emit for the number.
pub proof fn theorem_reading_keeps_order(bits: u64, units: int)
    requires
        -LNG_LIMIT <= units < LNG_LIMIT,
    ensures
        angle_of(bits) > units <==> exceeds(bits, units),
{
    if is_finite(bits) {
        lemma_rounded_up_order(bits, units);
        lemma_rounded_up_order(bits, LNG_LIMIT as int);
        lemma_rounded_up_order(bits, -LNG_LIMIT - 1);
    }
}

/// A pattern that denotes an angle is read as that angle: writing an angle and
/// reading it again gives the angle back.
pub proof fn theorem_denoted_is_read(bits: u64, units: int)
    requires
        denotes(bits, units),
        -LNG_LIMIT <= units <= LNG_LIMIT,
    ensures
        angle_of(bits) == units,
{
    let u = unit() as int;
    lemma_pow2_pos(1029);
    let a = if units < 0 { -units } else { units };
    assert(magnitude_of(bits) == a * u);
    lemma_div_multiples_vanish(a, u);
    assert(a * u == u * a) by (nonlinear_arith);
    assert((u * a) % u == 0) by {
        lemma_fundamental_div_mod(u * a, u);
    }
}

/// No two patterns denote the same angle.
pub proof fn theorem_denotes_one_pattern(first: u64, second: u64, units: int)
    requires
        denotes(first, units),
        denotes(second, units),
    ensures
        first == second,
{
    if units != 0 {
        let u = unit() as int;
        lemma_pow2_pos(1029);
        let a = if units < 0 { -units } else { units };
        assert(a * u > 0) by (nonlinear_arith)
            requires
                a > 0,
                u > 0,
        ;
        lemma_same_magnitude(first, second);
        lemma_fields_make_pattern(first);
        lemma_fields_make_pattern(second);
    }
}

/// A pattern is made of its three fields.
proof fn lemma_fields_make_pattern(bits: u64)
    ensures
        bits == (if is_negative(bits) { SIGN_BIT as int } else { 0 }) + exponent_of(bits) * HIDDEN_BIT + fraction_of(bits),
{
}

/// Two finite patterns of the same positive magnitude have the same exponent
/// and fraction fields.
proof fn lemma_same_magnitude(first: u64, second: u64)
    requires
        is_finite(first),
        is_finite(second),
        magnitude_of(first) == magnitude_of(second),
        magnitude_of(first) > 0,
    ensures
        exponent_of(first) == exponent_of(second),
        fraction_of(first) == fraction_of(second),
{
    let s1 = significand_of(first) as int;
    let s2 = significand_of(second) as int;
    let e1 = scale_of(first);
    let e2 = scale_of(second);
    if e1 < e2 {
        lemma_scales_differ(s1, e1, s2, e2);
    } else if e2 < e1 {
        lemma_scales_differ(s2, e2, s1, e1);
    } else {
        lemma_pow2_pos(e1);
        let p = pow2(e1) as int;
        assert(s1 == s2) by (nonlinear_arith)
            requires
                s1 * p == s2 * p,
                p > 0,
        ;
    }
}

/// A significand with the hidden bit, scaled higher than another significand,
/// gives a greater magnitude.
proof fn lemma_scales_differ(low: int, low_scale: nat, high: int, high_scale: nat)
    requires
        0 <= low < 2 * HIDDEN_BIT,
        HIDDEN_BIT <= high,
        low_scale < high_scale,
    ensures
        low * pow2(low_scale) < high * pow2(high_scale),
{
    let p = pow2(low_scale) as int;
    let g = pow2(high_scale) as int;
    lemma_pow2_pos(low_scale);
    lemma_pow2_unfold(low_scale + 1);
    if low_scale + 1 < high_scale {
        lemma_pow2_strictly_increases(low_scale + 1, high_scale);
    }
    assert(g >= 2 * p);
    assert(low * p < high * g) by (nonlinear_arith)
        requires
            0 <= low < 2 * HIDDEN_BIT,
            HIDDEN_BIT <= high,
            g >= 2 * p,
            p > 0,
    ;
}

} // verus!
