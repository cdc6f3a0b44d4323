//! IEEE 754 binary32 numbers, held by their bit patterns.
//!
//! A pattern has a sign bit, eight exponent bits and twenty-three fraction bits. With an
//! exponent field below 255 it encodes a finite number, whose absolute value is a whole
//! multiple of 2^-149; [`magnitude`] is that multiple.

use vstd::arithmetic::power2::{
    lemma2_to64, lemma_pow2_adds, lemma_pow2_pos, lemma_pow2_strictly_increases, pow2,
};
use vstd::prelude::*;

verus! {

/// The pattern of the number one.
pub const POSITIVE_ONE: u32 = 0x3F80_0000;

/// The pattern of negative zero.
pub const NEGATIVE_ZERO: u32 = 0x8000_0000;

/// Whether the sign bit is set.
pub open spec fn negative(bits: u32) -> bool {
    bits >> 31 == 1
}

/// The exponent field.
pub open spec fn exponent(bits: u32) -> nat {
    ((bits >> 23) & 0xff) as nat
}

/// The fraction field.
pub open spec fn fraction(bits: u32) -> nat {
    (bits & 0x7f_ffff) as nat
}

/// Whether the pattern encodes a number: neither an infinity nor a NaN.
pub open spec fn finite(bits: u32) -> bool {
    exponent(bits) < 255
}

/// The absolute value of the number that a finite pattern encodes, in units of 2^-149.
///
/// A subnormal pattern (exponent field 0) encodes `fraction` units. A normal one encodes
/// `(2^23 + fraction) * 2^(exponent - 1)` units.
pub open spec fn magnitude(bits: u32) -> nat {
    if exponent(bits) == 0 {
        fraction(bits)
    } else {
        (0x80_0000 + fraction(bits)) * pow2((exponent(bits) - 1) as nat)
    }
}

/// The number one, in units of 2^-149.
pub open spec fn unit() -> nat {
    pow2(149)
}

/// Whether the pattern encodes a number `v` with `0 <= v <= 1`. Both zeros do; no negative
/// number, no infinity and no NaN does.
pub open spec fn within_unit(bits: u32) -> bool {
    finite(bits) && (magnitude(bits) == 0 || (!negative(bits) && magnitude(bits) <= unit()))
}

/// Whether the pattern encodes the number `halves / 2`.
pub open spec fn encodes_halves(bits: u32, halves: int) -> bool {
    &&& finite(bits)
    &&& negative(bits) == (halves < 0)
    &&& 2 * magnitude(bits) == (if halves < 0 {
        -halves
    } else {
        halves
    }) * unit()
}

/// A normal number is positive, and it is at most one exactly where its exponent field is
/// below that of one, or it is one itself.
pub proof fn lemma_normal_magnitude(e: nat, f: nat)
    requires
        1 <= e <= 254,
        f < 0x80_0000,
    ensures
        (0x80_0000 + f) * pow2((e - 1) as nat) > 0,
        (0x80_0000 + f) * pow2((e - 1) as nat) <= unit() <==> (e < 127 || (e == 127 && f == 0)),
{
    let scale = pow2((e - 1) as nat);
    let leading: nat = 0x80_0000;
    lemma2_to64();
    lemma_pow2_pos((e - 1) as nat);
    lemma_pow2_adds(23, 126);
    assert(unit() == leading * pow2(126));
    assert((leading + f) * scale > 0) by (nonlinear_arith)
        requires
            scale > 0,
            leading > 0,
    ;
    if e < 127 {
        lemma_pow2_adds(24, (e - 1) as nat);
        assert(pow2(24) == 2 * leading);
        if e + 23 < 149 {
            lemma_pow2_strictly_increases((e + 23) as nat, 149);
        }
        assert((leading + f) * scale <= (2 * leading) * scale) by (nonlinear_arith)
            requires
                f < leading,
                scale > 0,
        ;
    } else if e == 127 {
        assert((leading + f) * scale <= leading * scale <==> f == 0) by (nonlinear_arith)
            requires
                scale > 0,
        ;
    } else {
        lemma_pow2_adds(23, (e - 1) as nat);
        lemma_pow2_strictly_increases(149, (e + 22) as nat);
        assert((leading + f) * scale >= leading * scale) by (nonlinear_arith)
            requires
                scale > 0,
        ;
    }
}

/// The patterns of the closed unit interval are negative zero and, read as unsigned integers,
/// everything from positive zero up to one.
pub proof fn lemma_unit_interval_patterns(bits: u32)
    ensures
        within_unit(bits) <==> (bits <= POSITIVE_ONE || bits == NEGATIVE_ZERO),
{
    let s = bits >> 31;
    let e = (bits >> 23) & 0xff;
    let f = bits & 0x7f_ffff;
    assert(s <= 1 && e <= 255 && f < 0x80_0000) by (bit_vector)
        requires
            s == bits >> 31,
            e == (bits >> 23) & 0xff,
            f == bits & 0x7f_ffff,
    ;
    assert(bits <= 0x3F80_0000u32 <==> (s == 0 && (e < 127 || (e == 127 && f == 0))))
        by (bit_vector)
        requires
            s == bits >> 31,
            e == (bits >> 23) & 0xff,
            f == bits & 0x7f_ffff,
    ;
    assert(bits == 0x8000_0000u32 <==> (s == 1 && e == 0 && f == 0)) by (bit_vector)
        requires
            s == bits >> 31,
            e == (bits >> 23) & 0xff,
            f == bits & 0x7f_ffff,
    ;
    lemma2_to64();
    lemma_pow2_strictly_increases(23, 149);
    if 1 <= e <= 254 {
        lemma_normal_magnitude(e as nat, f as nat);
    }
}

/// The pattern `0x0000_0000` encodes 0.
pub proof fn lemma_encoding_of_zero()
    ensures
        encodes_halves(0x0000_0000, 0),
{
    assert(0x0000_0000u32 >> 31 == 0 && (0x0000_0000u32 >> 23) & 0xff == 0 && 0x0000_0000u32
        & 0x7f_ffff == 0) by (bit_vector);
}

/// The pattern `0x3F80_0000` encodes 1, and `0xBF80_0000` encodes -1.
pub proof fn lemma_encoding_of_one()
    ensures
        encodes_halves(0x3F80_0000, 2),
        encodes_halves(0xBF80_0000, -2),
{
    assert(0x3F80_0000u32 >> 31 == 0 && (0x3F80_0000u32 >> 23) & 0xff == 127 && 0x3F80_0000u32
        & 0x7f_ffff == 0) by (bit_vector);
    assert(0xBF80_0000u32 >> 31 == 1 && (0xBF80_0000u32 >> 23) & 0xff == 127 && 0xBF80_0000u32
        & 0x7f_ffff == 0) by (bit_vector);
    lemma2_to64();
    lemma_pow2_adds(23, 126);
}

/// The pattern `0x3FC0_0000` encodes 1.5, and `0xBFC0_0000` encodes -1.5.
pub proof fn lemma_encoding_of_one_and_a_half()
    ensures
        encodes_halves(0x3FC0_0000, 3),
        encodes_halves(0xBFC0_0000, -3),
{
    assert(0x3FC0_0000u32 >> 31 == 0 && (0x3FC0_0000u32 >> 23) & 0xff == 127 && 0x3FC0_0000u32
        & 0x7f_ffff == 0x40_0000) by (bit_vector);
    assert(0xBFC0_0000u32 >> 31 == 1 && (0xBFC0_0000u32 >> 23) & 0xff == 127 && 0xBFC0_0000u32
        & 0x7f_ffff == 0x40_0000) by (bit_vector);
    lemma2_to64();
    lemma_pow2_adds(23, 126);
    let scale = pow2(126);
    assert(unit() == 0x80_0000 * scale);
    assert(magnitude(0x3FC0_0000) == 0xC0_0000 * scale);
    assert(magnitude(0xBFC0_0000) == 0xC0_0000 * scale);
}

/// The pattern `0x43B4_0000` encodes 360.
pub proof fn lemma_encoding_of_full_turn()
    ensures
        encodes_halves(0x43B4_0000, 720),
{
    assert(0x43B4_0000u32 >> 31 == 0 && (0x43B4_0000u32 >> 23) & 0xff == 135 && 0x43B4_0000u32
        & 0x7f_ffff == 0x34_0000) by (bit_vector);
    lemma2_to64();
    lemma_pow2_adds(15, 134);
    let scale = pow2(134);
    assert(unit() == 0x8000 * scale);
    assert(magnitude(0x43B4_0000) == 0xB4_0000 * scale);
}

/// Whether `bits` encodes a number of the closed unit interval.
pub fn in_unit_interval(bits: u32) -> (inside: bool)
    ensures
        inside == within_unit(bits),
{
    proof {
        lemma_unit_interval_patterns(bits);
    }
    bits <= POSITIVE_ONE || bits == NEGATIVE_ZERO
}

} // verus!
