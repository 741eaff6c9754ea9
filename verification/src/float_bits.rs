//! Conversions between floating-point formats, on bit patterns.
//!
//! Numbers of single precision are held as `u32`, those of the two 16-bit
//! formats as `u16`.

use vstd::prelude::*;
use vstd::arithmetic::power2::*;

verus! {

/// Whether a bfloat16 pattern is not a number.
pub open spec fn bf16_is_nan(b: u16) -> bool {
    b % 0x8000 > 0x7F80
}

/// Whether a single-precision pattern is not a number.
pub open spec fn single_is_nan(x: u32) -> bool {
    x % 0x8000_0000 > 0x7F80_0000
}

/// The single-precision pattern of a bfloat16: the same high half above zeros,
/// made quiet where it is not a number.
pub open spec fn bf16_widened(b: u16) -> u32 {
    if bf16_is_nan(b) {
        ((b | 0x40) * 0x1_0000) as u32
    } else {
        (b * 0x1_0000) as u32
    }
}

/// The bfloat16 nearest to a single-precision number, the even one of two
/// that are equally near; a pattern that is not a number keeps its high half
/// and is made quiet.
pub open spec fn bf16_narrowed(x: u32) -> u16 {
    let high = x / 0x1_0000;
    let low = x % 0x1_0000;
    if single_is_nan(x) {
        (high | 0x40) as u16
    } else if low > 0x8000 || (low == 0x8000 && high % 2 == 1) {
        (high + 1) as u16
    } else {
        high as u16
    }
}

/// Exponent and fraction of a finite single-precision number whose
/// significand is `man` in units of the tenth bit below the leading one:
/// `man` is doubled until that bit is reached.
pub open spec fn normalized(man: nat, exp: int) -> int
    decreases 2048 - man,
{
    if man == 0 || man >= 1024 {
        exp * 0x80_0000 + (man - 1024) * 8192
    } else {
        normalized(2 * man, exp - 1)
    }
}

/// The single-precision pattern of a half-precision number, made quiet where
/// it is not a number.
pub open spec fn half_widened(h: u16) -> u32 {
    let sign = (h as int / 0x8000) * 0x8000_0000;
    let exp = (h as int / 1024) % 32;
    let man = (h % 1024) as nat;
    if exp == 31 {
        if man == 0 {
            (sign + 0x7F80_0000) as u32
        } else {
            (sign + 0x7F80_0000 + ((h % 1024) | 0x200) * 8192) as u32
        }
    } else if exp == 0 && man == 0 {
        sign as u32
    } else if exp == 0 {
        (sign + normalized(man, 113)) as u32
    } else {
        (sign + normalized(man + 1024, exp + 112)) as u32
    }
}

/// The magnitude of a finite half-precision number, in units of its smallest
/// positive value.
pub open spec fn half_magnitude(h: u16) -> nat {
    let exp = (h as nat / 1024) % 32;
    let man = (h % 1024) as nat;
    if exp == 0 {
        man
    } else {
        (man + 1024) * pow2((exp - 1) as nat)
    }
}

/// The magnitude of a finite single-precision number, in units of its smallest
/// positive value.
pub open spec fn single_magnitude(x: u32) -> nat {
    let exp = (x as nat / 0x80_0000) % 256;
    let man = (x % 0x80_0000) as nat;
    if exp == 0 {
        man
    } else {
        (man + 0x80_0000) * pow2((exp - 1) as nat)
    }
}

/// Widens a bfloat16 to single precision.
///
/// This is `half::bf16::to_f32`, of which is claimed that the pattern moves to
/// the high half of a word of zeros, with the highest fraction bit set where
/// the number is a NaN.
#[verifier::external_body]
pub(crate) fn widen_bf16(bits: u16) -> (r: u32)
    ensures
        r == bf16_widened(bits),
{
    half::bf16::from_bits(bits).to_f32().to_bits()
}

/// Rounds a single-precision number to bfloat16.
pub fn narrow_to_bf16(x: u32) -> (r: u16)
    ensures
        r == bf16_narrowed(x),
{
    let high: u32 = x / 0x1_0000;
    let low: u32 = x % 0x1_0000;
    if x % 0x8000_0000 > 0x7F80_0000 {
        (high | 0x40) as u16
    } else if low > 0x8000 || (low == 0x8000 && high % 2 == 1) {
        (high + 1) as u16
    } else {
        high as u16
    }
}

proof fn lemma_normalized_range(man: nat, exp: int)
    requires
        0 < man < 2048,
        man < 1024 ==> exp == 113 || man >= pow2((113 - exp) as nat) && 103 <= exp <= 113,
        man >= 1024 ==> 102 < exp < 255,
    ensures
        0x80_0000 <= normalized(man, exp) < 0x7F80_0000,
    decreases 2048 - man,
{
    lemma2_to64();
    if man < 1024 {
        lemma_pow2_unfold((114 - exp) as nat);
        lemma_normalized_range(2 * man, exp - 1);
    }
}

/// Widens a half-precision number to single precision.
pub fn widen_f16(h: u16) -> (r: u32)
    ensures
        r == half_widened(h),
{
    let sign: u32 = (h as u32 / 0x8000) * 0x8000_0000;
    let mut exp: u32 = (h as u32 / 1024) % 32;
    let mut man: u32 = h as u32 % 1024;
    if exp == 31 {
        if man == 0 {
            return sign + 0x7F80_0000;
        }
        let payload: u16 = (h % 1024) | 0x200;
        proof {
            let m = h % 1024;
            assert(m < 1024 ==> (m | 0x200) < 1024) by (bit_vector);
        }
        return sign + 0x7F80_0000 + payload as u32 * 8192;
    }
    if exp == 0 {
        if man == 0 {
            return sign;
        }
        exp = 113;
    } else {
        exp = exp + 112;
        man = man + 1024;
    }
    proof {
        lemma2_to64();
        lemma_normalized_range(man as nat, exp as int);
    }
    let ghost target = normalized(man as nat, exp as int);
    while man < 1024
        invariant
            0 < man < 2048,
            102 < exp < 255,
            man < 1024 ==> exp <= 113 && man >= pow2((113 - exp) as nat),
            target == normalized(man as nat, exp as int),
        decreases 2048 - man,
    {
        proof {
            lemma2_to64();
            lemma_pow2_unfold((114 - exp) as nat);
        }
        man = man * 2;
        exp = exp - 1;
    }
    sign + exp * 0x80_0000 + (man - 1024) * 8192
}

/// Widening a bfloat16 and rounding it again gives it back, made quiet where
/// it is not a number.
pub proof fn law_bf16_round_trip(b: u16)
    ensures
        b % 0x8000 <= 0x7F80 ==> bf16_narrowed(bf16_widened(b)) == b,
        b % 0x8000 > 0x7F80 ==> bf16_narrowed(bf16_widened(b)) == b | 0x40,
{
    if bf16_is_nan(b) {
        assert(((b | 0x40) as u32) | 0x40 == (b | 0x40) as u32) by (bit_vector);
    }
}

/// No bfloat16 pattern is nearer to a number than the one it is rounded to,
/// and of two that are equally near the even one is taken.
///
/// Nearness is that of patterns: between two neighbouring bfloat16 numbers
/// the single-precision numbers, and their patterns, are evenly spaced.
pub proof fn law_bf16_nearest(x: u32, c: u16)
    requires
        x % 0x8000_0000 <= 0x7F80_0000,
    ensures
        vstd::math::abs(bf16_narrowed(x) * 0x1_0000 - x) <= vstd::math::abs(c * 0x1_0000 - x),
        c != bf16_narrowed(x) && vstd::math::abs(bf16_narrowed(x) * 0x1_0000 - x)
            == vstd::math::abs(c * 0x1_0000 - x) ==> bf16_narrowed(x) % 2 == 0,
{
}

proof fn lemma_normalized_value(man: nat, exp: int)
    requires
        0 < man < 2048,
        man < 1024 ==> exp == 113 || man >= pow2((113 - exp) as nat) && 103 <= exp <= 113,
        man >= 1024 ==> 102 < exp < 255,
    ensures
        0x80_0000 <= normalized(man, exp) < 0x7F80_0000,
        single_magnitude(normalized(man, exp) as u32) == man * pow2((exp + 12) as nat),
    decreases 2048 - man,
{
    lemma_normalized_range(man, exp);
    lemma2_to64();
    if man < 1024 {
        lemma_pow2_unfold((114 - exp) as nat);
        lemma_normalized_value(2 * man, exp - 1);
        lemma_pow2_unfold((exp + 12) as nat);
        let p = pow2((exp + 11) as nat);
        assert((2 * man) * p == man * (2 * p)) by (nonlinear_arith);
    } else {
        let p = pow2((exp - 1) as nat);
        lemma_pow2_adds(13, (exp - 1) as nat);
        assert(((man - 1024) * 8192 + 0x80_0000) * p == man * (8192 * p)) by (nonlinear_arith);
    }
}

/// Widening a finite half-precision number keeps its sign and its value: the
/// smallest positive half-precision number is 2^125 times the smallest
/// positive one of single precision.
pub proof fn law_half_lossless(h: u16)
    requires
        (h as int / 1024) % 32 != 31,
    ensures
        half_widened(h) / 0x8000_0000 == (h / 0x8000) as u32,
        half_widened(h) % 0x8000_0000 < 0x7F80_0000,
        single_magnitude(half_widened(h)) == half_magnitude(h) * pow2(125),
{
    lemma2_to64();
    let exp = (h as int / 1024) % 32;
    let man = (h % 1024) as nat;
    if exp == 0 && man == 0 {
        assert(0 * pow2(125) == 0);
    } else {
        let (m, e) = if exp == 0 {
            (man, 113int)
        } else {
            ((man + 1024) as nat, exp + 112)
        };
        lemma_normalized_value(m, e);
        if exp != 0 {
            lemma_pow2_adds((exp - 1) as nat, 125);
            let a = pow2((exp - 1) as nat);
            let b = pow2(125);
            assert(m * (a * b) == (m * a) * b) by (nonlinear_arith);
        }
    }
}

/// A bfloat16 that is a number is the high half of its single-precision
/// pattern; one that is not keeps its high half, with the highest bit of the
/// fraction set.
pub proof fn law_bf16_is_high_half(b: u16)
    ensures
        b % 0x8000 <= 0x7F80 ==> bf16_widened(b) == b * 0x1_0000,
        b % 0x8000 > 0x7F80 ==> bf16_widened(b) == (b | 0x40) * 0x1_0000,
{
}

/// What is not a number stays so when it is rounded, and keeps its sign and the
/// high bits of its fraction.
pub proof fn law_nan_stays_nan(x: u32)
    requires
        x % 0x8000_0000 > 0x7F80_0000,
    ensures
        bf16_narrowed(x) == (x / 0x1_0000) | 0x40,
        bf16_narrowed(x) % 0x8000 > 0x7F80,
{
    let high = x / 0x1_0000;
    assert(high < 0x1_0000 && high % 0x8000 >= 0x7F80 ==> (high | 0x40) < 0x1_0000 && (high | 0x40)
        % 0x8000 > 0x7F80) by (bit_vector);
}

/// An infinite half-precision number stays infinite and keeps its sign; what is
/// not a number stays so, with the highest bit of the fraction set.
pub proof fn law_half_special(h: u16)
    requires
        (h as int / 1024) % 32 == 31,
    ensures
        h % 1024 == 0 ==> half_widened(h) == (h as int / 0x8000) * 0x8000_0000 + 0x7F80_0000,
        h % 1024 != 0 ==> half_widened(h) == (h as int / 0x8000) * 0x8000_0000 + 0x7F80_0000 + ((h
            % 1024) | 0x200) * 8192,
{
    let m = h % 1024;
    assert(m < 1024 ==> (m | 0x200) < 1024) by (bit_vector);
}

} // verus!
