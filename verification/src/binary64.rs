//! IEEE 754 binary64 numbers, held by their bit patterns.
//!
//! A finite number has the magnitude `significand * 2^scale`. Cutting it down
//! to a `u32` drops the fractional part, and stops at the ends of the range.

use vstd::prelude::*;
use vstd::arithmetic::div_mod::{lemma_basic_div, lemma_div_is_ordered_by_denominator};
use vstd::arithmetic::mul::lemma_mul_inequality;
use vstd::arithmetic::power2::{
    lemma2_to64,
    lemma2_to64_rest,
    lemma_pow2_pos,
    lemma_pow2_strictly_increases,
    pow2,
};
use vstd::bits::lemma_u64_shr_is_div;

verus! {

/// A binary64 number, given by its 64 bits: the sign in bit 63, the biased
/// exponent in bits 52 to 62, the fraction in bits 0 to 51.
///
/// Two of them are equal where their bits are: `0.0` and `-0.0` differ, and
/// a NaN equals itself.
#[derive(Debug, Clone, Copy, PartialEq, Eq)]
pub struct Binary64 {
    pub bits: u64,
}

impl Binary64 {
    /// The sign bit is set. This holds of `-0.0` too.
    pub open spec fn is_negative(self) -> bool {
        self.bits >= 0x8000_0000_0000_0000
    }

    /// The biased exponent, from 0 to 2047.
    pub open spec fn exponent(self) -> nat {
        ((self.bits / 0x10_0000_0000_0000) % 0x800) as nat
    }

    /// The 52 bits behind the binary point.
    pub open spec fn fraction(self) -> nat {
        (self.bits % 0x10_0000_0000_0000) as nat
    }

    /// Not a number: the exponent is all ones, and the fraction is not zero.
    pub open spec fn is_nan(self) -> bool {
        self.exponent() == 2047 && self.fraction() != 0
    }

    /// Infinite: the exponent is all ones, and the fraction is zero.
    pub open spec fn is_infinite(self) -> bool {
        self.exponent() == 2047 && self.fraction() == 0
    }

    /// Zero, subnormal or normal.
    pub open spec fn is_finite(self) -> bool {
        self.exponent() < 2047
    }

    /// The digits of a finite number as a whole number: the fraction, led by
    /// the hidden one unless the number is subnormal.
    pub open spec fn significand(self) -> nat {
        if self.exponent() == 0 {
            self.fraction()
        } else {
            0x10_0000_0000_0000 + self.fraction()
        }
    }

    /// The power of two by which the significand of a finite number is
    /// scaled.
    pub open spec fn scale(self) -> int {
        if self.exponent() == 0 {
            -1074
        } else {
            self.exponent() - 1075
        }
    }

    /// The magnitude of a finite number without its fractional part.
    pub open spec fn whole_part(self) -> nat {
        if self.scale() >= 0 {
            self.significand() * pow2(self.scale() as nat)
        } else {
            self.significand() / pow2((-self.scale()) as nat)
        }
    }

    /// The number cut down to a `u32`: rounded towards zero, with 0 for
    /// what is not a number and for everything negative, and the largest
    /// `u32` for everything beyond it.
    pub open spec fn truncation(self) -> nat {
        if self.is_nan() || self.is_negative() {
            0
        } else if self.is_infinite() || self.whole_part() > u32::MAX {
            u32::MAX as nat
        } else {
            self.whole_part()
        }
    }

    /// Takes the bits apart: whether the sign bit is set, the biased
    /// exponent, and the fraction.
    pub fn parts(self) -> (parts: (bool, u64, u64))
        ensures
            parts.0 == self.is_negative(),
            parts.1 == self.exponent(),
            parts.2 == self.fraction(),
    {
        (
            self.bits >= 0x8000_0000_0000_0000,
            (self.bits / 0x10_0000_0000_0000) % 0x800,
            self.bits % 0x10_0000_0000_0000,
        )
    }

    /// Cuts the number down to a `u32`.
    pub fn truncate(self) -> (whole: u32)
        ensures
            whole == self.truncation(),
    {
        let (negative, exponent, fraction) = self.parts();
        if negative {
            return 0;
        }
        if exponent == 2047 {
            return if fraction != 0 {
                0
            } else {
                u32::MAX
            };
        }
        if exponent < 1023 {
            proof {
                lemma_whole_part_below_one(self);
            }
            return 0;
        }
        if exponent >= 1055 {
            proof {
                lemma_whole_part_beyond_u32(self);
            }
            return u32::MAX;
        }
        let significand: u64 = 0x10_0000_0000_0000 + fraction;
        let shift: u64 = 1075 - exponent;
        let whole: u64 = significand >> shift;
        proof {
            lemma_u64_shr_is_div(significand, shift);
            lemma_whole_part_within_u32(self);
        }
        whole as u32
    }
}

/// A finite number with an exponent under the bias is less than one.
pub proof fn lemma_whole_part_below_one(x: Binary64)
    requires
        x.exponent() < 1023,
    ensures
        x.whole_part() == 0,
{
    let k = (-x.scale()) as nat;
    lemma2_to64_rest();
    if k > 53 {
        lemma_pow2_strictly_increases(53, k);
    }
    lemma_basic_div(x.significand() as int, pow2(k) as int);
}

/// A finite number with an exponent of 32 or more over the bias is beyond
/// the largest `u32`.
pub proof fn lemma_whole_part_beyond_u32(x: Binary64)
    requires
        1055 <= x.exponent(),
    ensures
        x.whole_part() > u32::MAX,
{
    let s = x.significand();
    if x.scale() >= 0 {
        let k = x.scale() as nat;
        lemma_pow2_pos(k);
        lemma_mul_inequality(1, pow2(k) as int, s as int);
    } else {
        let k = (-x.scale()) as nat;
        lemma2_to64();
        lemma_pow2_pos(k);
        if k < 20 {
            lemma_pow2_strictly_increases(k, 20);
        }
        lemma_div_is_ordered_by_denominator(s as int, pow2(k) as int, 0x10_0000);
    }
}

/// A finite number with an exponent of less than 32 over the bias has a
/// whole part that a `u32` holds.
pub proof fn lemma_whole_part_within_u32(x: Binary64)
    requires
        1023 <= x.exponent() < 1055,
    ensures
        x.whole_part() <= u32::MAX,
{
    let s = x.significand();
    let k = (-x.scale()) as nat;
    lemma2_to64();
    if k > 21 {
        lemma_pow2_strictly_increases(21, k);
    }
    lemma_div_is_ordered_by_denominator(s as int, 0x20_0000, pow2(k) as int);
}

/// Truncation rounds down, never to the nearest: for a number that is not
/// negative and whose whole part a `u32` holds, the result is the one whole
/// number `t` with `t <= x < t + 1`, here with both sides scaled by the power
/// of two that makes `x` whole.
pub proof fn lemma_truncation_rounds_down(x: Binary64)
    requires
        x.is_finite(),
        !x.is_negative(),
        x.whole_part() <= u32::MAX,
    ensures
        x.scale() >= 0 ==> x.truncation() == x.significand() * pow2(x.scale() as nat),
        x.scale() < 0 ==> ({
            let unit = pow2((-x.scale()) as nat);
            x.truncation() * unit <= x.significand() < (x.truncation() + 1) * unit
        }),
{
    if x.scale() < 0 {
        let k = (-x.scale()) as nat;
        let s = x.significand() as int;
        let d = pow2(k) as int;
        lemma_pow2_pos(k);
        assert((s / d) * d <= s < (s / d + 1) * d) by (nonlinear_arith)
            requires
                d > 0,
                s >= 0,
        ;
    }
}

} // verus!
