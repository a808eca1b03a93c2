//! Binary64 numbers written with two decimals.
//!
//! A number is rounded to the nearest hundredth, and to the even one where
//! two are equally near. A whole number too large for a machine word is
//! written out digit by digit, however long it gets.

use vstd::prelude::*;
use vstd::string::*;
use vstd::arithmetic::div_mod::{lemma_basic_div, lemma_fundamental_div_mod, lemma_small_mod};
use vstd::arithmetic::power2::{
    lemma2_to64,
    lemma2_to64_rest,
    lemma_pow2_strictly_increases,
    lemma_pow2_unfold,
    pow2,
};
use vstd::bits::lemma_u64_shl_is_mul;
use crate::binary64::Binary64;
use crate::decimal::{decimal, decimal_string, digit, digit_text, lemma_decimal_denotes};

verus! {

/// `n / unit`, rounded to the nearest whole number, and to the even one
/// where two are equally near.
pub open spec fn round_half_even(n: nat, unit: nat) -> nat
    recommends
        unit > 0,
{
    let down = n / unit;
    let rest = n % unit;
    if 2 * rest > unit || (2 * rest == unit && down % 2 == 1) {
        down + 1
    } else {
        down
    }
}

/// Rounding goes to a nearest whole number: the result is off by half a
/// unit at most, and where it is off by just a half, it is even.
pub proof fn lemma_round_half_even_is_nearest(n: nat, unit: nat)
    requires
        unit > 0,
    ensures
        2 * (round_half_even(n, unit) * unit - n) <= unit,
        2 * (n - round_half_even(n, unit) * unit) <= unit,
        2 * (n % unit) == unit ==> round_half_even(n, unit) % 2 == 0,
{
    let down = n / unit;
    let rest = n % unit;
    lemma_fundamental_div_mod(n as int, unit as int);
    assert((down + 1) * unit == down * unit + unit) by (nonlinear_arith);
    assert(unit * down == down * unit) by (nonlinear_arith);
}

/// A hundred times the magnitude of a finite number, rounded to a whole
/// number.
pub open spec fn hundredths(x: Binary64) -> nat {
    if x.scale() >= 0 {
        x.significand() * pow2(x.scale() as nat) * 100
    } else {
        round_half_even(x.significand() * 100, pow2((-x.scale()) as nat))
    }
}

/// A number of hundredths, written with its two decimals.
pub open spec fn hundredths_text(n: nat) -> Seq<char> {
    decimal(n / 100).push('.').push(digit(((n / 10) % 10) as int)).push(digit((n % 10) as int))
}

/// A number written with two decimals: `NaN` for what is no number; else a
/// `-` where the sign bit is set, even before zero, and then `inf` or the
/// rounded magnitude.
pub open spec fn two_decimals(x: Binary64) -> Seq<char> {
    if x.is_nan() {
        "NaN"@
    } else {
        let sign = if x.is_negative() {
            "-"@
        } else {
            Seq::<char>::empty()
        };
        if x.is_infinite() {
            sign + "inf"@
        } else {
            sign + hundredths_text(hundredths(x))
        }
    }
}

/// The text of a finite number ends in a point and two digits, behind at
/// least one digit.
pub proof fn lemma_two_decimals_shape(x: Binary64)
    requires
        x.is_finite(),
    ensures
        ({
            let text = two_decimals(x);
            let end = text.len() as int;
            &&& end >= 4
            &&& '0' <= text[end - 4] <= '9'
            &&& text[end - 3] == '.'
            &&& '0' <= text[end - 2] <= '9'
            &&& '0' <= text[end - 1] <= '9'
        }),
{
    let n = hundredths(x);
    lemma_decimal_denotes(n / 100);
    let whole = decimal(n / 100);
    assert('0' <= whole[whole.len() - 1] <= '9');
}

/// The hundredths of a number that has a fractional part, or is less than
/// 2^53.
fn rounded_hundredths(x: Binary64) -> (n: u64)
    requires
        x.exponent() < 1075,
    ensures
        n == hundredths(x),
{
    let (_, exponent, fraction) = x.parts();
    let significand: u64 = if exponent == 0 {
        fraction
    } else {
        0x10_0000_0000_0000 + fraction
    };
    let shift: u64 = if exponent == 0 {
        1074
    } else {
        1075 - exponent
    };
    let scaled: u64 = significand * 100;
    proof {
        lemma2_to64();
        lemma2_to64_rest();
    }
    if shift >= 61 {
        proof {
            if shift > 61 {
                lemma_pow2_strictly_increases(61, shift as nat);
            }
            lemma_basic_div(scaled as int, pow2(shift as nat) as int);
            lemma_small_mod(scaled as nat, pow2(shift as nat));
        }
        return 0;
    }
    let unit: u64 = 1u64 << shift;
    proof {
        if shift < 60 {
            lemma_pow2_strictly_increases(shift as nat, 60);
        }
        lemma_u64_shl_is_mul(1, shift);
    }
    let down: u64 = scaled / unit;
    let rest: u64 = scaled % unit;
    if 2 * rest > unit || (2 * rest == unit && down % 2 == 1) {
        down + 1
    } else {
        down
    }
}

/// The value of decimal digits, lowest first.
spec fn le_value(digits: Seq<u8>) -> nat
    decreases digits.len(),
{
    if digits.len() == 0 {
        0
    } else {
        digits[0] as nat + 10 * le_value(digits.drop_first())
    }
}

/// The digits of a positive whole number, lowest first: none is over 9, and
/// the highest is not 0.
spec fn is_whole(digits: Seq<u8>) -> bool {
    &&& digits.len() > 0
    &&& digits.last() != 0
    &&& forall|i: int| 0 <= i < digits.len() ==> #[trigger] digits[i] < 10
}

/// The decimal digits of `n`, lowest first; none for 0.
spec fn le_digits(n: nat) -> Seq<u8>
    decreases n,
{
    if n == 0 {
        Seq::<u8>::empty()
    } else {
        seq![(n % 10) as u8] + le_digits(n / 10)
    }
}

/// The digits of `n` stand for `n`, and are those of a whole number.
proof fn lemma_le_digits(n: nat)
    ensures
        le_value(le_digits(n)) == n,
        n > 0 ==> is_whole(le_digits(n)),
    decreases n,
{
    if n > 0 {
        lemma_le_digits(n / 10);
        let rest = le_digits(n / 10);
        let all = seq![(n % 10) as u8] + rest;
        assert(all.drop_first() =~= rest);
        assert(all =~= le_digits(n));
        if n / 10 > 0 {
            assert(all.last() == rest.last());
            assert forall|i: int| 0 <= i < all.len() implies #[trigger] all[i] < 10 by {
                if i > 0 {
                    assert(all[i] == rest[i - 1]);
                }
            }
        } else {
            assert(rest.len() == 0);
        }
    }
}

/// The digits of a positive machine word.
fn digits_of(n: u64) -> (digits: Vec<u8>)
    requires
        n > 0,
    ensures
        is_whole(digits@),
        le_value(digits@) == n,
{
    let mut digits: Vec<u8> = Vec::new();
    let mut rest: u64 = n;
    while rest > 0
        invariant
            digits@ + le_digits(rest as nat) == le_digits(n as nat),
        decreases rest,
    {
        proof {
            let low = seq![(rest % 10) as u8];
            let high = le_digits((rest / 10) as nat);
            assert(digits@ + (low + high) =~= digits@.push((rest % 10) as u8) + high);
        }
        digits.push((rest % 10) as u8);
        rest = rest / 10;
    }
    proof {
        lemma_le_digits(n as nat);
        assert(digits@ =~= le_digits(n as nat));
    }
    digits
}

/// Twice a number and a carry, digit by digit from the lowest.
spec fn doubled(digits: Seq<u8>, carry: nat) -> Seq<u8>
    decreases digits.len(),
{
    if digits.len() == 0 {
        if carry == 0 {
            Seq::<u8>::empty()
        } else {
            seq![carry as u8]
        }
    } else {
        let sum = 2 * digits[0] + carry;
        seq![(sum % 10) as u8] + doubled(digits.drop_first(), (sum / 10) as nat)
    }
}

/// Doubling digit by digit doubles the value, and adds the carry.
proof fn lemma_doubled_value(digits: Seq<u8>, carry: nat)
    requires
        carry <= 1,
        forall|i: int| 0 <= i < digits.len() ==> #[trigger] digits[i] < 10,
    ensures
        le_value(doubled(digits, carry)) == 2 * le_value(digits) + carry,
    decreases digits.len(),
{
    if digits.len() == 0 {
        if carry != 0 {
            let one = seq![carry as u8];
            assert(one.drop_first() =~= Seq::<u8>::empty());
            assert(le_value(one.drop_first()) == 0);
        }
    } else {
        let sum = 2 * digits[0] + carry;
        let higher = digits.drop_first();
        assert forall|i: int| 0 <= i < higher.len() implies #[trigger] higher[i] < 10 by {
            assert(higher[i] == digits[i + 1]);
        }
        lemma_doubled_value(higher, (sum / 10) as nat);
        let all = doubled(digits, carry);
        assert(all.drop_first() =~= doubled(higher, (sum / 10) as nat));
    }
}

/// Doubles a positive whole number.
fn double(digits: &Vec<u8>) -> (twice: Vec<u8>)
    requires
        is_whole(digits@),
    ensures
        is_whole(twice@),
        le_value(twice@) == 2 * le_value(digits@),
{
    let mut twice: Vec<u8> = Vec::new();
    let mut carry: u8 = 0;
    let mut i: usize = 0;
    proof {
        assert(digits@.subrange(0, digits.len() as int) =~= digits@);
        assert(twice@ + doubled(digits@, 0) =~= doubled(digits@, 0));
    }
    while i < digits.len()
        invariant
            is_whole(digits@),
            i <= digits.len(),
            carry <= 1,
            twice.len() == i,
            forall|k: int| 0 <= k < i ==> #[trigger] twice[k] < 10,
            i > 0 && digits[i - 1] != 0 ==> twice[i - 1] != 0 || carry != 0,
            twice@ + doubled(digits@.subrange(i as int, digits.len() as int), carry as nat)
                == doubled(digits@, 0),
        decreases digits.len() - i,
    {
        let sum: u8 = 2 * digits[i] + carry;
        proof {
            let here = digits@.subrange(i as int, digits.len() as int);
            let higher = digits@.subrange(i + 1, digits.len() as int);
            assert(here[0] == digits[i as int]);
            assert(here.drop_first() =~= higher);
            assert(twice@ + (seq![(sum % 10) as u8] + doubled(higher, (sum / 10) as nat))
                =~= twice@.push((sum % 10) as u8) + doubled(higher, (sum / 10) as nat));
        }
        twice.push(sum % 10);
        carry = sum / 10;
        i += 1;
    }
    proof {
        assert(digits@.subrange(i as int, digits.len() as int) =~= Seq::<u8>::empty());
        if carry != 0 {
            assert(twice@ + seq![carry] =~= twice@.push(carry));
        } else {
            assert(twice@ + Seq::<u8>::empty() =~= twice@);
        }
        lemma_doubled_value(digits@, 0);
    }
    if carry != 0 {
        twice.push(carry);
    }
    twice
}

/// The digits of `significand * 2^shift`.
fn scaled_digits(significand: u64, shift: u64) -> (digits: Vec<u8>)
    requires
        significand > 0,
    ensures
        is_whole(digits@),
        le_value(digits@) == significand * pow2(shift as nat),
{
    let mut digits = digits_of(significand);
    let mut done: u64 = 0;
    proof {
        lemma2_to64();
    }
    while done < shift
        invariant
            done <= shift,
            is_whole(digits@),
            le_value(digits@) == significand * pow2(done as nat),
        decreases shift - done,
    {
        digits = double(&digits);
        proof {
            lemma_pow2_unfold((done + 1) as nat);
            assert(2 * (significand * pow2(done as nat)) == significand * (2 * pow2(done as nat)))
                by (nonlinear_arith);
        }
        done += 1;
    }
    digits
}

/// Writes a positive whole number behind `text`, highest digit first.
fn append_digits(text: &mut String, digits: &Vec<u8>)
    requires
        is_whole(digits@),
    ensures
        final(text)@ == old(text)@ + decimal(le_value(digits@)),
{
    let ghost before = text@;
    let ghost end = digits.len() as int;
    let mut i: usize = digits.len() - 1;
    proof {
        let top = digits@.subrange(i as int, end);
        assert(top.drop_first() =~= Seq::<u8>::empty());
        assert(le_value(top.drop_first()) == 0);
        assert(top[0] == digits[i as int]);
    }
    text.append(digit_text(digits[i]));
    while i > 0
        invariant
            is_whole(digits@),
            end == digits.len(),
            i < digits.len(),
            le_value(digits@.subrange(i as int, end)) >= 1,
            text@ == before + decimal(le_value(digits@.subrange(i as int, end))),
        decreases i,
    {
        i -= 1;
        proof {
            let here = digits@.subrange(i as int, end);
            let higher = digits@.subrange(i + 1, end);
            assert(here.drop_first() =~= higher);
            assert(here[0] == digits[i as int]);
            assert(le_value(here) == digits[i as int] + 10 * le_value(higher));
            assert(before + decimal(le_value(higher)) + seq![digit(digits[i as int] as int)]
                =~= before + decimal(le_value(here)));
        }
        text.append(digit_text(digits[i]));
    }
    proof {
        assert(digits@.subrange(0, end) =~= digits@);
    }
}

/// Writes a number with two decimals.
pub fn two_decimal_string(x: Binary64) -> (text: String)
    ensures
        text@ == two_decimals(x),
{
    let (negative, exponent, fraction) = x.parts();
    if exponent == 2047 && fraction != 0 {
        return String::from_str("NaN");
    }
    let mut text = String::new();
    if negative {
        text.append("-");
    }
    let ghost sign = text@;
    if exponent == 2047 {
        text.append("inf");
    } else if exponent >= 1075 {
        let digits = scaled_digits(0x10_0000_0000_0000 + fraction, exponent - 1075);
        append_digits(&mut text, &digits);
        text.append(".00");
        proof {
            let whole = x.significand() * pow2(x.scale() as nat);
            let n = hundredths(x);
            assert(n == whole * 100);
            assert(n / 100 == whole && (n / 10) % 10 == 0 && n % 10 == 0) by (nonlinear_arith)
                requires
                    n == whole * 100,
            ;
            reveal_strlit(".00");
            assert(text@ =~= sign + hundredths_text(n));
        }
    } else {
        let n = rounded_hundredths(x);
        text.append(decimal_string(n / 100).as_str());
        text.append(".");
        text.append(digit_text(((n / 10) % 10) as u8));
        text.append(digit_text((n % 10) as u8));
        proof {
            reveal_strlit(".");
            assert(text@ =~= sign + hundredths_text(n as nat));
        }
    }
    text
}

} // verus!
