//! Arbitrary-precision decimal numbers.
//!
//! A [`Decimal`] is an integer of any size together with a scale: the number
//! it stands for is the integer divided by ten to the power of the scale.
//! Multiplication is exact. Division is `bigdecimal`'s.

use crate::digits::{
    all_digits, canonical, digits_of, digits_product, digits_value, lemma_digits_of_value,
    lemma_value_positive, strip_leading_zeros,
};
use bigdecimal::num_bigint::{BigInt, Sign};
use bigdecimal::BigDecimal;
use vstd::prelude::*;

verus! {

/// What a [`Decimal`] stands for: `unscaled / 10^scale`.
pub struct DecimalValue {
    pub unscaled: int,
    pub scale: int,
}

/// `magnitude`, negated where `negative` is set.
pub open spec fn signed(negative: bool, magnitude: nat) -> int {
    if negative {
        -(magnitude as int)
    } else {
        magnitude as int
    }
}

/// The absolute value of `n`.
pub open spec fn magnitude(n: int) -> nat {
    if n < 0 {
        (-n) as nat
    } else {
        n as nat
    }
}

/// The value given by a sign, a digit string (most significant digit first)
/// and a scale.
pub open spec fn parts_value(negative: bool, digits: Seq<u8>, scale: int) -> DecimalValue {
    DecimalValue { unscaled: signed(negative, digits_value(digits)), scale }
}

/// The exact product of two values: the integers are multiplied and the
/// scales added.
pub open spec fn product(a: DecimalValue, b: DecimalValue) -> DecimalValue {
    DecimalValue { unscaled: a.unscaled * b.unscaled, scale: a.scale + b.scale }
}

/// A scale that a [`Decimal`] can hold.
pub open spec fn scale_in_range(scale: int) -> bool {
    i64::MIN <= scale <= i64::MAX
}

/// Room left above the scale of a quotient for the digits that division may
/// add after the decimal point. `bigdecimal` adds one for each digit of
/// precision, and its precision is a number of 32 bits.
pub const QUOTIENT_SCALE_MARGIN: u64 = 4_294_967_296;

/// The quotient `num / den` as `bigdecimal` computes it: rounded to the
/// precision that `bigdecimal` was built with, one hundred significant digits
/// unless the build says otherwise.
pub uninterp spec fn decimal_quotient(num: DecimalValue, den: DecimalValue) -> DecimalValue;

/// The divisions that [`Decimal::checked_div`] carries out: the divisor is
/// not zero, and the scale of the quotient is certain to fit, however many
/// digits the division adds.
pub open spec fn quotient_in_range(num: DecimalValue, den: DecimalValue) -> bool {
    &&& den.unscaled != 0
    &&& i64::MIN <= num.scale - den.scale
    &&& num.scale - den.scale + digits_of(magnitude(den.unscaled)).len() + QUOTIENT_SCALE_MARGIN
        <= i64::MAX
}

/// A decimal number of arbitrary precision.
#[derive(Debug, PartialEq, Eq)]
pub struct Decimal {
    negative: bool,
    digits: Vec<u8>,
    scale: i64,
}

impl View for Decimal {
    type V = DecimalValue;

    closed spec fn view(&self) -> DecimalValue {
        parts_value(self.negative, self.digits@, self.scale as int)
    }
}

impl Clone for Decimal {
    fn clone(&self) -> (copy: Self)
        ensures
            copy@ == self@,
    {
        proof {
            use_type_invariant(self);
        }
        let digits: Vec<u8> = self.digits.clone();
        assert(digits@ =~= self.digits@);
        Decimal { negative: self.negative, digits, scale: self.scale }
    }
}

/// Calls `bigdecimal`'s `/` on two decimals and hands back the sign, the
/// digits (most significant first) and the scale of what it returns. The
/// contract names that result [`decimal_quotient`] and says of the digits only
/// that each is below ten, as `num-bigint` documents of `to_radix_be`. It
/// leaves out the inputs on which `/` panics: a zero divisor, and scales so
/// far apart that the scale of the quotient could overflow.
#[verifier::external_body]
fn bigdecimal_div(num: &Decimal, den: &Decimal) -> (q: (bool, Vec<u8>, i64))
    requires
        canonical(num.digits@),
        canonical(den.digits@),
        quotient_in_range(num@, den@),
    ensures
        all_digits(q.1@),
        parts_value(q.0, q.1@, q.2 as int) == decimal_quotient(num@, den@),
{
    let n_sign = if num.negative { Sign::Minus } else { Sign::Plus };
    let d_sign = if den.negative { Sign::Minus } else { Sign::Plus };
    let n = BigDecimal::new(BigInt::from_radix_be(n_sign, &num.digits, 10).unwrap(), num.scale);
    let d = BigDecimal::new(BigInt::from_radix_be(d_sign, &den.digits, 10).unwrap(), den.scale);
    let (whole, scale) = (n / d).into_bigint_and_exponent();
    let (sign, digits) = whole.to_radix_be(10);
    (sign == Sign::Minus, digits, scale)
}

impl Decimal {
    #[verifier::type_invariant]
    closed spec fn well_formed(&self) -> bool {
        &&& canonical(self.digits@)
        &&& self.negative ==> digits_value(self.digits@) != 0
    }

    /// The decimal with the given sign, digits and scale, in its shortest form.
    fn assemble(negative: bool, digits: &Vec<u8>, scale: i64) -> (d: Decimal)
        requires
            all_digits(digits@),
        ensures
            d@ == parts_value(negative, digits@, scale as int),
    {
        let shortest: Vec<u8> = strip_leading_zeros(digits);
        let zero: bool = shortest[0] == 0;
        proof {
            if zero {
                assert(shortest@.len() == 1);
                assert(digits_value(shortest@.drop_last()) == 0);
            } else {
                lemma_value_positive(shortest@);
            }
        }
        Decimal { negative: negative && !zero, digits: shortest, scale }
    }

    /// The decimal `±digits / 10^scale`, where `digits` is written most
    /// significant digit first. Leading zeros are accepted and dropped; an
    /// empty string is zero. `None` where an element of `digits` is not a
    /// decimal digit.
    pub fn from_parts(negative: bool, digits: Vec<u8>, scale: i64) -> (r: Option<Decimal>)
        ensures
            r is Some <==> all_digits(digits@),
            r matches Some(d) ==> d@ == parts_value(negative, digits@, scale as int),
    {
        let mut i: usize = 0;
        while i < digits.len()
            invariant
                i <= digits.len(),
                forall|j: int| 0 <= j < i ==> digits[j] < 10,
            decreases digits.len() - i,
        {
            if digits[i] >= 10 {
                return None;
            }
            i = i + 1;
        }
        Some(Decimal::assemble(negative, &digits, scale))
    }

    /// Whether the number is below zero.
    pub fn is_negative(&self) -> (r: bool)
        ensures
            r == (self@.unscaled < 0),
    {
        proof {
            use_type_invariant(self);
        }
        self.negative
    }

    /// Whether the number is zero.
    pub fn is_zero(&self) -> (r: bool)
        ensures
            r == (self@.unscaled == 0),
    {
        proof {
            use_type_invariant(self);
            if self.digits[0] == 0 {
                assert(self.digits@.len() == 1);
                assert(digits_value(self.digits@.drop_last()) == 0);
            } else {
                lemma_value_positive(self.digits@);
            }
        }
        self.digits[0] == 0
    }

    /// The scale: how many of the digits stand after the decimal point.
    pub fn scale(&self) -> (r: i64)
        ensures
            r == self@.scale,
    {
        self.scale
    }

    /// The digits of the unscaled integer without its sign, most significant
    /// first and without leading zeros.
    pub fn digits(&self) -> (r: &Vec<u8>)
        ensures
            r@ == digits_of(magnitude(self@.unscaled)),
    {
        proof {
            use_type_invariant(self);
            lemma_digits_of_value(self.digits@);
        }
        &self.digits
    }

    /// The exact product, or `None` where the sum of the two scales does not
    /// fit a scale.
    pub fn checked_mul(&self, other: &Decimal) -> (r: Option<Decimal>)
        ensures
            r is Some <==> scale_in_range(self@.scale + other@.scale),
            r matches Some(p) ==> p@ == product(self@, other@),
    {
        proof {
            use_type_invariant(self);
            use_type_invariant(other);
        }
        match self.scale.checked_add(other.scale) {
            None => None,
            Some(scale) => {
                let digits: Vec<u8> = digits_product(&self.digits, &other.digits);
                let negative: bool = self.negative != other.negative;
                proof {
                    let a = digits_value(self.digits@) as int;
                    let b = digits_value(other.digits@) as int;
                    assert((-a) * b == -(a * b)) by (nonlinear_arith);
                    assert(a * (-b) == -(a * b)) by (nonlinear_arith);
                    assert((-a) * (-b) == a * b) by (nonlinear_arith);
                }
                Some(Decimal::assemble(negative, &digits, scale))
            },
        }
    }

    /// The quotient `self / den` as `bigdecimal` computes it, or `None` where
    /// [`quotient_in_range`] does not hold.
    pub fn checked_div(&self, den: &Decimal) -> (r: Option<Decimal>)
        ensures
            r is Some <==> quotient_in_range(self@, den@),
            r matches Some(q) ==> q@ == decimal_quotient(self@, den@),
    {
        proof {
            use_type_invariant(self);
            use_type_invariant(den);
            lemma_digits_of_value(den.digits@);
        }
        if den.is_zero() {
            return None;
        }
        let apart: i128 = self.scale as i128 - den.scale as i128;
        let top: i128 = apart + den.digits.len() as i128 + QUOTIENT_SCALE_MARGIN as i128;
        if apart < i64::MIN as i128 || top > i64::MAX as i128 {
            return None;
        }
        let q = bigdecimal_div(self, den);
        Some(Decimal::assemble(q.0, &q.1, q.2))
    }
}

} // verus!
