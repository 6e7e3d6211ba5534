//! Converting an amount with the rates that a store returned.
//!
//! Each of the two rates is looked up by its currency code. Between different
//! currencies the amount is multiplied by the target's rate divided by the
//! source's. Within one currency the amount comes back as it went in, with no
//! division made.

use crate::decimal::{
    decimal_quotient, product, quotient_in_range, scale_in_range, Decimal, DecimalValue,
};
use crate::digits::pow10;
use crate::error::ConversionError;
use crate::rate::{
    lemma_quoted_cases, lookup, quoted_once, rate_of, rates_of, Lookup, Rate, RateValue,
};
use crate::request::{ConversionRequest, RequestValue};
use vstd::prelude::*;

verus! {

/// A converted amount, in the target currency.
#[derive(Debug, PartialEq, Eq)]
pub struct ConversionResult {
    pub amount: Decimal,
}

/// `amount` times `factor`: `InternalError` where the scale of the product
/// does not fit a decimal.
pub open spec fn scaled(amount: DecimalValue, factor: DecimalValue) -> Result<
    DecimalValue,
    ConversionError,
> {
    if scale_in_range(amount.scale + factor.scale) {
        Ok(product(amount, factor))
    } else {
        Err(ConversionError::InternalError)
    }
}

/// `amount` converted between two currencies with these rates: `amount` times
/// the quotient of the target's rate by the source's. `InternalError` where
/// that division cannot be made, as with a source rate of zero.
pub open spec fn conversion(
    amount: DecimalValue,
    source_rate: DecimalValue,
    target_rate: DecimalValue,
) -> Result<DecimalValue, ConversionError> {
    if quotient_in_range(target_rate, source_rate) {
        scaled(amount, decimal_quotient(target_rate, source_rate))
    } else {
        Err(ConversionError::InternalError)
    }
}

/// What a request resolves to with these rows. `InternalError` where the rows
/// do not hold exactly one rate for each of the two currencies; the amount
/// itself where the two currencies are the same; else the [`conversion`] with
/// the two rates.
pub open spec fn resolution(rows: Seq<RateValue>, request: RequestValue) -> Result<
    DecimalValue,
    ConversionError,
> {
    if !quoted_once(rows, request.source) || !quoted_once(rows, request.target) {
        Err(ConversionError::InternalError)
    } else if request.source == request.target {
        Ok(request.amount)
    } else {
        conversion(
            request.amount,
            rate_of(rows, request.source),
            rate_of(rows, request.target),
        )
    }
}

/// Whether `r` is the outcome `expected`: the same error, or a result whose
/// amount stands for the expected value.
pub open spec fn agrees(
    r: Result<ConversionResult, ConversionError>,
    expected: Result<DecimalValue, ConversionError>,
) -> bool {
    match r {
        Ok(c) => expected == Ok::<DecimalValue, ConversionError>(c.amount@),
        Err(e) => expected == Err::<DecimalValue, ConversionError>(e),
    }
}

/// Two values that stand for the same number, whatever their scales.
pub open spec fn same_number(a: DecimalValue, b: DecimalValue) -> bool {
    if a.scale <= b.scale {
        a.unscaled * pow10((b.scale - a.scale) as nat) == b.unscaled
    } else {
        b.unscaled * pow10((a.scale - b.scale) as nat) == a.unscaled
    }
}

/// A value that stands for the number one.
pub open spec fn is_one(v: DecimalValue) -> bool {
    v.scale >= 0 && v.unscaled == pow10(v.scale as nat)
}

/// Multiplies `amount` by a conversion factor.
pub fn apply_factor(amount: &Decimal, factor: &Decimal) -> (r: Result<
    ConversionResult,
    ConversionError,
>)
    ensures
        agrees(r, scaled(amount@, factor@)),
{
    match amount.checked_mul(factor) {
        Some(converted) => Ok(ConversionResult { amount: converted }),
        None => Err(ConversionError::InternalError),
    }
}

/// Converts `amount` between two different currencies, given the rate of each.
pub fn convert(amount: &Decimal, source_rate: &Decimal, target_rate: &Decimal) -> (r: Result<
    ConversionResult,
    ConversionError,
>)
    ensures
        agrees(r, conversion(amount@, source_rate@, target_rate@)),
{
    match target_rate.checked_div(source_rate) {
        Some(factor) => apply_factor(amount, &factor),
        None => Err(ConversionError::InternalError),
    }
}

/// Resolves `request` with the rows that the store returned for it.
pub fn resolve(rows: &Vec<Rate>, request: &ConversionRequest) -> (r: Result<
    ConversionResult,
    ConversionError,
>)
    ensures
        agrees(r, resolution(rates_of(rows@), request@)),
{
    let ghost table = rates_of(rows@);
    let source: &String = request.source();
    let target: &String = request.target();
    match (lookup(rows, source), lookup(rows, target)) {
        (Lookup::Single(s), Lookup::Single(t)) => {
            assert(rate_of(table, source@) == rows[s as int].value@);
            assert(rate_of(table, target@) == rows[t as int].value@);
            if *source == *target {
                Ok(ConversionResult { amount: request.amount().clone() })
            } else {
                convert(request.amount(), &rows[s].value, &rows[t].value)
            }
        },
        _ => {
            proof {
                lemma_quoted_cases(table, source@);
                lemma_quoted_cases(table, target@);
            }
            Err(ConversionError::InternalError)
        },
    }
}

/// Within one currency the amount comes back exactly as it went in.
pub proof fn lemma_same_currency_is_identity(rows: Seq<RateValue>, request: RequestValue)
    requires
        request.source == request.target,
        quoted_once(rows, request.source),
    ensures
        resolution(rows, request) == Ok::<DecimalValue, ConversionError>(request.amount),
{
}

/// Between two currencies with known rates the result is the amount times
/// the quotient of the target's rate by the source's, to the precision of
/// that quotient: the multiplication adds no rounding of its own.
pub proof fn lemma_conversion_formula(rows: Seq<RateValue>, request: RequestValue)
    requires
        request.source != request.target,
        quoted_once(rows, request.source),
        quoted_once(rows, request.target),
        resolution(rows, request) is Ok,
    ensures
        resolution(rows, request) == Ok::<DecimalValue, ConversionError>(
            product(
                request.amount,
                decimal_quotient(rate_of(rows, request.target), rate_of(rows, request.source)),
            ),
        ),
{
}

/// Conversion is linear: `k` times the amount converts to `k` times the
/// result, where both conversions succeed.
pub proof fn lemma_linearity(rows: Seq<RateValue>, request: RequestValue, k: DecimalValue)
    requires
        resolution(rows, request) is Ok,
        resolution(
            rows,
            RequestValue { amount: product(k, request.amount), ..request },
        ) is Ok,
    ensures
        resolution(rows, RequestValue { amount: product(k, request.amount), ..request })
            == Ok::<DecimalValue, ConversionError>(
            product(k, resolution(rows, request)->Ok_0),
        ),
{
    if request.source != request.target {
        let f = decimal_quotient(rate_of(rows, request.target), rate_of(rows, request.source));
        let a = request.amount;
        assert((k.unscaled * a.unscaled) * f.unscaled == k.unscaled * (a.unscaled * f.unscaled))
            by (nonlinear_arith);
    }
}

/// Converting there and back gives the amount times both conversion
/// factors. Where the two factors multiply to one, that is the number that
/// went in.
pub proof fn lemma_round_trip(
    rows: Seq<RateValue>,
    amount: DecimalValue,
    a: Seq<char>,
    b: Seq<char>,
)
    requires
        a != b,
        resolution(rows, RequestValue { amount, source: a, target: b }) is Ok,
        resolution(
            rows,
            RequestValue {
                amount: resolution(rows, RequestValue { amount, source: a, target: b })->Ok_0,
                source: b,
                target: a,
            },
        ) is Ok,
    ensures
        ({
            let there = resolution(rows, RequestValue { amount, source: a, target: b })->Ok_0;
            let back = resolution(rows, RequestValue { amount: there, source: b, target: a })->Ok_0;
            let factors = product(
                decimal_quotient(rate_of(rows, b), rate_of(rows, a)),
                decimal_quotient(rate_of(rows, a), rate_of(rows, b)),
            );
            &&& back == product(amount, factors)
            &&& is_one(factors) ==> same_number(amount, back)
        }),
{
    let f = decimal_quotient(rate_of(rows, b), rate_of(rows, a));
    let g = decimal_quotient(rate_of(rows, a), rate_of(rows, b));
    assert((amount.unscaled * f.unscaled) * g.unscaled == amount.unscaled * (f.unscaled
        * g.unscaled)) by (nonlinear_arith);
}

/// Converting there and back within one currency gives the amount exactly.
pub proof fn lemma_round_trip_same_currency(
    rows: Seq<RateValue>,
    amount: DecimalValue,
    a: Seq<char>,
)
    requires
        quoted_once(rows, a),
    ensures
        ({
            let there = resolution(rows, RequestValue { amount, source: a, target: a });
            &&& there == Ok::<DecimalValue, ConversionError>(amount)
            &&& resolution(rows, RequestValue { amount: there->Ok_0, source: a, target: a })
                == Ok::<DecimalValue, ConversionError>(amount)
        }),
{
}

} // verus!
