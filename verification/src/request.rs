//! A conversion request: an amount and the two currencies it moves between.

use crate::decimal::{Decimal, DecimalValue};
use crate::error::ConversionError;
use crate::parse::{parse_decimal, text_value};
use vstd::prelude::*;

verus! {

/// What a [`ConversionRequest`] stands for.
pub struct RequestValue {
    pub amount: DecimalValue,
    pub source: Seq<char>,
    pub target: Seq<char>,
}

/// What every request holds: an amount that is not negative, and two currency
/// codes that are not empty.
pub open spec fn valid_request(v: RequestValue) -> bool {
    &&& v.amount.unscaled >= 0
    &&& v.source.len() > 0
    &&& v.target.len() > 0
}

/// The request that the parameters `money`, `from` and `to` make, or
/// `InvalidInput` where `money` does not write a decimal, writes a negative
/// one, or one of the codes is empty.
pub open spec fn request_of(money: Seq<char>, from: Seq<char>, to: Seq<char>) -> Result<
    RequestValue,
    ConversionError,
> {
    match text_value(money) {
        None => Err(ConversionError::InvalidInput),
        Some(amount) => {
            let v = RequestValue { amount, source: from, target: to };
            if valid_request(v) {
                Ok(v)
            } else {
                Err(ConversionError::InvalidInput)
            }
        },
    }
}

/// A validated request to convert `amount` from the currency `source` to the
/// currency `target`.
#[derive(Debug, PartialEq, Eq)]
pub struct ConversionRequest {
    amount: Decimal,
    source: String,
    target: String,
}

impl View for ConversionRequest {
    type V = RequestValue;

    closed spec fn view(&self) -> RequestValue {
        RequestValue { amount: self.amount@, source: self.source@, target: self.target@ }
    }
}

impl Clone for ConversionRequest {
    fn clone(&self) -> (copy: Self)
        ensures
            copy@ == self@,
    {
        proof {
            use_type_invariant(self);
        }
        ConversionRequest {
            amount: self.amount.clone(),
            source: self.source.clone(),
            target: self.target.clone(),
        }
    }
}

impl ConversionRequest {
    #[verifier::type_invariant]
    closed spec fn well_formed(&self) -> bool {
        valid_request(self@)
    }

    /// The request made of these parts, or `InvalidInput` where the amount is
    /// negative or a code is empty.
    pub fn new(amount: Decimal, source: String, target: String) -> (r: Result<
        ConversionRequest,
        ConversionError,
    >)
        ensures
            r is Ok <==> valid_request(
                RequestValue { amount: amount@, source: source@, target: target@ },
            ),
            r matches Ok(q) ==> q@ == (RequestValue {
                amount: amount@,
                source: source@,
                target: target@,
            }),
            r matches Err(e) ==> e == ConversionError::InvalidInput,
    {
        if amount.is_negative() || source.as_str().is_empty() || target.as_str().is_empty() {
            Err(ConversionError::InvalidInput)
        } else {
            Ok(ConversionRequest { amount, source, target })
        }
    }

    /// The amount to convert. It is not negative.
    pub fn amount(&self) -> (r: &Decimal)
        ensures
            r@ == self@.amount,
            valid_request(self@),
    {
        proof {
            use_type_invariant(self);
        }
        &self.amount
    }

    /// The code of the currency that the amount is in. It is not empty.
    pub fn source(&self) -> (r: &String)
        ensures
            r@ == self@.source,
            valid_request(self@),
    {
        proof {
            use_type_invariant(self);
        }
        &self.source
    }

    /// The code of the currency to convert to. It is not empty.
    pub fn target(&self) -> (r: &String)
        ensures
            r@ == self@.target,
            valid_request(self@),
    {
        proof {
            use_type_invariant(self);
        }
        &self.target
    }
}

/// Builds the request from the three raw parameters of the query.
pub fn parse_request(money: &str, from: &str, to: &str) -> (r: Result<
    ConversionRequest,
    ConversionError,
>)
    ensures
        match r {
            Ok(q) => request_of(money@, from@, to@) == Ok::<RequestValue, ConversionError>(q@),
            Err(e) => request_of(money@, from@, to@) == Err::<RequestValue, ConversionError>(e),
        },
{
    match parse_decimal(money) {
        None => Err(ConversionError::InvalidInput),
        Some(amount) => ConversionRequest::new(amount, from.to_owned(), to.to_owned()),
    }
}

} // verus!
