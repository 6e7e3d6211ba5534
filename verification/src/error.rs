//! The ways in which a conversion request can fail.

use vstd::prelude::*;

verus! {

/// Which of the two currencies of a request the store holds no rate for.
#[derive(Debug, Clone, Copy, PartialEq, Eq, Structural)]
pub enum Missing {
    /// The currency to convert from.
    Source,
    /// The currency to convert to.
    Target,
    /// Both of them.
    Both,
}

/// Why a request was not answered with a converted amount.
#[derive(Debug, Clone, Copy, PartialEq, Eq, Structural)]
pub enum ConversionError {
    /// A parameter is missing or malformed. The caller can correct it.
    InvalidInput,
    /// The store holds no rate for a currency that the request names.
    RateNotFound(Missing),
    /// The deadline of the request passed before it was answered.
    Timeout,
    /// The store could not be read, or what it returned is inconsistent.
    InternalError,
}

/// The status of a response that carries a converted amount.
pub const STATUS_OK: u16 = 200;

/// The HTTP status that reports `error`.
pub open spec fn status_of(error: ConversionError) -> u16 {
    match error {
        ConversionError::InvalidInput => 400,
        ConversionError::RateNotFound(_) => 404,
        ConversionError::Timeout => 408,
        ConversionError::InternalError => 500,
    }
}

/// The message that reports `error` to the caller. It names the kind of
/// failure and nothing of what went on inside. A timeout is reported by its
/// status alone.
pub open spec fn message_of(error: ConversionError) -> Seq<char> {
    match error {
        ConversionError::InvalidInput =>
            "invalid input: money must be a non-negative decimal, from and to must not be empty"@,
        ConversionError::RateNotFound(Missing::Source) =>
            "rate not found for the currency to convert from"@,
        ConversionError::RateNotFound(Missing::Target) =>
            "rate not found for the currency to convert to"@,
        ConversionError::RateNotFound(Missing::Both) => "rate not found for either currency"@,
        ConversionError::Timeout => ""@,
        ConversionError::InternalError => "internal error"@,
    }
}

impl ConversionError {
    /// The HTTP status that reports this error.
    pub fn status(&self) -> (code: u16)
        ensures
            code == status_of(*self),
    {
        match self {
            ConversionError::InvalidInput => 400,
            ConversionError::RateNotFound(_) => 404,
            ConversionError::Timeout => 408,
            ConversionError::InternalError => 500,
        }
    }

    /// The message that reports this error to the caller.
    pub fn message(&self) -> (text: String)
        ensures
            text@ == message_of(*self),
    {
        match self {
            ConversionError::InvalidInput =>
                "invalid input: money must be a non-negative decimal, from and to must not be empty".to_owned(),
            ConversionError::RateNotFound(Missing::Source) =>
                "rate not found for the currency to convert from".to_owned(),
            ConversionError::RateNotFound(Missing::Target) =>
                "rate not found for the currency to convert to".to_owned(),
            ConversionError::RateNotFound(Missing::Both) =>
                "rate not found for either currency".to_owned(),
            ConversionError::Timeout => "".to_owned(),
            ConversionError::InternalError => "internal error".to_owned(),
        }
    }
}

} // verus!
