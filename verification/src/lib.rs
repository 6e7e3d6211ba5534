//! Currency conversion against a flat table of exchange rates.
//!
//! Every rate quotes one currency against a common reference currency. An
//! amount is converted by looking both currencies up by their code, dividing
//! the target's rate by the source's and multiplying the amount by that
//! factor, all in arbitrary-precision decimal arithmetic. A small state
//! machine describes the life of one request, from its raw parameters to the
//! response that is sent back.

pub mod decimal;
pub mod digits;
pub mod error;
pub mod handler;
pub mod parse;
pub mod rate;
pub mod render;
pub mod request;
pub mod resolver;
pub mod text;
