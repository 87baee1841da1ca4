//! Requests to the Binance options API, the records that it answers with, and
//! the errors that a client of it can meet. Sending is left to the caller:
//! this module decides what is sent and what an answer means.

pub mod api;
pub mod error;
pub mod model;
pub mod parser;

use crate::binance_options_client::error::BinanceOptionsClientError;
use vstd::prelude::*;

verus! {

/// Adds two numbers whose sum fits in 64 bits.
pub fn add(left: u64, right: u64) -> (sum: u64)
    requires
        left + right <= u64::MAX,
    ensures
        sum == left + right,
{
    left + right
}

/// Always fails, with an error of the kind `Unknown`.
pub fn trigger_error() -> (outcome: Result<(), BinanceOptionsClientError>)
    ensures
        outcome matches Err(BinanceOptionsClientError::Unknown(text)) && text@
            == "Triggered error for testing"@,
{
    Err(BinanceOptionsClientError::Unknown("Triggered error for testing".to_owned()))
}

} // verus!
