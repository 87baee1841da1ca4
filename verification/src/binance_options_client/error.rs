//! The errors of the client.

use vstd::prelude::*;

verus! {

/// The error of `serde_json`. Nothing is known of what it holds.
#[verifier::external_type_specification]
#[verifier::external_body]
pub struct ExJsonError(serde_json::Error);

/// What can go wrong between a request and the records it asks for.
#[derive(Debug)]
pub enum BinanceOptionsClientError {
    /// The request did not get through, or its answer could not be read.
    /// Holds the text of the transport's error.
    Network(String),
    /// The server answered with a status that is not a success, and with a
    /// body that is no error report of the API.
    HttpResponse { code: u16, body: String },
    /// The server answered with an error report of the API.
    ApiError { code: i64, msg: String },
    /// The answer was no JSON of the expected shape. Holds the decoder's
    /// error.
    JsonParse(serde_json::Error),
    /// Anything else.
    Unknown(String),
}

/// Whether an HTTP status code reports a success: the codes from 200 to 299.
pub open spec fn is_success_status(code: u16) -> bool {
    200 <= code <= 299
}

/// Whether an HTTP status code reports a success.
pub fn status_is_success(code: u16) -> (success: bool)
    ensures
        success == is_success_status(code),
{
    200 <= code && code <= 299
}

impl BinanceOptionsClientError {
    /// The error for an answer whose status is not a success.
    ///
    /// `report` is the error report of the API that the body holds, if it
    /// holds one: its code and its message. Such a report is the error;
    /// without one, the status and the body are.
    pub fn from_response(code: u16, body: String, report: Option<(i64, String)>) -> (error: Self)
        ensures
            match report {
                Some((api_code, msg)) => error == (BinanceOptionsClientError::ApiError {
                    code: api_code,
                    msg,
                }),
                None => error == (BinanceOptionsClientError::HttpResponse { code, body }),
            },
    {
        match report {
            Some((api_code, msg)) => BinanceOptionsClientError::ApiError { code: api_code, msg },
            None => BinanceOptionsClientError::HttpResponse { code, body },
        }
    }
}

} // verus!
