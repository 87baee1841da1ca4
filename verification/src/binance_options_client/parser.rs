//! How the records of an answer are decoded: which way is taken, and, on the
//! streaming way, what the answer holds at its top level. Turning a JSON
//! value into a record is left to the caller's typed decoder.

use crate::binance_options_client::error::BinanceOptionsClientError;
use vstd::prelude::*;

verus! {

/// A JSON value of `serde_json`. Nothing is known of what it holds.
#[verifier::external_type_specification]
#[verifier::external_body]
pub struct ExJsonValue(serde_json::Value);

/// The ways to decode the JSON of an answer.
#[derive(Clone, Copy, Debug, PartialEq, Eq, Structural)]
pub enum ParsingStrategy {
    /// Decode the top-level value first, then its elements one by one.
    Streaming,
    /// Decode the whole document in one step.
    Direct,
}

impl Default for ParsingStrategy {
    /// Streaming, which keeps less of a large answer in memory.
    fn default() -> (strategy: Self)
        ensures
            strategy == ParsingStrategy::Streaming,
    {
        ParsingStrategy::Streaming
    }
}

/// The kinds of text, told apart by the first JSON value that they hold.
#[derive(Clone, Copy, Debug, PartialEq, Eq, Structural)]
pub enum TopLevelKind {
    /// The text holds no value: it is empty, or whitespace.
    Missing,
    /// The text does not begin with a JSON value.
    Malformed,
    /// The first value of the text is an array.
    Array,
    /// The first value of the text is a value of another kind.
    Other,
}

/// The first JSON value of a text.
#[derive(Debug)]
pub enum TopLevel {
    /// The text holds no value.
    Missing,
    /// The text does not begin with a JSON value. Holds the decoder's error.
    Malformed(serde_json::Error),
    /// The first value is an array. Holds its elements.
    Array(Vec<serde_json::Value>),
    /// The first value is a value of another kind.
    Other,
}

impl TopLevel {
    /// The kind of the value.
    pub open spec fn kind(self) -> TopLevelKind {
        match self {
            TopLevel::Missing => TopLevelKind::Missing,
            TopLevel::Malformed(_) => TopLevelKind::Malformed,
            TopLevel::Array(_) => TopLevelKind::Array,
            TopLevel::Other => TopLevelKind::Other,
        }
    }
}

/// The kind of the first JSON value of `text`, as the stream decoder of
/// `serde_json` finds it.
pub uninterp spec fn top_level_kind(text: Seq<char>) -> TopLevelKind;

/// The first item of `serde_json::Deserializer::from_str(..).into_iter()`:
/// the first JSON value of the text, told apart by its kind. The kind depends
/// on the text alone.
#[verifier::external_body]
fn first_value(json_data: &str) -> (top: TopLevel)
    ensures
        top.kind() == top_level_kind(json_data@),
{
    match serde_json::Deserializer::from_str(json_data).into_iter::<serde_json::Value>().next() {
        None => TopLevel::Missing,
        Some(Err(e)) => TopLevel::Malformed(e),
        Some(Ok(serde_json::Value::Array(items))) => TopLevel::Array(items),
        Some(Ok(_)) => TopLevel::Other,
    }
}

/// What is left to the typed decoder.
#[derive(Debug)]
pub enum Undecoded {
    /// The elements of the top-level array, each to be decoded as a record.
    Items(Vec<serde_json::Value>),
    /// The whole document, to be decoded as a list of records.
    Document,
}

/// The elements of a top-level value that is an array, or the error for one
/// that is none.
pub fn array_items(top: TopLevel) -> (items: Result<Vec<serde_json::Value>, BinanceOptionsClientError>)
    ensures
        match top {
            TopLevel::Missing => items matches Err(BinanceOptionsClientError::Unknown(text)) && text@
                == "No JSON data"@,
            TopLevel::Malformed(error) => items matches Err(BinanceOptionsClientError::JsonParse(e))
                && e == error,
            TopLevel::Array(elements) => items matches Ok(v) && v == elements,
            TopLevel::Other => items matches Err(BinanceOptionsClientError::Unknown(text)) && text@
                == "Expected JSON array at top-level"@,
        },
{
    match top {
        TopLevel::Missing => Err(BinanceOptionsClientError::Unknown("No JSON data".to_owned())),
        TopLevel::Malformed(error) => Err(BinanceOptionsClientError::JsonParse(error)),
        TopLevel::Array(elements) => Ok(elements),
        TopLevel::Other => Err(
            BinanceOptionsClientError::Unknown("Expected JSON array at top-level".to_owned()),
        ),
    }
}

/// Whether `items` is what the streaming way gives for a text of this kind:
/// the elements of an array, and an error for anything else.
pub open spec fn is_streamed(
    kind: TopLevelKind,
    items: Result<Vec<serde_json::Value>, BinanceOptionsClientError>,
) -> bool {
    match kind {
        TopLevelKind::Missing => items matches Err(BinanceOptionsClientError::Unknown(text)) && text@
            == "No JSON data"@,
        TopLevelKind::Malformed => items matches Err(BinanceOptionsClientError::JsonParse(_)),
        TopLevelKind::Array => items is Ok,
        TopLevelKind::Other => items matches Err(BinanceOptionsClientError::Unknown(text)) && text@
            == "Expected JSON array at top-level"@,
    }
}

/// The streaming way: decodes the first value of the text, which must be an
/// array, and hands out its elements.
pub fn parse_ticker_streaming(json_data: &str) -> (items: Result<
    Vec<serde_json::Value>,
    BinanceOptionsClientError,
>)
    ensures
        is_streamed(top_level_kind(json_data@), items),
{
    array_items(first_value(json_data))
}

/// The strategy that is taken: the one that was asked for, or the default.
pub open spec fn chosen(strategy: Option<ParsingStrategy>) -> ParsingStrategy {
    match strategy {
        Some(s) => s,
        None => ParsingStrategy::Streaming,
    }
}

/// Takes the answer `data` as far as the strategy goes without the types of
/// the records: on the streaming way to the elements of its array, on the
/// direct way not at all.
pub fn parse_ticker(data: &str, strategy: Option<ParsingStrategy>) -> (left: Result<
    Undecoded,
    BinanceOptionsClientError,
>)
    ensures
        match chosen(strategy) {
            ParsingStrategy::Direct => left matches Ok(Undecoded::Document),
            ParsingStrategy::Streaming => match left {
                Ok(Undecoded::Items(v)) => is_streamed(
                    top_level_kind(data@),
                    Ok::<Vec<serde_json::Value>, BinanceOptionsClientError>(v),
                ),
                Ok(Undecoded::Document) => false,
                Err(e) => is_streamed(
                    top_level_kind(data@),
                    Err::<Vec<serde_json::Value>, BinanceOptionsClientError>(e),
                ),
            },
        },
{
    let strategy = match strategy {
        Some(s) => s,
        None => ParsingStrategy::default(),
    };
    match strategy {
        ParsingStrategy::Streaming => match parse_ticker_streaming(data) {
            Ok(items) => Ok(Undecoded::Items(items)),
            Err(e) => Err(e),
        },
        ParsingStrategy::Direct => Ok(Undecoded::Document),
    }
}

} // verus!
