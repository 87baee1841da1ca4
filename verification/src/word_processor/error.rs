//! The errors of the word tools.

use vstd::prelude::*;
use vstd::std_specs::convert::FromSpecImpl;
use vstd::string::StringExecFns;

verus! {

/// The error type of `std::io`. Nothing is known of what a value of it holds.
#[verifier::external_type_specification]
#[verifier::external_body]
pub struct ExIoError(std::io::Error);

/// The decimal digits of a number, as `usize::to_string` writes them.
pub uninterp spec fn decimal_of(n: nat) -> Seq<char>;

/// `usize::to_string`: the decimal digits of `n`, which depend on `n` alone.
#[verifier::external_body]
pub(crate) fn usize_text(n: usize) -> (text: String)
    ensures
        text@ == decimal_of(n as nat),
{
    n.to_string()
}

/// The text that `std::io::Error` shows for `error`. It may come from the
/// operating system, so nothing is said of it.
#[verifier::external_body]
fn io_error_text(error: &std::io::Error) -> (text: String) {
    error.to_string()
}

/// Any error of the word tools.
#[derive(Debug)]
pub enum WordProcessorError {
    /// Reading or writing failed.
    Io(IoError),
    /// The text could not be parsed.
    Parser(ParserError),
    /// No capacity could be estimated.
    Capacity(CapacityError),
    /// Anything else.
    Other(String),
}

/// A failure of input or output.
#[derive(Debug)]
pub enum IoError {
    /// A file could not be read.
    FileReadError(std::io::Error),
    /// A file could not be written.
    FileWriteError(std::io::Error),
    /// A URL could not be fetched. Holds the reason.
    UrlFetchError(String),
}

/// A failure of parsing.
#[derive(Debug)]
pub enum ParserError {
    /// The pattern is no valid pattern.
    InvalidPattern(String),
    /// The text is not in the expected encoding.
    EncodingError(String),
}

/// A failure of capacity estimation.
#[derive(Debug)]
pub enum CapacityError {
    /// The text is empty.
    EmptyText,
    /// The sample size is zero.
    InvalidSampleSize(usize),
    /// The capacity factor is not positive. Holds the factor as text.
    InvalidCapacityFactor(String),
}

impl CapacityError {
    /// The text of the error.
    pub open spec fn message_text(self) -> Seq<char> {
        match self {
            CapacityError::EmptyText => "Cannot estimate capacity from empty text"@,
            CapacityError::InvalidSampleSize(size) => "Invalid sample size: "@ + decimal_of(size as nat),
            CapacityError::InvalidCapacityFactor(factor) => "Invalid capacity factor: "@ + factor@,
        }
    }

    /// The text of the error, as it is shown to a person.
    pub fn message(&self) -> (text: String)
        ensures
            text@ == self.message_text(),
    {
        match self {
            CapacityError::EmptyText => "Cannot estimate capacity from empty text".to_owned(),
            CapacityError::InvalidSampleSize(size) => "Invalid sample size: ".to_owned().concat(
                usize_text(*size).as_str(),
            ),
            CapacityError::InvalidCapacityFactor(factor) => "Invalid capacity factor: ".to_owned().concat(
                factor.as_str(),
            ),
        }
    }
}

impl ParserError {
    /// The text of the error.
    pub open spec fn message_text(self) -> Seq<char> {
        match self {
            ParserError::InvalidPattern(reason) => "Invalid pattern: "@ + reason@,
            ParserError::EncodingError(reason) => "Encoding error: "@ + reason@,
        }
    }

    /// The text of the error, as it is shown to a person.
    pub fn message(&self) -> (text: String)
        ensures
            text@ == self.message_text(),
    {
        match self {
            ParserError::InvalidPattern(reason) => "Invalid pattern: ".to_owned().concat(reason.as_str()),
            ParserError::EncodingError(reason) => "Encoding error: ".to_owned().concat(reason.as_str()),
        }
    }
}

impl IoError {
    /// Whether `text` is a text of the error: its heading, followed by the
    /// reason. The reason of a file error is what `std::io` shows for it.
    pub open spec fn is_message(self, text: Seq<char>) -> bool {
        match self {
            IoError::FileReadError(_) => "File read error: "@.is_prefix_of(text),
            IoError::FileWriteError(_) => "File write error: "@.is_prefix_of(text),
            IoError::UrlFetchError(reason) => text == "URL fetch error: "@ + reason@,
        }
    }

    /// The text of the error, as it is shown to a person.
    pub fn message(&self) -> (text: String)
        ensures
            self.is_message(text@),
    {
        match self {
            IoError::FileReadError(error) => {
                let reason = io_error_text(error);
                proof {
                    let all = "File read error: "@ + reason@;
                    assert(all.subrange(0, "File read error: "@.len() as int) =~= "File read error: "@);
                }
                "File read error: ".to_owned().concat(reason.as_str())
            },
            IoError::FileWriteError(error) => {
                let reason = io_error_text(error);
                proof {
                    let all = "File write error: "@ + reason@;
                    assert(all.subrange(0, "File write error: "@.len() as int) =~= "File write error: "@);
                }
                "File write error: ".to_owned().concat(reason.as_str())
            },
            IoError::UrlFetchError(reason) => "URL fetch error: ".to_owned().concat(reason.as_str()),
        }
    }
}

impl WordProcessorError {
    /// Whether `text` is a text of the error: the heading of its kind,
    /// followed by the text of what it holds.
    pub open spec fn is_message(self, text: Seq<char>) -> bool {
        match self {
            WordProcessorError::Io(error) => exists|inner: Seq<char>|
                error.is_message(inner) && text == "IO error: "@ + inner,
            WordProcessorError::Parser(error) => text == "Parser error: "@ + error.message_text(),
            WordProcessorError::Capacity(error) => text == "Capacity error: "@ + error.message_text(),
            WordProcessorError::Other(reason) => text == "Error: "@ + reason@,
        }
    }

    /// The text of the error, as it is shown to a person.
    pub fn message(&self) -> (text: String)
        ensures
            self.is_message(text@),
    {
        match self {
            WordProcessorError::Io(error) => {
                let inner = error.message();
                "IO error: ".to_owned().concat(inner.as_str())
            },
            WordProcessorError::Parser(error) => "Parser error: ".to_owned().concat(error.message().as_str()),
            WordProcessorError::Capacity(error) => "Capacity error: ".to_owned().concat(
                error.message().as_str(),
            ),
            WordProcessorError::Other(reason) => "Error: ".to_owned().concat(reason.as_str()),
        }
    }
}

impl From<IoError> for WordProcessorError {
    fn from(err: IoError) -> (error: Self) {
        WordProcessorError::Io(err)
    }
}

impl FromSpecImpl<IoError> for WordProcessorError {
    open spec fn obeys_from_spec() -> bool {
        true
    }

    open spec fn from_spec(err: IoError) -> Self {
        WordProcessorError::Io(err)
    }
}

impl From<ParserError> for WordProcessorError {
    fn from(err: ParserError) -> (error: Self) {
        WordProcessorError::Parser(err)
    }
}

impl FromSpecImpl<ParserError> for WordProcessorError {
    open spec fn obeys_from_spec() -> bool {
        true
    }

    open spec fn from_spec(err: ParserError) -> Self {
        WordProcessorError::Parser(err)
    }
}

impl From<CapacityError> for WordProcessorError {
    fn from(err: CapacityError) -> (error: Self) {
        WordProcessorError::Capacity(err)
    }
}

impl FromSpecImpl<CapacityError> for WordProcessorError {
    open spec fn obeys_from_spec() -> bool {
        true
    }

    open spec fn from_spec(err: CapacityError) -> Self {
        WordProcessorError::Capacity(err)
    }
}

impl From<std::io::Error> for WordProcessorError {
    fn from(err: std::io::Error) -> (error: Self) {
        WordProcessorError::Io(IoError::FileReadError(err))
    }
}

impl FromSpecImpl<std::io::Error> for WordProcessorError {
    open spec fn obeys_from_spec() -> bool {
        true
    }

    open spec fn from_spec(err: std::io::Error) -> Self {
        WordProcessorError::Io(IoError::FileReadError(err))
    }
}

impl From<String> for WordProcessorError {
    fn from(err: String) -> (error: Self) {
        WordProcessorError::Other(err)
    }
}

impl FromSpecImpl<String> for WordProcessorError {
    open spec fn obeys_from_spec() -> bool {
        true
    }

    open spec fn from_spec(err: String) -> Self {
        WordProcessorError::Other(err)
    }
}

impl<'a> From<&'a str> for WordProcessorError {
    fn from(err: &'a str) -> (error: Self)
        ensures
            error matches WordProcessorError::Other(reason) && reason@ == err@,
    {
        WordProcessorError::Other(err.to_owned())
    }
}

impl<'a> FromSpecImpl<&'a str> for WordProcessorError {
    open spec fn obeys_from_spec() -> bool {
        false
    }

    open spec fn from_spec(err: &'a str) -> Self {
        arbitrary()
    }
}

} // verus!
