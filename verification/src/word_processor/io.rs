//! Where text comes from. Reading a file and fetching a URL are left to the
//! caller; what is decided here is which of the two is tried.

use crate::word_processor::error::WordProcessorError;
use crate::text::has_prefix;
use vstd::prelude::*;

verus! {

/// The address of the Project Gutenberg edition of "A Tale of Two Cities".
pub const GUTENBERG_BOOK_URL: &'static str = "https://www.gutenberg.org/files/98/98-0.txt";

/// Whether a source is written as the address of a web page.
pub open spec fn looks_like_url(source: Seq<char>) -> bool {
    "http://"@.is_prefix_of(source) || "https://"@.is_prefix_of(source)
}

/// Whether a source is written as the address of a web page.
pub fn is_url(source: &str) -> (url: bool)
    ensures
        url == looks_like_url(source@),
{
    has_prefix(source, "http://") || has_prefix(source, "https://")
}

/// What is done with a source once it was tried as a file.
#[derive(Debug)]
pub enum SourceStep {
    /// The outcome of reading the file is the outcome.
    Done(Result<String, WordProcessorError>),
    /// The source is to be fetched as a URL.
    FetchUrl,
}

/// Decides how text is read from a source that is a file path or a URL.
///
/// The source is tried as a file first, and `file_result` is what came of
/// that. A source that could not be read as a file and is written as a URL
/// is fetched; any other outcome of reading the file stands.
pub fn read_from_source(source: &str, file_result: Result<String, WordProcessorError>) -> (step:
    SourceStep)
    ensures
        match step {
            SourceStep::FetchUrl => file_result is Err && looks_like_url(source@),
            SourceStep::Done(outcome) => outcome == file_result && !(file_result is Err && looks_like_url(
                source@,
            )),
        },
{
    if file_result.is_err() && is_url(source) {
        SourceStep::FetchUrl
    } else {
        SourceStep::Done(file_result)
    }
}

} // verus!
