//! What a capacity estimate is made from: the words of a text, or of a
//! sample of it, counted with and without repetition.

use crate::table::hasher::Fnv1aHasher;
use crate::table::laws::{keys_of, lemma_insert_adds_key, lemma_insert_present, lemma_insert_then_get, lemma_len_counts_keys};
use crate::table::linked_open_addressing::LinkedOpenAddressing;
use crate::table::traits::HashTable;
use crate::word_processor::config::WordProcessorConfig;
use crate::word_processor::error::{CapacityError, WordProcessorError};
use crate::word_processor::parser::{parse_text, words_of};
use crate::text::{texts, whitespace_split};
use vstd::prelude::*;
use vstd::string::StringSliceAdditionalSpecFns;
use vstd::utf8::{encode_utf8, is_char_boundary};

verus! {

/// How a capacity is estimated.
#[derive(Debug, Clone, Copy, PartialEq, Eq, Structural)]
pub enum EstimationMethod {
    /// From all of the text.
    FullAnalysis,
    /// From a sample of the text, of this many bytes.
    Sampling(usize),
}

impl Default for EstimationMethod {
    /// The full analysis, which is exact.
    fn default() -> (method: Self)
        ensures
            method == EstimationMethod::FullAnalysis,
    {
        EstimationMethod::FullAnalysis
    }
}

/// The first position at or behind `index` at which a character begins, or
/// the length of `bytes` where no character begins there.
pub open spec fn next_boundary(bytes: Seq<u8>, index: int) -> int
    decreases bytes.len() - index,
{
    if 0 <= index < bytes.len() && !is_char_boundary(bytes, index) {
        next_boundary(bytes, index + 1)
    } else {
        index
    }
}

/// The bytes of the sample of a text of `bytes`: the whole text where it is
/// no longer than `sample_size`, else `sample_size` bytes from its middle,
/// moved forward at both ends to where a character begins.
pub open spec fn sample_bytes(bytes: Seq<u8>, sample_size: int) -> Seq<u8> {
    if bytes.len() <= sample_size {
        bytes
    } else {
        let start = (bytes.len() - sample_size) / 2;
        bytes.subrange(next_boundary(bytes, start), next_boundary(bytes, start + sample_size))
    }
}

/// `&text[from..to]`: the part of `text` between two byte positions. Each
/// position is one at which a character begins, or the end of the text.
#[verifier::external_body]
fn slice_between<'a>(text: &'a str, from: usize, to: usize) -> (part: &'a str)
    requires
        from <= to <= text.spec_bytes().len(),
        from == text.spec_bytes().len() || is_char_boundary(text.spec_bytes(), from as int),
        to == text.spec_bytes().len() || is_char_boundary(text.spec_bytes(), to as int),
    ensures
        part.spec_bytes() == text.spec_bytes().subrange(from as int, to as int),
{
    &text[from..to]
}

/// The walk from `index` to the next beginning of a character ends where
/// `next_boundary` says.
proof fn lemma_next_boundary(bytes: Seq<u8>, index: int, reached: int)
    requires
        0 <= index <= reached <= bytes.len(),
        forall|j: int| index <= j < reached ==> !is_char_boundary(bytes, j),
        reached == bytes.len() || is_char_boundary(bytes, reached),
    ensures
        next_boundary(bytes, index) == reached,
    decreases reached - index,
{
    if index < reached {
        lemma_next_boundary(bytes, index + 1, reached);
    }
}

/// Takes a sample of `text` for analysis: `sample_size` bytes from the
/// middle, which stands for the text better than its beginning.
pub fn get_text_sample(text: &str, sample_size: usize) -> (sample: String)
    ensures
        encode_utf8(sample@) == sample_bytes(encode_utf8(text@), sample_size as int),
{
    let len = text.as_bytes().len();
    if len <= sample_size {
        text.to_owned()
    } else {
        let ghost bytes = text.spec_bytes();
        let start = (len - sample_size) / 2;
        let end = start + sample_size;
        let mut safe_start = start;
        while safe_start < len && !text.is_char_boundary(safe_start)
            invariant
                bytes == text.spec_bytes(),
                len == bytes.len(),
                start <= safe_start <= len,
                forall|j: int| start <= j < safe_start ==> !is_char_boundary(bytes, j),
            decreases len - safe_start,
        {
            safe_start = safe_start + 1;
        }
        let mut safe_end = end;
        while safe_end < len && !text.is_char_boundary(safe_end)
            invariant
                bytes == text.spec_bytes(),
                len == bytes.len(),
                end <= safe_end <= len,
                forall|j: int| end <= j < safe_end ==> !is_char_boundary(bytes, j),
            decreases len - safe_end,
        {
            safe_end = safe_end + 1;
        }
        if safe_end > len {
            safe_end = len;
        }
        proof {
            lemma_next_boundary(bytes, start as int, safe_start as int);
            lemma_next_boundary(bytes, end as int, safe_end as int);
        }
        slice_between(text, safe_start, safe_end).to_owned()
    }
}

/// Counts the words of a list without repetition.
pub fn count_unique_words(words: &[String]) -> (count: usize)
    ensures
        count == texts(words@).to_set().len(),
{
    let ghost all = texts(words@);
    let made = LinkedOpenAddressing::<String, (), Fnv1aHasher>::new(words.len());
    match made {
        Err(_) => {
            proof {
                assert(all.to_set() =~= Set::<Seq<char>>::empty());
            }
            0
        },
        Ok(mut seen) => {
            proof {
                assert(keys_of(seen.model()) =~= all.take(0).to_set());
            }
            let mut i: usize = 0;
            while i < words.len()
                invariant
                    i <= words@.len(),
                    all == texts(words@),
                    seen.valid(),
                    seen.model().valid(),
                    seen.model().capacity == words@.len(),
                    seen.model().allocated == seen.model().len(),
                    seen.model().len() <= i,
                    keys_of(seen.model()) == all.take(i as int).to_set(),
                decreases words@.len() - i,
            {
                let ghost before = seen.model();
                let word = words[i].clone();
                proof {
                    lemma_insert_adds_key(before, word@, ());
                    if before.contains_key(word@) {
                        lemma_insert_present(before, word@, ());
                    } else {
                        lemma_insert_then_get(before, word@, ());
                    }
                    assert(all.take(i + 1).to_set() =~= all.take(i as int).to_set().insert(all[i as int])) by {
                        let longer = all.take(i + 1);
                        let shorter = all.take(i as int);
                        assert forall|w: Seq<char>| longer.to_set().contains(w) <==> shorter.to_set().insert(
                            all[i as int],
                        ).contains(w) by {
                            if longer.contains(w) {
                                let j = longer.index_of(w);
                                assert(longer[j] == w);
                                if j < i {
                                    assert(shorter[j] == w);
                                }
                            }
                            if shorter.contains(w) {
                                let j = shorter.index_of(w);
                                assert(longer[j] == w);
                            }
                            if w == all[i as int] {
                                assert(longer[i as int] == w);
                            }
                        }
                    }
                }
                let _ = seen.insert(word, ());
                i = i + 1;
            }
            proof {
                assert(all.take(i as int) =~= all);
                lemma_len_counts_keys(seen.model());
            }
            seen.len()
        },
    }
}

/// What a capacity is estimated from.
#[derive(Debug, Clone, Copy, PartialEq, Eq, Structural)]
pub enum CapacityBasis {
    /// The number of different words of the whole text.
    Full { unique_words: usize },
    /// The counts of a sample: the number of its different words, the number
    /// of its words, and the lengths in bytes of the text and of the sample.
    Sample { unique_words: usize, sample_words: usize, text_len: usize, sample_len: usize },
}

/// The words of a text, as the parser gives them.
pub open spec fn parsed(text: Seq<char>, config: WordProcessorConfig) -> Seq<Seq<char>> {
    words_of(whitespace_split(text), config)
}

/// Gathers what the capacity of a table for the words of `text` is estimated
/// from.
///
/// An empty text is refused, then a capacity factor that is not positive,
/// of which `rejected_factor` holds the text, then a sample size of zero.
pub fn capacity_basis(
    text: &str,
    config: &WordProcessorConfig,
    rejected_factor: Option<String>,
    method: EstimationMethod,
) -> (basis: Result<CapacityBasis, WordProcessorError>)
    ensures
        text@.len() == 0 ==> (basis matches Err(WordProcessorError::Capacity(CapacityError::EmptyText))),
        text@.len() > 0 && rejected_factor is Some ==> (basis matches Err(
            WordProcessorError::Capacity(CapacityError::InvalidCapacityFactor(f)),
        ) && Some(f) == rejected_factor),
        text@.len() > 0 && rejected_factor is None && method == EstimationMethod::Sampling(0) ==> (basis matches Err(
            WordProcessorError::Capacity(CapacityError::InvalidSampleSize(size)),
        ) && size == 0),
        text@.len() > 0 && rejected_factor is None && method != EstimationMethod::Sampling(0) ==> (basis matches Ok(
            b,
        ) && match method {
            EstimationMethod::FullAnalysis => b == (CapacityBasis::Full {
                unique_words: parsed(text@, *config).to_set().len() as usize,
            }),
            EstimationMethod::Sampling(size) => exists|sample: Seq<char>|
                encode_utf8(sample) == sample_bytes(encode_utf8(text@), size as int) && b
                    == (CapacityBasis::Sample {
                    unique_words: parsed(sample, *config).to_set().len() as usize,
                    sample_words: parsed(sample, *config).len() as usize,
                    text_len: encode_utf8(text@).len() as usize,
                    sample_len: encode_utf8(sample).len() as usize,
                }),
        }),
{
    if text.is_empty() {
        return Err(WordProcessorError::Capacity(CapacityError::EmptyText));
    }
    if let Some(factor) = rejected_factor {
        return Err(WordProcessorError::Capacity(CapacityError::InvalidCapacityFactor(factor)));
    }
    match method {
        EstimationMethod::FullAnalysis => {
            let words = parse_text(text, config);
            let unique_words = count_unique_words(words.as_slice());
            Ok(CapacityBasis::Full { unique_words })
        },
        EstimationMethod::Sampling(size) => {
            if size == 0 {
                return Err(WordProcessorError::Capacity(CapacityError::InvalidSampleSize(size)));
            }
            let sample = get_text_sample(text, size);
            let sample_words = parse_text(sample.as_str(), config);
            let unique_words = count_unique_words(sample_words.as_slice());
            proof {
                assert(texts(sample_words@) == parsed(sample@, *config));
            }
            Ok(
                CapacityBasis::Sample {
                    unique_words,
                    sample_words: sample_words.len(),
                    text_len: text.len(),
                    sample_len: sample.as_str().len(),
                },
            )
        },
    }
}

} // verus!
