//! The word parser: text is split at whitespace, and each part is cleaned
//! and kept or dropped as the configuration says.

use crate::word_processor::config::WordProcessorConfig;
use crate::text::{
    chars_of, is_ascii_punctuation_char, is_numeric_char, lowercase_of, same_text, slice_texts,
    split_whitespace, texts, whitespace_split,
};
use vstd::prelude::*;
use vstd::string::StrSliceExecFns;

verus! {

/// The number of punctuation characters at the beginning of `token`.
pub open spec fn leading_punctuation(token: Seq<char>) -> nat
    decreases token.len(),
{
    if token.len() > 0 && is_ascii_punctuation_char(token[0]) {
        1 + leading_punctuation(token.drop_first())
    } else {
        0
    }
}

/// The number of punctuation characters at the end of `token`.
pub open spec fn trailing_punctuation(token: Seq<char>) -> nat
    decreases token.len(),
{
    if token.len() > 0 && is_ascii_punctuation_char(token.last()) {
        1 + trailing_punctuation(token.drop_last())
    } else {
        0
    }
}

/// `token` without the punctuation at its two ends. A token of punctuation
/// alone leaves nothing.
pub open spec fn stripped(token: Seq<char>) -> Seq<char> {
    if leading_punctuation(token) == token.len() {
        Seq::empty()
    } else {
        token.subrange(leading_punctuation(token) as int, token.len() - trailing_punctuation(token))
    }
}

/// Whether every character of `token` is numeric.
pub open spec fn all_numeric(token: Seq<char>) -> bool {
    forall|i: int| 0 <= i < token.len() ==> is_numeric_char(#[trigger] token[i])
}

/// Whether `word`, which is in lower case, is a common English stop word.
pub open spec fn is_stop_word_text(word: Seq<char>) -> bool {
    ||| word == "the"@
    ||| word == "and"@
    ||| word == "a"@
    ||| word == "an"@
    ||| word == "in"@
    ||| word == "on"@
    ||| word == "at"@
    ||| word == "of"@
    ||| word == "to"@
    ||| word == "for"@
    ||| word == "with"@
    ||| word == "by"@
    ||| word == "as"@
    ||| word == "is"@
    ||| word == "are"@
    ||| word == "was"@
    ||| word == "were"@
    ||| word == "be"@
    ||| word == "been"@
    ||| word == "being"@
    ||| word == "this"@
    ||| word == "that"@
    ||| word == "these"@
    ||| word == "those"@
    ||| word == "it"@
}

/// The word that a token gives, if it gives one: the token, stripped of
/// punctuation where the configuration asks for it; nothing, where that is
/// empty, or numeric throughout while numbers are left out; else itself, in
/// lower case where case does not count.
pub open spec fn processed(token: Seq<char>, config: WordProcessorConfig) -> Option<Seq<char>> {
    let cleaned = if config.strip_punctuation {
        stripped(token)
    } else {
        token
    };
    if cleaned.len() == 0 {
        None
    } else if !config.include_numbers && all_numeric(cleaned) {
        None
    } else if !config.case_sensitive {
        Some(lowercase_of(cleaned))
    } else {
        Some(cleaned)
    }
}

/// The words that a sequence of tokens gives: the word of each token that
/// gives one, in order, without the stop words where those are left out.
pub open spec fn words_of(tokens: Seq<Seq<char>>, config: WordProcessorConfig) -> Seq<Seq<char>>
    decreases tokens.len(),
{
    if tokens.len() == 0 {
        Seq::empty()
    } else {
        let before = words_of(tokens.drop_last(), config);
        match processed(tokens.last(), config) {
            Some(word) => if config.skip_stop_words && is_stop_word_text(lowercase_of(word)) {
                before
            } else {
                before.push(word)
            },
            None => before,
        }
    }
}

/// Whether `c` is a punctuation character of ASCII.
pub fn is_punctuation(c: char) -> (punctuation: bool)
    ensures
        punctuation == is_ascii_punctuation_char(c),
{
    c.is_ascii_punctuation()
}

/// The punctuation at the beginning of a token ends where its first other
/// character stands.
proof fn lemma_leading(token: Seq<char>, start: int)
    requires
        0 <= start <= token.len(),
        forall|j: int| 0 <= j < start ==> is_ascii_punctuation_char(#[trigger] token[j]),
        start < token.len() ==> !is_ascii_punctuation_char(token[start]),
    ensures
        leading_punctuation(token) == start,
    decreases token.len(),
{
    if start > 0 {
        let rest = token.drop_first();
        assert forall|j: int| 0 <= j < start - 1 implies is_ascii_punctuation_char(#[trigger] rest[j]) by {
            assert(rest[j] == token[j + 1]);
        }
        lemma_leading(rest, start - 1);
    }
}

/// The punctuation at the end of a token begins behind its last other
/// character.
proof fn lemma_trailing(token: Seq<char>, end: int)
    requires
        0 <= end <= token.len(),
        forall|j: int| end <= j < token.len() ==> is_ascii_punctuation_char(#[trigger] token[j]),
        end > 0 ==> !is_ascii_punctuation_char(token[end - 1]),
    ensures
        trailing_punctuation(token) == token.len() - end,
    decreases token.len(),
{
    if end < token.len() {
        let rest = token.drop_last();
        assert forall|j: int| end <= j < rest.len() implies is_ascii_punctuation_char(#[trigger] rest[j]) by {
            assert(rest[j] == token[j]);
        }
        lemma_trailing(rest, end);
    }
}

/// Strips the punctuation from the beginning and the end of a token.
pub fn strip_punctuation(token: &str) -> (word: String)
    ensures
        word@ == stripped(token@),
{
    let chars = chars_of(token);
    let mut start: usize = 0;
    let mut end: usize = chars.len();
    while start < end && is_punctuation(chars[start])
        invariant
            start <= end == chars@.len(),
            forall|j: int| 0 <= j < start ==> is_ascii_punctuation_char(#[trigger] chars@[j]),
        decreases end - start,
    {
        start = start + 1;
    }
    proof {
        lemma_leading(chars@, start as int);
    }
    while end > start && is_punctuation(chars[end - 1])
        invariant
            start <= end <= chars@.len(),
            forall|j: int| end <= j < chars@.len() ==> is_ascii_punctuation_char(#[trigger] chars@[j]),
        decreases end,
    {
        end = end - 1;
    }
    if start >= end {
        String::new()
    } else {
        proof {
            lemma_trailing(chars@, end as int);
        }
        token.substring_char(start, end).to_owned()
    }
}

/// Whether a word is a common English stop word, whatever its case.
pub fn is_stop_word(word: &str) -> (stop: bool)
    ensures
        stop == is_stop_word_text(lowercase_of(word@)),
{
    let lower_word = word.to_lowercase();
    let w = lower_word.as_str();
    same_text(w, "the")
        || same_text(w, "and")
        || same_text(w, "a")
        || same_text(w, "an")
        || same_text(w, "in")
        || same_text(w, "on")
        || same_text(w, "at")
        || same_text(w, "of")
        || same_text(w, "to")
        || same_text(w, "for")
        || same_text(w, "with")
        || same_text(w, "by")
        || same_text(w, "as")
        || same_text(w, "is")
        || same_text(w, "are")
        || same_text(w, "was")
        || same_text(w, "were")
        || same_text(w, "be")
        || same_text(w, "been")
        || same_text(w, "being")
        || same_text(w, "this")
        || same_text(w, "that")
        || same_text(w, "these")
        || same_text(w, "those")
        || same_text(w, "it")
}

/// Whether every character of `token` is numeric.
fn is_all_numeric(token: &str) -> (numeric: bool)
    ensures
        numeric == all_numeric(token@),
{
    let chars = chars_of(token);
    let mut i: usize = 0;
    while i < chars.len()
        invariant
            i <= chars@.len(),
            chars@ == token@,
            forall|j: int| 0 <= j < i ==> is_numeric_char(#[trigger] chars@[j]),
        decreases chars@.len() - i,
    {
        if !chars[i].is_numeric() {
            return false;
        }
        i = i + 1;
    }
    true
}

/// Turns one token into a word, or into nothing, as the configuration says.
pub fn process_token(token: &str, config: &WordProcessorConfig) -> (word: Option<String>)
    ensures
        match word {
            Some(w) => processed(token@, *config) == Some(w@),
            None => processed(token@, *config) is None,
        },
{
    let token = if config.strip_punctuation {
        strip_punctuation(token)
    } else {
        token.to_owned()
    };
    if token.as_str().is_empty() {
        return None;
    }
    if !config.include_numbers && is_all_numeric(token.as_str()) {
        return None;
    }
    let token = if !config.case_sensitive {
        token.as_str().to_lowercase()
    } else {
        token
    };
    Some(token)
}

/// Turns tokens into words: each token is processed, and its word is kept
/// unless it is a stop word and stop words are left out.
pub fn collect_words(tokens: &Vec<&str>, config: &WordProcessorConfig) -> (words: Vec<String>)
    ensures
        texts(words@) == words_of(slice_texts(tokens@), *config),
{
    let ghost all = slice_texts(tokens@);
    let mut result: Vec<String> = Vec::new();
    let mut i: usize = 0;
    while i < tokens.len()
        invariant
            i <= tokens@.len(),
            all == slice_texts(tokens@),
            texts(result@) == words_of(all.take(i as int), *config),
        decreases tokens@.len() - i,
    {
        proof {
            assert(all.take(i + 1).drop_last() =~= all.take(i as int));
            assert(all.take(i + 1).last() == tokens@[i as int]@);
        }
        let processed = process_token(tokens[i], config);
        if let Some(word) = processed {
            if !config.skip_stop_words || !is_stop_word(word.as_str()) {
                proof {
                    assert(texts(result@.push(word)) =~= texts(result@).push(word@));
                }
                result.push(word);
            }
        }
        i = i + 1;
    }
    proof {
        assert(all.take(i as int) =~= all);
    }
    result
}

/// Parses text into words: the text is split at whitespace, and the parts
/// are turned into words as `collect_words` does.
pub fn parse_text(text: &str, config: &WordProcessorConfig) -> (words: Vec<String>)
    ensures
        texts(words@) == words_of(whitespace_split(text@), *config),
{
    let tokens = split_whitespace(text);
    proof {
        assert(slice_texts(tokens@) =~= whitespace_split(text@));
    }
    collect_words(&tokens, config)
}

} // verus!
