//! Counting how often each word of a text occurs, in a table whose capacity
//! is fixed beforehand, and reading the capacity that was asked for.

use crate::table::error::TableError;
use crate::table::hasher::Fnv1aHasher;
use crate::table::laws::{
    lemma_capacity_is_kept, lemma_entry_is_found, lemma_insert_keeps_others, lemma_insert_present,
    lemma_insert_then_get,
};
use crate::table::linked_open_addressing::LinkedOpenAddressing;
use crate::table::model::TableModel;
use crate::table::traits::HashTable;
use crate::word_processor::error::{decimal_of, usize_text};
use crate::text::{chars_of, has_prefix, texts};
use vstd::prelude::*;
use vstd::string::{StrSliceExecFns, StringExecFns};

verus! {

/// The capacity of the table, as it is asked for on the command line.
#[derive(Debug, Clone, Copy, PartialEq, Eq, Structural)]
pub enum CapacityConfig {
    /// A fixed size.
    Fixed(usize),
    /// The size that a full analysis of the text gives.
    Auto,
    /// The size that a sample of the text of this many bytes gives.
    Sampling(usize),
}

/// A character with an upper-case letter of ASCII put in lower case.
pub open spec fn ascii_lower_char(c: char) -> char {
    if 'A' <= c <= 'Z' {
        ((c as u32) + 32) as char
    } else {
        c
    }
}

/// A text with its upper-case letters of ASCII put in lower case.
pub open spec fn ascii_lower(text: Seq<char>) -> Seq<char> {
    text.map_values(|c: char| ascii_lower_char(c))
}

/// `str::eq_ignore_ascii_case` compares the two texts with their upper-case
/// letters of ASCII put in lower case, as its documentation says.
pub assume_specification[ str::eq_ignore_ascii_case ](a: &str, b: &str) -> (equal: bool)
    ensures
        equal == (ascii_lower(a@) == ascii_lower(b@)),
;

/// The number that a text is read as by `str::parse::<usize>`, if it is read
/// as one.
pub uninterp spec fn parsed_usize(text: Seq<char>) -> Option<usize>;

/// `str::parse::<usize>`, without its error. The outcome depends on the text
/// alone.
#[verifier::external_body]
fn parse_usize(text: &str) -> (number: Option<usize>)
    ensures
        number == parsed_usize(text@),
{
    text.parse::<usize>().ok()
}

/// The number of times that `item` occurs in `items`.
pub open spec fn occurrences<A>(items: Seq<A>, item: A) -> nat
    decreases items.len(),
{
    if items.len() == 0 {
        0
    } else {
        occurrences(items.drop_last(), item) + if items.last() == item {
            1nat
        } else {
            0nat
        }
    }
}

/// What a text on the command line asks for: `auto` in any case, `sample:`
/// followed by a size, or a size alone. Anything else is refused with a text
/// that says why.
pub open spec fn capacity_config_of(text: Seq<char>) -> Result<CapacityConfig, Seq<char>> {
    if ascii_lower(text) == ascii_lower("auto"@) {
        Ok(CapacityConfig::Auto)
    } else if "sample:"@.is_prefix_of(text) {
        if occurrences(text, ':') != 1 {
            Err("Sampling format should be 'sample:SIZE'"@)
        } else {
            match parsed_usize(text.subrange("sample:"@.len() as int, text.len() as int)) {
                Some(size) => Ok(CapacityConfig::Sampling(size)),
                None => Err("Invalid sample size, must be a positive number"@),
            }
        }
    } else {
        match parsed_usize(text) {
            Some(size) => Ok(CapacityConfig::Fixed(size)),
            None => Err("Invalid capacity: '"@ + text + "'. Use a number, 'auto', or 'sample:SIZE'"@),
        }
    }
}

/// Counts the colons of a text.
fn count_colons(chars: &Vec<char>) -> (count: usize)
    ensures
        count == occurrences(chars@, ':'),
{
    let mut count: usize = 0;
    let mut i: usize = 0;
    while i < chars.len()
        invariant
            i <= chars@.len(),
            count == occurrences(chars@.take(i as int), ':'),
            count <= i,
        decreases chars@.len() - i,
    {
        proof {
            assert(chars@.take(i + 1).drop_last() =~= chars@.take(i as int));
        }
        if chars[i] == ':' {
            count = count + 1;
        }
        i = i + 1;
    }
    proof {
        assert(chars@.take(i as int) =~= chars@);
    }
    count
}

impl CapacityConfig {
    /// Reads a capacity from the text that was given on the command line.
    pub fn parse(s: &str) -> (config: Result<CapacityConfig, String>)
        ensures
            match config {
                Ok(c) => capacity_config_of(s@) == Ok::<CapacityConfig, Seq<char>>(c),
                Err(reason) => capacity_config_of(s@) == Err::<CapacityConfig, Seq<char>>(reason@),
            },
    {
        if s.eq_ignore_ascii_case("auto") {
            Ok(CapacityConfig::Auto)
        } else if has_prefix(s, "sample:") {
            let chars = chars_of(s);
            if count_colons(&chars) != 1 {
                return Err("Sampling format should be 'sample:SIZE'".to_owned());
            }
            proof {
                reveal_strlit("sample:");
            }
            match parse_usize(s.substring_char(7, chars.len())) {
                Some(size) => Ok(CapacityConfig::Sampling(size)),
                None => Err("Invalid sample size, must be a positive number".to_owned()),
            }
        } else {
            match parse_usize(s) {
                Some(size) => Ok(CapacityConfig::Fixed(size)),
                None => Err(
                    "Invalid capacity: '".to_owned().concat(s).concat(
                        "'. Use a number, 'auto', or 'sample:SIZE'",
                    ),
                ),
            }
        }
    }

    /// The text that describes the capacity.
    pub open spec fn label_text(self) -> Seq<char> {
        match self {
            CapacityConfig::Fixed(size) => decimal_of(size as nat) + " (fixed)"@,
            CapacityConfig::Auto => "auto (full analysis)"@,
            CapacityConfig::Sampling(size) => "auto (sampling with "@
                + decimal_of(size as nat) + " chars)"@,
        }
    }

    /// The text that describes the capacity, as it is shown to a person.
    pub fn label(&self) -> (text: String)
        ensures
            text@ == self.label_text(),
    {
        match self {
            CapacityConfig::Fixed(size) => usize_text(*size).concat(" (fixed)"),
            CapacityConfig::Auto => "auto (full analysis)".to_owned(),
            CapacityConfig::Sampling(size) => "auto (sampling with ".to_owned().concat(
                usize_text(*size).as_str(),
            ).concat(" chars)"),
        }
    }
}

impl std::str::FromStr for CapacityConfig {
    type Err = String;

    /// Reads a capacity from the text that was given on the command line, as
    /// `CapacityConfig::parse` does.
    fn from_str(s: &str) -> (config: Result<Self, String>)
        ensures
            match config {
                Ok(c) => capacity_config_of(s@) == Ok::<CapacityConfig, Seq<char>>(c),
                Err(reason) => capacity_config_of(s@) == Err::<CapacityConfig, Seq<char>>(reason@),
            },
    {
        CapacityConfig::parse(s)
    }
}

/// The count that a word gets when it is met once more.
pub open spec fn next_count(seen: Option<usize>) -> usize {
    match seen {
        Some(count) => (count + 1) as usize,
        None => 1,
    }
}

/// The table of the counts of `words`, in a table of the given capacity: the
/// words are met in order, and each is written with one more than the count
/// it had. The first word that the table has no room for ends the count, as
/// does a capacity of zero.
pub open spec fn word_counts(words: Seq<Seq<char>>, capacity: nat) -> Result<
    TableModel<Seq<char>, usize>,
    TableError,
>
    decreases words.len(),
{
    if capacity == 0 {
        Err(TableError::ZeroCapacity)
    } else if words.len() == 0 {
        Ok(TableModel::empty(capacity))
    } else {
        match word_counts(words.drop_last(), capacity) {
            Err(e) => Err(e),
            Ok(counted) => match counted.insert_result(words.last()) {
                Err(e) => Err(e),
                Ok(_) => Ok(counted.insert(words.last(), next_count(counted.get(words.last())))),
            },
        }
    }
}

/// An item occurs in a list no more often than the list is long.
pub proof fn lemma_occurrences_bound<A>(items: Seq<A>, item: A)
    ensures
        occurrences(items, item) <= items.len(),
    decreases items.len(),
{
    if items.len() > 0 {
        lemma_occurrences_bound(items.drop_last(), item);
    }
}

/// What holds of the counts of a list of words: the table is valid, no count
/// is larger than the list is long, and each word is found with the number
/// of times that it occurs.
pub proof fn lemma_word_counts(words: Seq<Seq<char>>, capacity: nat)
    requires
        word_counts(words, capacity) is Ok,
        words.len() < usize::MAX,
    ensures
        ({
            let counted = word_counts(words, capacity)->Ok_0;
            &&& counted.valid()
            &&& counted.capacity == capacity
            &&& forall|i: int| 0 <= i < counted.entries.len() ==> (#[trigger] counted.entries[i]).1 <= words.len()
            &&& forall|word: Seq<char>|
                counted.get(word) == (if occurrences(words, word) > 0 {
                    Some(occurrences(words, word) as usize)
                } else {
                    None
                })
            &&& words.len() > 0 ==> (counted.last() matches Some(e) && e.0 == words.last())
        }),
    decreases words.len(),
{
    let counted = word_counts(words, capacity)->Ok_0;
    if words.len() == 0 {
        assert forall|word: Seq<char>| counted.get(word) is None by {
            if counted.contains_key(word) {
                let i = counted.index_of(word);
                assert(counted.entries[i].0 == word);
            }
        }
    } else {
        let before = word_counts(words.drop_last(), capacity)->Ok_0;
        let last = words.last();
        let count = next_count(before.get(last));
        lemma_word_counts(words.drop_last(), capacity);
        lemma_capacity_is_kept(before, last, count);
        if before.contains_key(last) {
            lemma_insert_present(before, last, count);
        } else {
            lemma_insert_then_get(before, last, count);
        }
        assert forall|word: Seq<char>|
            counted.get(word) == (if occurrences(words, word) > 0 {
                Some(occurrences(words, word) as usize)
            } else {
                None
            }) by {
            lemma_occurrences_bound(words.drop_last(), word);
            if word != last {
                lemma_insert_keeps_others(before, last, count, word);
            } else {
                assert(counted.get(last) == Some(count));
                assert(occurrences(words, last) == occurrences(words.drop_last(), last) + 1);
            }
        }
        assert forall|i: int| 0 <= i < counted.entries.len() implies (#[trigger] counted.entries[i]).1
            <= words.len() by {
            lemma_entry_is_found(counted, i);
            let word = counted.entries[i].0;
            if word != last {
                lemma_insert_keeps_others(before, last, count, word);
                let j = before.index_of(word);
                lemma_entry_is_found(before, j);
            }
        }
    }
}

/// Counts how often each word of `words` occurs, in a table of the given
/// capacity. The table keeps the words in the order in which they were last
/// met.
///
/// A capacity of zero is refused, and so is a list with more different words
/// than the capacity.
pub fn count_words(words: &Vec<String>, capacity: usize) -> (counted: Result<
    LinkedOpenAddressing<String, usize, Fnv1aHasher>,
    TableError,
>)
    ensures
        match counted {
            Ok(table) => table.valid() && word_counts(texts(words@), capacity as nat) == Ok::<
                TableModel<Seq<char>, usize>,
                TableError,
            >(table.model()),
            Err(e) => word_counts(texts(words@), capacity as nat) == Err::<
                TableModel<Seq<char>, usize>,
                TableError,
            >(e),
        },
{
    let ghost all = texts(words@);
    let mut table = match LinkedOpenAddressing::<String, usize, Fnv1aHasher>::new(capacity) {
        Ok(table) => table,
        Err(e) => {
            return Err(e);
        },
    };
    proof {
        assert(all.take(0) =~= Seq::<Seq<char>>::empty());
    }
    let mut i: usize = 0;
    while i < words.len()
        invariant
            i <= words@.len(),
            capacity > 0,
            all == texts(words@),
            table.valid(),
            word_counts(all.take(i as int), capacity as nat) == Ok::<
                TableModel<Seq<char>, usize>,
                TableError,
            >(table.model()),
        decreases words@.len() - i,
    {
        proof {
            assert(all.take(i + 1).drop_last() =~= all.take(i as int));
            assert(all.take(i + 1).last() == words@[i as int]@);
            lemma_word_counts(all.take(i as int), capacity as nat);
        }
        let word = words[i].clone();
        let count = match table.get(&word) {
            Some(count) => {
                proof {
                    let at = table.model().index_of(word@);
                    assert(table.model().entries[at].0 == word@);
                }
                *count + 1
            },
            None => 1,
        };
        match table.insert(word, count) {
            Ok(_) => {},
            Err(e) => {
                proof {
                    lemma_word_counts_fail(all, capacity as nat, i + 1);
                }
                return Err(e);
            },
        }
        i = i + 1;
    }
    proof {
        assert(all.take(i as int) =~= all);
    }
    Ok(table)
}

/// A count that has failed for the beginning of a list has failed for the
/// list, with the same error.
pub proof fn lemma_word_counts_fail(words: Seq<Seq<char>>, capacity: nat, n: int)
    requires
        0 <= n <= words.len(),
        word_counts(words.take(n), capacity) is Err,
    ensures
        word_counts(words, capacity) == word_counts(words.take(n), capacity),
    decreases words.len() - n,
{
    if n < words.len() {
        assert(words.take(n + 1).drop_last() =~= words.take(n));
        lemma_word_counts_fail(words, capacity, n + 1);
    } else {
        assert(words.take(n) =~= words);
    }
}

} // verus!
