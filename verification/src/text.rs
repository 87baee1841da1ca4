//! The text functions of the standard library that the crate rests on, with
//! what is known of each, and a few helpers on text.

use vstd::prelude::*;

verus! {

/// Whether `c` is one of the punctuation characters of ASCII:
/// `! " # $ % & ' ( ) * + , - . /`, `: ; < = > ? @`, `` [ \ ] ^ _ ` `` and
/// `{ | } ~`.
pub open spec fn is_ascii_punctuation_char(c: char) -> bool {
    let code = c as u32;
    ||| 0x21 <= code <= 0x2F
    ||| 0x3A <= code <= 0x40
    ||| 0x5B <= code <= 0x60
    ||| 0x7B <= code <= 0x7E
}

/// `char::is_ascii_punctuation` answers for the four ranges of ASCII
/// punctuation that its documentation lists.
pub assume_specification[ char::is_ascii_punctuation ](c: &char) -> (punctuation: bool)
    ensures
        punctuation == is_ascii_punctuation_char(*c),
;

/// Whether `c` counts as numeric for `char::is_numeric`: a character of one
/// of the Unicode categories `Nd`, `Nl` and `No`.
pub uninterp spec fn is_numeric_char(c: char) -> bool;

/// `char::is_numeric` depends on the character alone.
pub assume_specification[ char::is_numeric ](c: char) -> (numeric: bool)
    ensures
        numeric == is_numeric_char(c),
;

/// The lower-case form of a text, as `str::to_lowercase` gives it.
pub uninterp spec fn lowercase_of(text: Seq<char>) -> Seq<char>;

/// `str::to_lowercase` depends on the text alone.
pub assume_specification[ str::to_lowercase ](text: &str) -> (lower: String)
    ensures
        lower@ == lowercase_of(text@),
;

/// The words of a text, as `str::split_whitespace` gives them: the parts of
/// the text between runs of Unicode whitespace, in their order.
pub uninterp spec fn whitespace_split(text: Seq<char>) -> Seq<Seq<char>>;

/// `str::split_whitespace`, with the parts gathered in a vector. The parts
/// depend on the text alone.
#[verifier::external_body]
pub(crate) fn split_whitespace<'a>(text: &'a str) -> (parts: Vec<&'a str>)
    ensures
        parts@.len() == whitespace_split(text@).len(),
        forall|i: int| 0 <= i < parts@.len() ==> (#[trigger] parts@[i])@ == whitespace_split(text@)[i],
{
    text.split_whitespace().collect()
}

/// `==` on `str`: two string slices are equal exactly if they hold the same
/// characters.
pub assume_specification[ <str as PartialEq>::eq ](a: &str, b: &str) -> (equal: bool)
    ensures
        equal == (a@ == b@),
;

/// Whether two texts hold the same characters.
pub fn same_text(a: &str, b: &str) -> (same: bool)
    ensures
        same == (a@ == b@),
{
    *a == *b
}

/// The characters of `text`, in a vector.
pub fn chars_of(text: &str) -> (chars: Vec<char>)
    ensures
        chars@ == text@,
{
    let mut chars: Vec<char> = Vec::new();
    for c in it: text.chars()
        invariant
            chars@ == it.seq().take(it.index()),
            it.seq() == text@,
    {
        chars.push(c);
    }
    chars
}

/// The views of a sequence of strings.
pub open spec fn texts(words: Seq<String>) -> Seq<Seq<char>> {
    Seq::new(words.len(), |i: int| words[i]@)
}

/// The views of a sequence of string slices.
pub open spec fn slice_texts(parts: Seq<&str>) -> Seq<Seq<char>> {
    Seq::new(parts.len(), |i: int| parts[i]@)
}

/// Whether `text` begins with `prefix`.
pub fn has_prefix(text: &str, prefix: &str) -> (begins: bool)
    ensures
        begins == prefix@.is_prefix_of(text@),
{
    let text_chars = chars_of(text);
    let prefix_chars = chars_of(prefix);
    if prefix_chars.len() > text_chars.len() {
        return false;
    }
    let mut i: usize = 0;
    while i < prefix_chars.len()
        invariant
            i <= prefix_chars@.len() <= text_chars@.len(),
            text_chars@ == text@,
            prefix_chars@ == prefix@,
            forall|j: int| 0 <= j < i ==> text@[j] == prefix@[j],
        decreases prefix_chars@.len() - i,
    {
        if text_chars[i] != prefix_chars[i] {
            proof {
                if prefix@.is_prefix_of(text@) {
                    assert(text@.subrange(0, prefix@.len() as int)[i as int] == prefix@[i as int]);
                }
            }
            return false;
        }
        i = i + 1;
    }
    proof {
        assert(text@.subrange(0, prefix@.len() as int) =~= prefix@);
    }
    true
}

} // verus!
