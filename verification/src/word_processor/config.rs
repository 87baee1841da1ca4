//! How text is turned into words.

use vstd::prelude::*;

verus! {

/// The settings of the word parser.
#[derive(Debug, Clone)]
pub struct WordProcessorConfig {
    /// Whether words keep their case. Where they do not, they are put in
    /// lower case. Default: true.
    pub case_sensitive: bool,
    /// Whether words made of numeric characters only are kept. Default: false.
    pub include_numbers: bool,
    /// A custom pattern for words. The parser does not read it.
    pub custom_pattern: Option<String>,
    /// Whether punctuation is stripped from both ends of a word. Default: true.
    pub strip_punctuation: bool,
    /// Whether stop words are left out. Default: false.
    pub skip_stop_words: bool,
}

impl Default for WordProcessorConfig {
    fn default() -> (config: Self)
        ensures
            config.case_sensitive,
            !config.include_numbers,
            config.custom_pattern is None,
            config.strip_punctuation,
            !config.skip_stop_words,
    {
        WordProcessorConfig {
            case_sensitive: true,
            include_numbers: false,
            custom_pattern: None,
            strip_punctuation: true,
            skip_stop_words: false,
        }
    }
}

impl WordProcessorConfig {
    /// Sets whether words keep their case.
    pub fn case_sensitive(self, value: bool) -> (config: Self)
        ensures
            config == (WordProcessorConfig { case_sensitive: value, ..self }),
    {
        let mut config = self;
        config.case_sensitive = value;
        config
    }

    /// Sets whether words made of numeric characters only are kept.
    pub fn include_numbers(self, value: bool) -> (config: Self)
        ensures
            config == (WordProcessorConfig { include_numbers: value, ..self }),
    {
        let mut config = self;
        config.include_numbers = value;
        config
    }

    /// Sets a custom pattern for words: `pattern`, turned into a `String`.
    pub fn custom_pattern<P: Into<String>>(self, pattern: P) -> (config: Self)
        ensures
            config.custom_pattern matches Some(text) && call_ensures(
                <P as Into<String>>::into,
                (pattern,),
                text,
            ),
            config == (WordProcessorConfig { custom_pattern: config.custom_pattern, ..self }),
    {
        let mut config = self;
        config.custom_pattern = Some(pattern.into());
        config
    }

    /// Sets whether punctuation is stripped from both ends of a word.
    pub fn strip_punctuation(self, value: bool) -> (config: Self)
        ensures
            config == (WordProcessorConfig { strip_punctuation: value, ..self }),
    {
        let mut config = self;
        config.strip_punctuation = value;
        config
    }

    /// Sets whether stop words are left out.
    pub fn skip_stop_words(self, value: bool) -> (config: Self)
        ensures
            config == (WordProcessorConfig { skip_stop_words: value, ..self }),
    {
        let mut config = self;
        config.skip_stop_words = value;
        config
    }
}

} // verus!
