use hash_table::word_processor::capacity::{
    capacity_basis, count_unique_words, get_text_sample, CapacityBasis, EstimationMethod,
};
use hash_table::word_processor::error::{CapacityError, IoError, ParserError, WordProcessorError};
use hash_table::word_processor::io::{is_url, read_from_source, SourceStep, GUTENBERG_BOOK_URL};
use hash_table::word_processor::parser::{
    collect_words, is_punctuation, is_stop_word, process_token, strip_punctuation,
};
use hash_table::text::{chars_of, has_prefix, same_text};
use hash_table::word_processor::{parse_text, WordProcessorConfig};

#[test]
fn words_are_put_in_lower_case_where_case_does_not_count() {
    let conf = WordProcessorConfig::default().case_sensitive(false);
    let words = parse_text("Hello World!", &conf);
    assert_eq!(words, vec!["hello", "world"]);
    let conf = WordProcessorConfig::default();
    let words = parse_text("Hello World!", &conf);
    assert_eq!(words, vec!["Hello", "World"]);
}

#[test]
fn test_basic_parsing() {
    let text = "Hello, World! This is a test.";
    let config = WordProcessorConfig::default();

    let words = parse_text(text, &config);
    assert_eq!(words, vec!["Hello", "World", "This", "is", "a", "test"]);
}

#[test]
fn test_case_sensitivity() {
    let text = "Hello World";

    let mut config = WordProcessorConfig::default();
    config.case_sensitive = false;

    let words = parse_text(text, &config);
    assert_eq!(words, vec!["hello", "world"]);
}

#[test]
fn default_configuration() {
    let config = WordProcessorConfig::default();
    assert!(config.case_sensitive);
    assert!(!config.include_numbers);
    assert!(config.custom_pattern.is_none());
    assert!(config.strip_punctuation);
    assert!(!config.skip_stop_words);
    let config = config
        .case_sensitive(false)
        .include_numbers(true)
        .custom_pattern("[a-z]+")
        .strip_punctuation(false)
        .skip_stop_words(true);
    assert!(!config.case_sensitive);
    assert!(config.include_numbers);
    assert_eq!(config.custom_pattern.as_deref(), Some("[a-z]+"));
    assert!(!config.strip_punctuation);
    assert!(config.skip_stop_words);
    let config = config.custom_pattern(String::from("\\w+"));
    assert_eq!(config.custom_pattern.as_deref(), Some("\\w+"));
    assert!(!config.case_sensitive);
}

#[test]
fn punctuation_is_stripped_at_the_ends_only() {
    assert_eq!(strip_punctuation("\"Hello,\""), "Hello");
    assert_eq!(strip_punctuation("don't"), "don't");
    assert_eq!(strip_punctuation("--a-b--"), "a-b");
    assert_eq!(strip_punctuation("..."), "");
    assert_eq!(strip_punctuation(""), "");
    assert_eq!(strip_punctuation("x"), "x");
    assert_eq!(strip_punctuation("(caf\u{e9})"), "caf\u{e9}");
    assert_eq!(strip_punctuation("\u{201c}quoted\u{201d}"), "\u{201c}quoted\u{201d}");
    assert!(is_punctuation('!'));
    assert!(is_punctuation('/'));
    assert!(is_punctuation(':'));
    assert!(is_punctuation('@'));
    assert!(is_punctuation('['));
    assert!(is_punctuation('`'));
    assert!(is_punctuation('{'));
    assert!(is_punctuation('~'));
    assert!(!is_punctuation(' '));
    assert!(!is_punctuation('0'));
    assert!(!is_punctuation('9'));
    assert!(!is_punctuation('A'));
    assert!(!is_punctuation('Z'));
    assert!(!is_punctuation('a'));
    assert!(!is_punctuation('z'));
    assert!(!is_punctuation('\u{7f}'));
    assert!(!is_punctuation('\u{201c}'));
}

#[test]
fn tokens_are_processed_as_configured() {
    let config = WordProcessorConfig::default();
    assert_eq!(process_token("word.", &config), Some("word".to_owned()));
    assert_eq!(process_token("!!!", &config), None);
    assert_eq!(process_token("1984", &config), None);
    assert_eq!(process_token("(1984)", &config), None);
    assert_eq!(process_token("a1", &config), Some("a1".to_owned()));
    let numbers = WordProcessorConfig::default().include_numbers(true);
    assert_eq!(process_token("1984,", &numbers), Some("1984".to_owned()));
    let raw = WordProcessorConfig::default().strip_punctuation(false);
    assert_eq!(process_token("word.", &raw), Some("word.".to_owned()));
    assert_eq!(process_token("!!!", &raw), Some("!!!".to_owned()));
    let lower = WordProcessorConfig::default().case_sensitive(false);
    assert_eq!(process_token("MiXed!", &lower), Some("mixed".to_owned()));
}

#[test]
fn stop_words_are_left_out_when_asked() {
    assert!(is_stop_word("the"));
    assert!(is_stop_word("The"));
    assert!(is_stop_word("IT"));
    assert!(is_stop_word("those"));
    assert!(!is_stop_word("fox"));
    assert!(!is_stop_word(""));
    let config = WordProcessorConfig::default().skip_stop_words(true);
    let words = parse_text("The quick brown fox is in the 2 boxes.", &config);
    assert_eq!(words, vec!["quick", "brown", "fox", "boxes"]);
    let words = collect_words(&vec!["A", "b", "", "And", "c."], &config);
    assert_eq!(words, vec!["b", "c"]);
}

#[test]
fn whitespace_of_every_kind_splits() {
    let config = WordProcessorConfig::default();
    let words = parse_text("  one\ttwo\nthree\u{a0}four\u{2003}five  ", &config);
    assert_eq!(words, vec!["one", "two", "three", "four", "five"]);
    assert!(parse_text("", &config).is_empty());
    assert!(parse_text(" \n\t ", &config).is_empty());
}

#[test]
fn text_helpers() {
    assert_eq!(chars_of("h\u{e9}!"), vec!['h', '\u{e9}', '!']);
    assert!(has_prefix("https://x", "https://"));
    assert!(!has_prefix("http", "http://"));
    assert!(has_prefix("abc", ""));
    assert!(!has_prefix("abd", "abc"));
    assert!(same_text("abc", "abc"));
    assert!(!same_text("abc", "abd"));
}

#[test]
fn sample_comes_from_the_middle() {
    assert_eq!(get_text_sample("short", 10), "short");
    assert_eq!(get_text_sample("short", 5), "short");
    assert_eq!(get_text_sample("0123456789", 4), "3456");
    assert_eq!(get_text_sample("0123456789", 3), "345");
    assert_eq!(get_text_sample("0123456789", 0), "");
    // Both ends move forward to the beginning of a character.
    assert_eq!(get_text_sample("a\u{e9}\u{e9}\u{e9}b", 2), "\u{e9}");
    assert_eq!(get_text_sample("\u{e9}\u{e9}\u{e9}", 1), "\u{e9}");
    assert_eq!(get_text_sample("ab\u{20ac}", 1), "\u{20ac}");
}

#[test]
fn unique_words_are_counted() {
    let words: Vec<String> = ["a", "b", "a", "c", "b", "a"].iter().map(|w| w.to_string()).collect();
    assert_eq!(count_unique_words(&words), 3);
    assert_eq!(count_unique_words(&[]), 0);
    assert_eq!(count_unique_words(&["x".to_owned()]), 1);
    assert_eq!(count_unique_words(&["A".to_owned(), "a".to_owned()]), 2);
}

#[test]
fn test_empty_text() {
    let text = "";
    let config = WordProcessorConfig::default();

    let result = capacity_basis(text, &config, None, EstimationMethod::FullAnalysis);

    assert!(result.is_err());
    if let Err(WordProcessorError::Capacity(CapacityError::EmptyText)) = result {
        // Expected error
    } else {
        panic!("Expected EmptyText error");
    }
}

#[test]
fn capacity_basis_of_a_text() {
    let text = "The quick brown fox jumps over the lazy dog. The fox is quick.";
    let config = WordProcessorConfig::default();
    assert_eq!(EstimationMethod::default(), EstimationMethod::FullAnalysis);
    let basis = capacity_basis(text, &config, None, EstimationMethod::FullAnalysis).unwrap();
    assert_eq!(basis, CapacityBasis::Full { unique_words: 10 });
    let basis = capacity_basis(text, &config, None, EstimationMethod::Sampling(20)).unwrap();
    // The sample is "fox jumps over the l".
    assert_eq!(
        basis,
        CapacityBasis::Sample { unique_words: 5, sample_words: 5, text_len: 62, sample_len: 20 }
    );
    let basis = capacity_basis(text, &config, None, EstimationMethod::Sampling(100)).unwrap();
    assert_eq!(
        basis,
        CapacityBasis::Sample { unique_words: 10, sample_words: 13, text_len: 62, sample_len: 62 }
    );
    let basis = capacity_basis("...", &config, None, EstimationMethod::Sampling(2)).unwrap();
    assert_eq!(
        basis,
        CapacityBasis::Sample { unique_words: 0, sample_words: 0, text_len: 3, sample_len: 2 }
    );
}

#[test]
fn capacity_basis_refuses_bad_inputs_in_order() {
    let config = WordProcessorConfig::default();
    let result = capacity_basis("", &config, Some("0".to_owned()), EstimationMethod::Sampling(0));
    assert!(matches!(result, Err(WordProcessorError::Capacity(CapacityError::EmptyText))));
    let result = capacity_basis("text", &config, Some("-1.5".to_owned()), EstimationMethod::Sampling(0));
    match result {
        Err(WordProcessorError::Capacity(CapacityError::InvalidCapacityFactor(f))) => assert_eq!(f, "-1.5"),
        _ => panic!("Expected InvalidCapacityFactor error"),
    }
    let result = capacity_basis("text", &config, None, EstimationMethod::Sampling(0));
    assert!(matches!(
        result,
        Err(WordProcessorError::Capacity(CapacityError::InvalidSampleSize(0)))
    ));
}

#[test]
fn test_error_display() {
    let err = WordProcessorError::Capacity(CapacityError::EmptyText);
    assert_eq!(
        err.message(),
        "Capacity error: Cannot estimate capacity from empty text"
    );
}

#[test]
fn test_error_conversion() {
    let io_err = IoError::FileReadError(std::io::Error::new(
        std::io::ErrorKind::NotFound,
        "file not found",
    ));
    let word_proc_err: WordProcessorError = io_err.into();

    match word_proc_err {
        WordProcessorError::Io(_) => assert!(true),
        _ => panic!("Expected Io error variant"),
    }
}

#[test]
fn error_texts() {
    assert_eq!(CapacityError::InvalidSampleSize(0).message(), "Invalid sample size: 0");
    assert_eq!(CapacityError::InvalidSampleSize(1234).message(), "Invalid sample size: 1234");
    assert_eq!(
        CapacityError::InvalidCapacityFactor("-2".to_owned()).message(),
        "Invalid capacity factor: -2"
    );
    assert_eq!(ParserError::InvalidPattern("(".to_owned()).message(), "Invalid pattern: (");
    assert_eq!(ParserError::EncodingError("latin1".to_owned()).message(), "Encoding error: latin1");
    assert_eq!(IoError::UrlFetchError("timeout".to_owned()).message(), "URL fetch error: timeout");
    let not_found = std::io::Error::new(std::io::ErrorKind::NotFound, "file not found");
    assert_eq!(IoError::FileReadError(not_found).message(), "File read error: file not found");
    let denied = std::io::Error::new(std::io::ErrorKind::PermissionDenied, "denied");
    assert_eq!(IoError::FileWriteError(denied).message(), "File write error: denied");
    let error: WordProcessorError = ParserError::InvalidPattern("x".to_owned()).into();
    assert_eq!(error.message(), "Parser error: Invalid pattern: x");
    let error: WordProcessorError = IoError::UrlFetchError("gone".to_owned()).into();
    assert_eq!(error.message(), "IO error: URL fetch error: gone");
    let error: WordProcessorError = "plain".to_owned().into();
    assert_eq!(error.message(), "Error: plain");
    let error: WordProcessorError = "slice".into();
    assert_eq!(error.message(), "Error: slice");
    let error: WordProcessorError = std::io::Error::new(std::io::ErrorKind::Other, "disk").into();
    assert_eq!(error.message(), "IO error: File read error: disk");
    let error: WordProcessorError = CapacityError::InvalidSampleSize(7).into();
    assert_eq!(error.message(), "Capacity error: Invalid sample size: 7");
}

#[test]
fn test_read_from_source_file() {
    // The source was read as a file, and its content stands.
    let step = read_from_source("notes/file.txt", Ok("File content\n".to_owned()));
    match step {
        SourceStep::Done(Ok(content)) => assert!(content.contains("File content")),
        _ => panic!("Expected the content of the file"),
    }
    // A URL that happens to be readable as a file is not fetched.
    let step = read_from_source("https://example.org/a.txt", Ok("cached".to_owned()));
    assert!(matches!(step, SourceStep::Done(Ok(_))));
    // A path that cannot be read keeps its error.
    let missing = std::io::Error::new(std::io::ErrorKind::NotFound, "missing");
    let step = read_from_source("nonexistent_file.txt", Err(missing.into()));
    assert!(matches!(
        step,
        SourceStep::Done(Err(WordProcessorError::Io(IoError::FileReadError(_))))
    ));
}

#[test]
fn test_fetch_from_url() {
    // A source that is no file and is written as a URL is fetched.
    let missing = std::io::Error::new(std::io::ErrorKind::NotFound, "missing");
    let step = read_from_source(GUTENBERG_BOOK_URL, Err(missing.into()));
    assert!(matches!(step, SourceStep::FetchUrl));
    let missing = std::io::Error::new(std::io::ErrorKind::NotFound, "missing");
    let step = read_from_source("http://example.org", Err(missing.into()));
    assert!(matches!(step, SourceStep::FetchUrl));
    assert!(is_url("http://example.org"));
    assert!(is_url(GUTENBERG_BOOK_URL));
    assert!(!is_url("ftp://example.org"));
    assert!(!is_url("file.txt"));
}
