//! A fixed-capacity hash table that remembers the order in which its entries
//! were last written, with the tools that are built around it: a word parser,
//! a word counter, and the requests and answers of a market-data client.
//!
//! The logic of the crate is verified with Verus. Where it rests on a function
//! of the standard library or of another crate that Verus knows nothing of,
//! the function is declared where it is used, with what is taken for granted
//! of it.

pub mod binance_options_client;
pub mod table;
pub mod text;
pub mod word_frequency;
pub mod word_processor;

pub use table::linked_open_addressing::LinkedOpenAddressing as LinkedHashTable;
pub use table::traits::HashTable;
