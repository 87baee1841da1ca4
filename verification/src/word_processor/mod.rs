//! Turning text into words, and sizing a table for them.

pub mod capacity;
pub mod config;
pub mod error;
pub mod io;
pub mod parser;

pub use config::WordProcessorConfig;
pub use parser::parse_text;
