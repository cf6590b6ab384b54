//! A minimal line-oriented text search library.
//!
//! Given a query string and the full contents of a text file, the library
//! returns every line of the contents that contains the query, either
//! case-sensitively or case-insensitively, preserving the original line
//! order.  A small configuration builder turns command-line style tokens
//! and an optional environment-style override into a validated
//! configuration value.

pub mod config;
pub mod search;
pub mod text;

pub use config::Config;
pub use config::MissingArgument;
pub use search::search;
pub use search::search_case_insensitive;
pub use search::search_new;
pub use search::search_with_config;
pub use text::split_lines;
