//! A small line-oriented substring search library.
//!
//! Given a query string and the full text of a file, the library reports
//! every line that contains the query, optionally ignoring case and
//! optionally wrapping the matched span in terminal bold markers.

pub mod config;
pub mod highlight;
pub mod lines;
pub mod search;
pub mod text;

pub use config::Config;
pub use config::ConfigError;
pub use lines::split_lines;
pub use search::search;
pub use search::search_case_insensitive;
pub use search::search_with;
