//! A small line-oriented substring search library.
//!
//! Given a query and the full text of a file, the matcher returns every
//! line that contains the query, trimmed of surrounding whitespace, in
//! file order; the comparison is case-sensitive or case-insensitive as
//! the configuration asks. The configuration itself is resolved from a
//! plain argument list and the optional value of an environment flag.

pub mod config;
pub mod matcher;
pub mod text;

pub use config::Config;
pub use config::ConfigError;
pub use matcher::run_search;
pub use matcher::search;
pub use matcher::search_case_insensitive;
pub use text::contains_substring;
