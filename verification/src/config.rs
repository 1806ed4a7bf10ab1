//! Resolution of the run's configuration from the argument list and
//! the optional value of the `CASE_INSENSITIVE` environment variable.

use vstd::prelude::*;

verus! {

/// Why a configuration could not be built.
#[derive(Clone, Copy, Debug, PartialEq, Eq)]
pub enum ConfigError {
    /// Fewer positional arguments than the required
    /// `<program> <query> <filename>`.
    InsufficientArguments,
}

/// The validated configuration of one run: what to search for, where,
/// and whether case matters.
#[derive(Debug)]
pub struct Config {
    /// The substring being searched for.
    pub query: String,
    /// The path of the file to search.
    pub filename: String,
    /// Whether the comparison treats upper and lower case as distinct.
    pub case_sensitive: bool,
}

impl Config {
    /// Builds a `Config` from the argument list and the value of the
    /// `CASE_INSENSITIVE` environment variable, `None` where that
    /// variable is absent. The first argument is the program name and
    /// is ignored; the search is case-sensitive exactly when the
    /// variable is absent, whatever its value is otherwise.
    pub fn new(args: &Vec<String>, case_insensitive_env: Option<String>) -> (r: Result<
        Config,
        ConfigError,
    >)
        ensures
            r is Err <==> args@.len() < 3,
            r is Err ==> r->Err_0 == ConfigError::InsufficientArguments,
            r is Ok ==> r->Ok_0.query@ == args@[1]@ && r->Ok_0.filename@ == args@[2]@
                && r->Ok_0.case_sensitive == (case_insensitive_env is None),
    {
        if args.len() < 3 {
            return Err(ConfigError::InsufficientArguments);
        }
        let query = args[1].clone();
        let filename = args[2].clone();
        let case_sensitive = case_insensitive_env.is_none();
        Ok(Config { query, filename, case_sensitive })
    }
}

} // verus!
