//! Building a search configuration from command-line input.

use vstd::prelude::*;

verus! {

/// Why a configuration could not be built.
#[derive(Debug, PartialEq, Eq, Structural)]
pub enum ConfigError {
    /// No query argument was given.
    MissingQuery,
    /// A query was given but no file path.
    MissingFilePath,
}

impl ConfigError {
    /// A human-readable description of the error.
    pub fn message(&self) -> (r: &'static str)
        ensures
            *self == ConfigError::MissingQuery ==> r@ == "Didn't get a query string"@,
            *self == ConfigError::MissingFilePath ==> r@ == "Didn't get a file path"@,
    {
        match self {
            ConfigError::MissingQuery => "Didn't get a query string",
            ConfigError::MissingFilePath => "Didn't get a file path",
        }
    }
}

/// The configuration of one search run.
pub struct Config {
    /// The substring to look for.
    pub query: String,
    /// The path of the file whose contents are searched.
    pub file_path: String,
    /// Whether matching ignores case.
    pub ignore_case: bool,
}

impl Config {
    /// Builds a configuration from the argument list and the value of
    /// the environment flag that turns on case-insensitive matching.
    ///
    /// `args` is the full argument list, whose first element is the
    /// program's own name and is skipped; arguments beyond the third
    /// are ignored. `ignore_case_env` is the looked-up value of the
    /// flag: its mere presence, with any value, turns the flag on.
    pub fn build(args: Vec<String>, ignore_case_env: Option<String>) -> (r: Result<
        Config,
        ConfigError,
    >)
        ensures
            args@.len() < 2 ==> (r matches Err(e) && e == ConfigError::MissingQuery),
            args@.len() == 2 ==> (r matches Err(e) && e == ConfigError::MissingFilePath),
            args@.len() >= 3 ==> (r matches Ok(c) && c.query@ == args@[1]@ && c.file_path@
                == args@[2]@ && c.ignore_case == ignore_case_env is Some),
    {
        if args.len() < 2 {
            return Err(ConfigError::MissingQuery);
        }
        if args.len() < 3 {
            return Err(ConfigError::MissingFilePath);
        }
        let query = args[1].clone();
        let file_path = args[2].clone();
        let ignore_case = ignore_case_env.is_some();
        Ok(Config { query, file_path, ignore_case })
    }
}

} // verus!
