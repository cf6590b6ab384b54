//! The configuration builder: turns command-line style tokens and an
//! optional environment-style override into a validated configuration.
//!
//! The token sequence is ordered; its first token (the program name) is
//! ignored, the second is the query and the third the file path.  The
//! builder performs no input or output: the override that would normally
//! come from the process environment is handed in as a plain optional
//! value.

use vstd::prelude::*;

verus! {

use crate::text::str_eq;

/// Which required argument was absent when the token sequence was
/// exhausted before both the query and the file path were read.
#[derive(Clone, Copy, Debug, PartialEq, Eq, Structural)]
pub enum MissingArgument {
    Query,
    FilePath,
}

impl MissingArgument {
    /// A human-readable description of the failure.
    pub fn message(&self) -> (m: &'static str)
        ensures
            *self is Query ==> m@ == "Didn't get a query string"@,
            *self is FilePath ==> m@ == "Didn't get a file path"@,
    {
        match self {
            MissingArgument::Query => "Didn't get a query string",
            MissingArgument::FilePath => "Didn't get a file path",
        }
    }
}

/// A validated search configuration.
pub struct Config {
    pub query: String,
    pub file_path: String,
    pub ignore_case: bool,
}

/// The case policy of the indexable entry point: case-insensitive search
/// is enabled when the override is present with the exact value `"1"`;
/// with no override present, when a fourth token equal to `"true"` follows
/// the file path.
pub open spec fn spec_ignore_case(env: Option<Seq<char>>, args: Seq<Seq<char>>) -> bool {
    match env {
        Some(v) => v == "1"@,
        None => args.len() > 3 && args[3] == "true"@,
    }
}

/// The case policy of the consuming entry point, which reads no token
/// beyond the file path: case-insensitive search is enabled exactly when
/// the override is present with the value `"1"`.
pub open spec fn spec_override_set(env: Option<Seq<char>>) -> bool {
    match env {
        Some(v) => v == "1"@,
        None => false,
    }
}

impl Config {
    /// Builds a configuration from a borrowed slice of argument tokens.
    ///
    /// The query is the second token and the file path the third; if the
    /// tokens run out before one of them is read, the result names the
    /// first missing argument.  The case policy is `spec_ignore_case`.
    pub fn build(args: &[String], ignore_case_env: Option<String>) -> (r: Result<
        Config,
        MissingArgument,
    >)
        ensures
            args@.len() <= 1 ==> r == Err::<Config, MissingArgument>(MissingArgument::Query),
            args@.len() == 2 ==> r == Err::<Config, MissingArgument>(MissingArgument::FilePath),
            args@.len() >= 3 ==> {
                &&& r is Ok
                &&& r->Ok_0.query@ == args@[1]@
                &&& r->Ok_0.file_path@ == args@[2]@
                &&& r->Ok_0.ignore_case == spec_ignore_case(
                    ignore_case_env.deep_view(),
                    args.deep_view(),
                )
            },
    {
        if args.len() < 2 {
            return Err(MissingArgument::Query);
        }
        if args.len() < 3 {
            return Err(MissingArgument::FilePath);
        }
        let query = args[1].clone();
        let file_path = args[2].clone();
        let ignore_case = match &ignore_case_env {
            Some(v) => str_eq(v.as_str(), "1"),
            None => args.len() > 3 && str_eq(args[3].as_str(), "true"),
        };
        Ok(Config { query, file_path, ignore_case })
    }

    /// Builds a configuration by consuming the token sequence in order.
    ///
    /// Reads the query and the file path and no further token; if the
    /// tokens run out before one of them is read, the result names the
    /// first missing argument.  The case policy is `spec_override_set`.
    pub fn build_new(args: Vec<String>, ignore_case_env: Option<String>) -> (r: Result<
        Config,
        MissingArgument,
    >)
        ensures
            args@.len() <= 1 ==> r == Err::<Config, MissingArgument>(MissingArgument::Query),
            args@.len() == 2 ==> r == Err::<Config, MissingArgument>(MissingArgument::FilePath),
            args@.len() >= 3 ==> {
                &&& r is Ok
                &&& r->Ok_0.query@ == args@[1]@
                &&& r->Ok_0.file_path@ == args@[2]@
                &&& r->Ok_0.ignore_case == spec_override_set(ignore_case_env.deep_view())
            },
    {
        if args.len() < 2 {
            return Err(MissingArgument::Query);
        }
        if args.len() < 3 {
            return Err(MissingArgument::FilePath);
        }
        let query = args[1].clone();
        let file_path = args[2].clone();
        let ignore_case = match &ignore_case_env {
            Some(v) => str_eq(v.as_str(), "1"),
            None => false,
        };
        Ok(Config { query, file_path, ignore_case })
    }
}

} // verus!
