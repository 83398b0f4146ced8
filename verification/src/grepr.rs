//! Checking the settings of a search for a pattern, as `grep` does.

use crate::pattern::{compiles, regex_valid};
use vstd::prelude::*;
use vstd::string::*;

verus! {

/// The settings of one invocation.
#[derive(Debug)]
pub struct Config {
    /// The pattern to search for.
    pub pattern: String,
    /// The inputs, by name.
    pub files: Vec<String>,
    /// Search without regard to case.
    pub insensitive: bool,
    /// Search directories recursively.
    pub recursive: bool,
    /// Count the matches instead of showing them.
    pub count: bool,
    /// Select the lines that do not match.
    pub invert: bool,
}

/// The message for a pattern that is rejected.
pub open spec fn invalid_pattern(pattern: Seq<char>) -> Seq<char> {
    "Invalid pattern \""@ + pattern + "\""@
}

/// Checks that the pattern of the settings compiles, with or without
/// regard to case as the settings say.
pub fn run(config: &Config) -> (r: Result<(), String>)
    ensures
        regex_valid(config.pattern@, config.insensitive) ==> r is Ok,
        !regex_valid(config.pattern@, config.insensitive) ==> r is Err && r->Err_0@
            == invalid_pattern(config.pattern@),
{
    if compiles(config.pattern.as_str(), config.insensitive) {
        Ok(())
    } else {
        let mut message = String::from_str("Invalid pattern \"");
        message.append(config.pattern.as_str());
        message.append("\"");
        Err(message)
    }
}

} // verus!
