//! Regular expressions, matched by the `regex` crate.
//!
//! A pattern is handed over as text and compiled where it is used, so
//! that every answer is a function of the pattern and the text alone.

use regex::{Regex, RegexBuilder};
use vstd::prelude::*;
use vstd::string::*;

verus! {

/// Whether `regex` accepts `pattern`, with or without regard to case.
pub uninterp spec fn regex_valid(pattern: Seq<char>, insensitive: bool) -> bool;

/// Whether `pattern`, which `regex` accepts, matches somewhere in `text`.
pub uninterp spec fn regex_found(pattern: Seq<char>, insensitive: bool, text: Seq<char>) -> bool;

/// The capture groups of the leftmost match of `pattern` in `text`: group
/// zero is the whole match, and a group that took no part in the match is
/// `None`. `None` when there is no match or `regex` rejects the pattern.
pub uninterp spec fn regex_groups(pattern: Seq<char>, text: Seq<char>) -> Option<
    Seq<Option<Seq<char>>>,
>;

/// Calls `regex::RegexBuilder::new`, `case_insensitive` and `build`, and
/// on the compiled pattern `Regex::is_match`.
///
/// Trusted: there is an answer exactly when the pattern compiles, and it
/// tells whether the pattern matches somewhere in the text, named by
/// [`regex_found`].
#[verifier::external_body]
pub(crate) fn is_match(pattern: &str, insensitive: bool, text: &str) -> (found: Option<bool>)
    ensures
        found is Some <==> regex_valid(pattern@, insensitive),
        found matches Some(yes) ==> yes == regex_found(pattern@, insensitive, text@),
{
    let built = RegexBuilder::new(pattern).case_insensitive(insensitive).build();
    built.ok().map(|compiled| compiled.is_match(text))
}

/// Calls `regex::Regex::new` and on the compiled pattern `Regex::captures`,
/// and copies each group of `Captures::iter` out as text.
///
/// Trusted: the result is the groups of the leftmost match, named by
/// [`regex_groups`].
#[verifier::external_body]
pub(crate) fn captures(pattern: &str, text: &str) -> (groups: Option<Vec<Option<String>>>)
    ensures
        groups.deep_view() == regex_groups(pattern@, text@),
{
    let compiled = Regex::new(pattern).ok()?;
    let found = compiled.captures(text)?;
    Some(found.iter().map(|group| group.map(|part| part.as_str().to_string())).collect())
}

/// Tells whether a pattern compiles: whether matching it against a text
/// gives an answer at all.
pub fn compiles(pattern: &str, insensitive: bool) -> (valid: bool)
    ensures
        valid == regex_valid(pattern@, insensitive),
{
    is_match(pattern, insensitive, "").is_some()
}

} // verus!
