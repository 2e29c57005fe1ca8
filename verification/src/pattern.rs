//! Regular expressions of the `regex` crate, as far as the rule set needs them.
//!
//! Nothing in this module is proved: it states what the rule set assumes of
//! `regex`.

use regex::Regex;
use vstd::prelude::*;

verus! {

/// The compiled matcher of the `regex` crate, opaque to the verifier.
#[verifier::external_type_specification]
#[verifier::external_body]
pub struct ExRegex(Regex);

/// The compile error of the `regex` crate.
#[verifier::external_type_specification]
#[verifier::external_body]
pub struct ExRegexError(regex::Error);

/// Whether `Regex::new` accepts `pattern`.
pub uninterp spec fn pattern_is_valid(pattern: Seq<char>) -> bool;

/// The pattern that `Regex::new` compiled a matcher from; `None` for a matcher
/// that was built in another way, with settings of its own.
pub uninterp spec fn regex_source(regex: &Regex) -> Option<Seq<char>>;

/// What `Regex::captures` finds in `text` for the matcher that `Regex::new`
/// compiles from `pattern`: `None` where the pattern matches nowhere, else one entry for each
/// capture group of the leftmost match, group 0 being the whole match and an
/// entry being `None` where the group took no part in it.
pub uninterp spec fn regex_captures(pattern: Seq<char>, text: Seq<char>) -> Option<
    Seq<Option<Seq<char>>>,
>;

/// Calls `Regex::new`. It succeeds exactly on the patterns that
/// `pattern_is_valid` names, and the matcher it returns remembers the pattern
/// it was given.
#[verifier::external_body]
pub(crate) fn compile(pattern: &str) -> (r: Result<Regex, regex::Error>)
    ensures
        r is Ok <==> pattern_is_valid(pattern@),
        r matches Ok(regex) ==> regex_source(&regex) == Some(pattern@),
{
    Regex::new(pattern)
}

/// `Regex::clone`: the copy was compiled from the same pattern.
pub assume_specification[ <Regex as Clone>::clone ](regex: &Regex) -> (copy: Regex)
    ensures
        regex_source(&copy) == regex_source(regex),
;

/// Calls `Regex::captures` and copies the text of every group out of the
/// result. For a matcher that `Regex::new` built, the outcome depends on the
/// pattern and on `text` alone.
#[verifier::external_body]
pub(crate) fn capture_groups(regex: &Regex, text: &str) -> (r: Option<Vec<Option<String>>>)
    requires
        regex_source(regex) is Some,
    ensures
        r.deep_view() == regex_captures(regex_source(regex).unwrap(), text@),
{
    let found = regex.captures(text)?;
    Some((0..found.len()).map(|i| found.get(i).map(|m| m.as_str().to_string())).collect())
}

} // verus!
