//! Regular expressions, as the `regex` crate compiles and runs them.
//!
//! Nothing here is proved: the two functions hand their arguments to the
//! crate, and their contracts give names to what comes back.

use regex::Regex;
use vstd::prelude::*;

verus! {

/// `regex::Regex`, a compiled regular expression. Nothing of its inside is
/// known here.
#[verifier::external_type_specification]
#[verifier::external_body]
pub struct ExRegex(regex::Regex);

/// What `Regex::new` makes of a pattern: the compiled expression, or
/// nothing where it refuses the pattern.
pub uninterp spec fn compiled(pattern: Seq<char>) -> Option<Regex>;

/// Whether `Regex::is_match` finds a match of the expression anywhere in
/// `text`.
pub uninterp spec fn finds_match(filter: Regex, text: Seq<char>) -> bool;

/// Compiles a pattern with `Regex::new`. The contract claims only that the
/// outcome is the one that goes by the name `compiled`: the pattern alone
/// decides it. An error of the crate is handed on as `None`.
#[verifier::external_body]
pub(crate) fn compile(pattern: &str) -> (filter: Option<Regex>)
    ensures
        filter == compiled(pattern@),
{
    Regex::new(pattern).ok()
}

/// Asks `Regex::is_match` whether the expression matches somewhere in `text`.
/// The contract claims only that the answer is the one that goes by the name
/// `finds_match`: the expression and the text alone decide it.
#[verifier::external_body]
pub(crate) fn is_match(filter: &Regex, text: &str) -> (found: bool)
    ensures
        found == finds_match(*filter, text@),
{
    filter.is_match(text)
}

} // verus!
