//! The regex boundary: names for what the regex engine decides, and the
//! trusted calls into it.
//!
//! Whether a pattern string compiles, and whether a compiled pattern finds an
//! occurrence somewhere in a haystack, are functions of the strings alone;
//! stating them in full would reproduce the regex language, so they are left
//! as named, uninterpreted results. Everything built on top of them — pattern
//! lists, rule evaluation, vendor checks — is verified against these names.

use vstd::prelude::*;

verus! {

/// Whether `pattern` is a valid regex, i.e. whether compiling it succeeds.
pub uninterp spec fn regex_valid(pattern: Seq<char>) -> bool;

/// Whether the regex `pattern` finds at least one occurrence anywhere in
/// `content` (unanchored search, not a full match). Meaningful only when
/// `regex_valid(pattern)` holds.
pub uninterp spec fn regex_found(pattern: Seq<char>, content: Seq<char>) -> bool;

/// Relies on `regex::Regex::new`: compiling a pattern succeeds or fails
/// depending on the pattern string alone.
#[verifier::external_body]
pub(crate) fn regex_compiles(pattern: &str) -> (r: bool)
    ensures
        r == regex_valid(pattern@),
{
    regex::Regex::new(pattern).is_ok()
}

/// Relies on `regex::Regex::new` and `regex::Regex::is_match`: compilation
/// succeeds exactly for valid patterns, and a successful search reports
/// whether the pattern occurs anywhere in the content. On a compile error the
/// regex crate's error message is returned.
#[verifier::external_body]
pub(crate) fn regex_search(pattern: &str, content: &str) -> (r: Result<bool, String>)
    ensures
        r is Ok <==> regex_valid(pattern@),
        r matches Ok(found) ==> found == regex_found(pattern@, content@),
{
    match regex::Regex::new(pattern) {
        Ok(re) => Ok(re.is_match(content)),
        Err(e) => Err(e.to_string()),
    }
}

/// The outcome of testing a list of pattern alternatives against content.
pub ghost enum PatternCheck {
    /// Some alternative found an occurrence.
    Found,
    /// Every alternative compiled but none found an occurrence.
    NotFound,
    /// The listed alternative does not compile (and no earlier alternative
    /// had already found an occurrence).
    Bad(Seq<char>),
}

/// Tests pattern alternatives in order, stopping at the first occurrence
/// found or the first invalid pattern reached.
pub open spec fn match_list(patterns: Seq<Seq<char>>, content: Seq<char>) -> PatternCheck
    decreases patterns.len(),
{
    if patterns.len() == 0 {
        PatternCheck::NotFound
    } else if !regex_valid(patterns[0]) {
        PatternCheck::Bad(patterns[0])
    } else if regex_found(patterns[0], content) {
        PatternCheck::Found
    } else {
        match_list(patterns.drop_first(), content)
    }
}

} // verus!
