//! Error values surfaced by the classification operations.

use vstd::prelude::*;

verus! {

/// Errors that can occur during language detection operations.
#[derive(Debug, Clone, PartialEq)]
pub enum LinguistError {
    /// The provided path contains invalid UTF-8 sequences.
    InvalidPath(String),
    /// The provided path has no filename component (e.g., is root "/").
    NoFilename,
    /// A regex pattern in the heuristics is malformed.
    InvalidRegex { pattern: String, error: String },
    /// A named pattern referenced in heuristics doesn't exist.
    MissingNamedPattern(String),
}

} // verus!
