//! Command-line option model and the policy that picks detection methods.
//!
//! Argument parsing itself is I/O glue and lives outside the library; this
//! module holds the plain option values and the verified selection logic.

use vstd::prelude::*;

verus! {

/// The command-line options of the detection tool, as plain values.
#[derive(Debug, Clone)]
pub struct Cli {
    /// Files to analyze.
    pub files: Vec<String>,
    /// Detect by file extension only.
    pub by_extension: bool,
    /// Detect by exact filename only.
    pub by_filename: bool,
    /// Detect by content analysis/heuristics only.
    pub by_content: bool,
    /// Use all detection methods (extension, filename, and content).
    pub all: bool,
}

/// Represents which detection methods should be used.
#[derive(Debug, Clone, Copy)]
pub struct DetectionMethods {
    pub by_extension: bool,
    pub by_filename: bool,
    pub by_content: bool,
}

impl Cli {
    /// Determines which detection methods should be used.
    ///
    /// If no specific method is selected, defaults to all methods.
    /// If `all` is set, it overrides individual selections.
    pub fn detection_methods(&self) -> (m: DetectionMethods)
        ensures
            m.by_extension == (self.all || self.by_extension || (!self.by_extension
                && !self.by_filename && !self.by_content)),
            m.by_filename == (self.all || self.by_filename || (!self.by_extension
                && !self.by_filename && !self.by_content)),
            m.by_content == (self.all || self.by_content || (!self.by_extension && !self.by_filename
                && !self.by_content)),
    {
        if self.all {
            return DetectionMethods { by_extension: true, by_filename: true, by_content: true };
        }
        if self.by_extension || self.by_filename || self.by_content {
            return DetectionMethods {
                by_extension: self.by_extension,
                by_filename: self.by_filename,
                by_content: self.by_content,
            };
        }
        DetectionMethods { by_extension: true, by_filename: true, by_content: true }
    }
}

} // verus!
