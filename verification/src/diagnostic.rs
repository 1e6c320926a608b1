//! A diagnostic as plain values: what a producer reports and what the
//! renderers read.

use vstd::prelude::*;
use crate::snippet::Snippet;

verus! {

/// How serious a diagnostic is.
#[derive(Clone, Copy, Debug, PartialEq, Eq, Structural)]
pub enum Severity {
    /// A failure.
    Error,
    /// Something that may be a problem.
    Warning,
    /// A suggestion.
    Advice,
}

/// A report for a user: what went wrong, why, where, and what to do.
#[derive(Clone, Debug)]
pub struct Diagnostic {
    /// How serious it is.
    pub severity: Severity,
    /// A code that identifies the kind of diagnostic.
    pub code: String,
    /// The message shown in the header.
    pub message: String,
    /// The messages of the chain of causes, the direct cause first.
    pub causes: Vec<String>,
    /// Excerpts of source, if the diagnostic has any.
    pub snippets: Option<Vec<Snippet>>,
    /// Lines of help, if the diagnostic has any.
    pub help: Option<Vec<String>>,
}

} // verus!
