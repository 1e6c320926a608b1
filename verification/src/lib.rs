//! Rendering of structured diagnostics as compiler-style text: a header line,
//! a chain of causes, excerpts of source with caret underlines, and help lines.
//!
//! Every function states what text it produces as a sequence of characters.
//! The statements are proved, on top of a few trusted contracts: those of the
//! functions that call the `indenter` crate, and of three functions of the
//! standard library.

pub mod diagnostic;
pub mod error;
pub mod indent;
pub mod joke;
pub mod position;
pub mod report;
pub mod snippet;
pub mod source;
pub mod span;
pub mod text;

pub use diagnostic::{Diagnostic, Severity};
pub use error::RenderError;
pub use joke::JokeReporter;
pub use position::Row;
pub use report::MietteReporter;
pub use snippet::Snippet;
pub use source::SourceContents;
pub use span::{Extent, Highlight, Span};
