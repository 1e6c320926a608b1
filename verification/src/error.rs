//! The ways in which rendering can fail.

use vstd::prelude::*;

verus! {

/// Why a diagnostic could not be turned into text. Any failure abandons the
/// whole rendering: no partial text is handed back.
#[derive(Clone, Copy, Debug, PartialEq, Eq, Structural)]
pub enum RenderError {
    /// The bytes of a snippet's source are not valid UTF-8.
    MalformedSource,
    /// A highlight begins on one line of the excerpt and ends on a later one.
    UnsupportedHighlight,
    /// The source could not supply the text for a snippet's context span.
    SpanOutOfBounds,
}

} // verus!
