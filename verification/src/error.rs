//! The failures that building spans and edits can report.

use vstd::prelude::*;

verus! {

/// Why a span or a set of edits could not be built.
#[derive(Debug, Clone, Copy, PartialEq, Eq, Structural)]
pub enum Error {
    /// The replacement holds no line, the span covers no line, or the
    /// candidate asked for does not exist.
    MalformedInput,
    /// The span starts after it ends.
    InvalidSpan,
}

} // verus!
