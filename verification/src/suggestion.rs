//! What a detector reports for one mistake.

use crate::span::Span;
use vstd::prelude::*;

verus! {

/// A detected mistake: the span it covers in the text, and the
/// candidate replacements for it, best first.
#[derive(Debug, Clone, PartialEq, Eq)]
pub struct Suggestion {
    /// The part of the text that the mistake covers.
    pub span: Span,
    /// The candidate replacements, in the order the detector ranked them.
    pub replacements: Vec<String>,
}

} // verus!
