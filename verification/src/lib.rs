//! Single-line text edits computed from a replacement and the span it covers.
//!
//! A detected mistake is addressed by a [`span::Span`] over the text it was
//! found in; the correction picked for it is a replacement string. This crate
//! turns such a pair into a [`bandaid::FirstAidKit`]: an ordered list of
//! [`bandaid::BandAid`]s, each of which rewrites part of exactly one line.
//! Columns are counted in unicode scalar values throughout.

pub mod bandaid;
pub mod error;
pub mod lines;
pub mod patch;
pub mod span;
pub mod suggestion;
pub mod util;
