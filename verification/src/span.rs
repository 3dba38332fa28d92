//! Positions and ranges in a text, addressed by line and column.
//!
//! Lines are counted from 1, columns from 0, and a column counts unicode
//! scalar values, never bytes. A span includes both of its ends.

use crate::error::Error;
use core::cmp::Ordering;
use core::ops::Range;
use vstd::prelude::*;
use vstd::std_specs::cmp::PartialOrdSpecImpl;
use vstd::std_specs::convert::TryFromSpecImpl;

verus! {

/// A position in a text: a line, counted from 1, and a column in it,
/// counted from 0 in unicode scalar values.
#[derive(Debug, Clone, Copy, PartialEq, Eq, Structural, Hash)]
pub struct LineColumn {
    /// The line, the first line of a text being line 1.
    pub line: usize,
    /// The column, the first character of a line being at column 0.
    pub column: usize,
}

impl LineColumn {
    /// A position is well formed when its line is at least 1.
    pub open spec fn wf(&self) -> bool {
        self.line >= 1
    }

    /// `self` comes strictly before `other`: on an earlier line, or on the
    /// same line at a smaller column.
    pub open spec fn is_before(&self, other: LineColumn) -> bool {
        self.line < other.line || (self.line == other.line && self.column < other.column)
    }

    /// `self` is `other` or comes before it.
    pub open spec fn is_at_or_before(&self, other: LineColumn) -> bool {
        self.line < other.line || (self.line == other.line && self.column <= other.column)
    }
}

impl PartialOrd for LineColumn {
    /// Orders positions by line, then by column.
    fn partial_cmp(&self, other: &LineColumn) -> (r: Option<Ordering>) {
        if self.line < other.line {
            Some(Ordering::Less)
        } else if self.line > other.line {
            Some(Ordering::Greater)
        } else if self.column < other.column {
            Some(Ordering::Less)
        } else if self.column > other.column {
            Some(Ordering::Greater)
        } else {
            Some(Ordering::Equal)
        }
    }
}

impl PartialOrdSpecImpl for LineColumn {
    open spec fn obeys_partial_cmp_spec() -> bool {
        true
    }

    open spec fn partial_cmp_spec(&self, other: &LineColumn) -> Option<Ordering> {
        if self.is_before(*other) {
            Some(Ordering::Less)
        } else if other.is_before(*self) {
            Some(Ordering::Greater)
        } else {
            Some(Ordering::Equal)
        }
    }
}

/// A range of a text, from `start` to `end`, both included.
#[derive(Debug, Clone, Copy, PartialEq, Eq, Structural, Hash)]
pub struct Span {
    /// The position of the first character covered.
    pub start: LineColumn,
    /// The position of the last character covered.
    pub end: LineColumn,
}

impl Span {
    /// A span is well formed when it does not start after it ends.
    pub open spec fn wf(&self) -> bool {
        self.start.is_at_or_before(self.end)
    }

    /// The number of lines the span touches: none if it starts on a later
    /// line than it ends on.
    pub open spec fn line_count(&self) -> int {
        if self.start.line <= self.end.line {
            self.end.line - self.start.line + 1
        } else {
            0
        }
    }

    /// The span from `start` to `end`, unless `start` comes after `end`.
    pub fn new(start: LineColumn, end: LineColumn) -> (r: Result<Span, Error>)
        ensures
            start.is_at_or_before(end) ==> r == Ok::<Span, Error>(Span { start, end }),
            !start.is_at_or_before(end) ==> r == Err::<Span, Error>(Error::InvalidSpan),
            r is Ok ==> r->Ok_0.wf(),
    {
        if start <= end {
            Ok(Span { start, end })
        } else {
            Err(Error::InvalidSpan)
        }
    }

    pub open spec fn spec_is_multiline(&self) -> bool {
        self.start.line != self.end.line
    }

    /// Whether the span starts and ends on different lines.
    #[verifier::when_used_as_spec(spec_is_multiline)]
    pub fn is_multiline(&self) -> (r: bool)
        ensures
            r == (self.start.line != self.end.line),
    {
        self.start.line != self.end.line
    }
}

impl TryFrom<(usize, Range<usize>)> for Span {
    type Error = Error;

    /// The span on line `v.0` that covers the columns of the half-open
    /// range `v.1`; an empty range covers no column and is refused.
    fn try_from(v: (usize, Range<usize>)) -> (r: Result<Span, Error>) {
        if v.1.start < v.1.end {
            Ok(
                Span {
                    start: LineColumn { line: v.0, column: v.1.start },
                    end: LineColumn { line: v.0, column: v.1.end - 1 },
                },
            )
        } else {
            Err(Error::InvalidSpan)
        }
    }
}

impl TryFromSpecImpl<(usize, Range<usize>)> for Span {
    open spec fn obeys_try_from_spec() -> bool {
        true
    }

    open spec fn try_from_spec(v: (usize, Range<usize>)) -> Result<Span, Error> {
        if v.1.start < v.1.end {
            Ok(
                Span {
                    start: LineColumn { line: v.0, column: v.1.start },
                    end: LineColumn { line: v.0, column: (v.1.end - 1) as usize },
                },
            )
        } else {
            Err(Error::InvalidSpan)
        }
    }
}

} // verus!
