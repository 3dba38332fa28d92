//! Reading back the part of a text that a span addresses.
//!
//! The first character of a text is on line 1 at column 0. A line feed
//! still belongs to the line it ends, at the column after the last
//! character of that line; what follows it starts the next line at column 0.

use crate::error::Error;
use crate::lines::chars_of;
use crate::span::{LineColumn, Span};
use vstd::prelude::*;

verus! {

/// The line of the character of `doc` at index `i`, or of the end of `doc`
/// where `i` is its length: 1 and the number of line feeds before `i`.
pub open spec fn line_of(doc: Seq<char>, i: int) -> int
    decreases i,
{
    if i <= 0 {
        1
    } else if doc[i - 1] == '\n' {
        line_of(doc, i - 1) + 1
    } else {
        line_of(doc, i - 1)
    }
}

/// The column of the character of `doc` at index `i`: the number of
/// characters between it and the line feed before it, or the start of `doc`.
pub open spec fn column_of(doc: Seq<char>, i: int) -> int
    decreases i,
{
    if i <= 0 || doc[i - 1] == '\n' {
        0
    } else {
        column_of(doc, i - 1) + 1
    }
}

/// The character of `doc` at index `i` stands before the position `pos`.
pub open spec fn stands_before(doc: Seq<char>, i: int, pos: LineColumn) -> bool {
    line_of(doc, i) < pos.line || (line_of(doc, i) == pos.line && column_of(doc, i) < pos.column)
}

/// The character of `doc` at index `i` stands after the position `pos`.
pub open spec fn stands_after(doc: Seq<char>, i: int, pos: LineColumn) -> bool {
    line_of(doc, i) > pos.line || (line_of(doc, i) == pos.line && column_of(doc, i) > pos.column)
}

/// The character of `doc` at index `i` lies within `span`, ends included.
pub open spec fn covered(doc: Seq<char>, span: Span, i: int) -> bool {
    !stands_before(doc, i, span.start) && !stands_after(doc, i, span.end)
}

/// How many of the first `k` characters of `doc` stand before `pos`.
pub open spec fn count_before(doc: Seq<char>, pos: LineColumn, k: int) -> int
    decreases k,
{
    if k <= 0 {
        0
    } else if stands_before(doc, k - 1, pos) {
        count_before(doc, pos, k - 1) + 1
    } else {
        count_before(doc, pos, k - 1)
    }
}

/// How many of the first `k` characters of `doc` do not stand after `pos`.
pub open spec fn count_up_to(doc: Seq<char>, pos: LineColumn, k: int) -> int
    decreases k,
{
    if k <= 0 {
        0
    } else if !stands_after(doc, k - 1, pos) {
        count_up_to(doc, pos, k - 1) + 1
    } else {
        count_up_to(doc, pos, k - 1)
    }
}

/// The index in `doc` of the first character that `span` covers: the
/// number of characters that stand before its start.
pub open spec fn span_begin(doc: Seq<char>, span: Span) -> int {
    count_before(doc, span.start, doc.len() as int)
}

/// The index in `doc` after the last character that `span` covers: the
/// number of characters that do not stand after its end.
pub open spec fn span_end(doc: Seq<char>, span: Span) -> int {
    count_up_to(doc, span.end, doc.len() as int)
}

/// The part of `doc` that `span` addresses, both ends included.
pub open spec fn addressed(doc: Seq<char>, span: Span) -> Seq<char> {
    doc.subrange(span_begin(doc, span), span_end(doc, span))
}

/// Lines count from 1 and columns from 0, and a character that follows
/// another stands after it: on a later line, or further along the same line.
pub proof fn lemma_positions_increase(doc: Seq<char>, i: int, j: int)
    requires
        0 <= i < j,
    ensures
        line_of(doc, i) >= 1,
        column_of(doc, i) >= 0,
        line_of(doc, i) < line_of(doc, j) || (line_of(doc, i) == line_of(doc, j) && column_of(
            doc,
            i,
        ) < column_of(doc, j)),
    decreases j,
{
    if i > 0 {
        lemma_positions_increase(doc, i - 1, i);
    }
    if i < j - 1 {
        lemma_positions_increase(doc, i, j - 1);
    }
}

/// The characters that stand before a position are the first ones of the
/// text, as many as `count_before` says; those that do not stand after it
/// are the first ones too, as many as `count_up_to` says.
pub proof fn lemma_counts_are_offsets(doc: Seq<char>, pos: LineColumn, k: int)
    requires
        0 <= k,
    ensures
        0 <= count_before(doc, pos, k) <= count_up_to(doc, pos, k) <= k,
        forall|i: int|
            0 <= i < k ==> (i < count_before(doc, pos, k) <==> #[trigger] stands_before(doc, i, pos)),
        forall|i: int|
            0 <= i < k ==> (i < count_up_to(doc, pos, k) <==> !#[trigger] stands_after(doc, i, pos)),
    decreases k,
{
    if k > 0 {
        lemma_counts_are_offsets(doc, pos, k - 1);
        assert forall|i: int|
            0 <= i < k - 1 && stands_before(doc, k - 1, pos) implies #[trigger] stands_before(
            doc,
            i,
            pos,
        ) by {
            lemma_positions_increase(doc, i, k - 1);
        }
        assert forall|i: int|
            0 <= i < k - 1 && !stands_after(doc, k - 1, pos) implies !#[trigger] stands_after(
            doc,
            i,
            pos,
        ) by {
            lemma_positions_increase(doc, i, k - 1);
        }
        if stands_before(doc, k - 1, pos) && k > 1 {
            assert(stands_before(doc, k - 2, pos));
        }
        if !stands_after(doc, k - 1, pos) && k > 1 {
            assert(!stands_after(doc, k - 2, pos));
        }
    }
}

/// A later position has no fewer characters before it, and no fewer up
/// to it, than an earlier one.
pub proof fn lemma_counts_grow_with_position(
    doc: Seq<char>,
    earlier: LineColumn,
    later: LineColumn,
    k: int,
)
    requires
        earlier.is_at_or_before(later),
    ensures
        count_before(doc, earlier, k) <= count_before(doc, later, k),
        count_up_to(doc, earlier, k) <= count_up_to(doc, later, k),
    decreases k,
{
    if k > 0 {
        lemma_counts_grow_with_position(doc, earlier, later, k - 1);
    }
}

/// What a well-formed span addresses is exactly the characters it covers:
/// they stand side by side in the text, from `span_begin` up to `span_end`.
pub proof fn lemma_addressed_is_covered(doc: Seq<char>, span: Span)
    requires
        span.wf(),
    ensures
        0 <= span_begin(doc, span) <= span_end(doc, span) <= doc.len(),
        addressed(doc, span).len() == span_end(doc, span) - span_begin(doc, span),
        forall|i: int|
            0 <= i < doc.len() ==> (span_begin(doc, span) <= i < span_end(doc, span)
                <==> #[trigger] covered(doc, span, i)),
        doc == doc.take(span_begin(doc, span)) + addressed(doc, span) + doc.skip(
            span_end(doc, span),
        ),
{
    let n = doc.len() as int;
    lemma_counts_are_offsets(doc, span.start, n);
    lemma_counts_are_offsets(doc, span.end, n);
    let begin = span_begin(doc, span);
    let end = span_end(doc, span);
    if begin > end {
        assert(stands_before(doc, end, span.start));
        assert(stands_after(doc, end, span.end));
    }
    assert(doc =~= doc.take(begin) + addressed(doc, span) + doc.skip(end));
}

/// The part of `source` that `span` addresses, both ends included; a span
/// that starts after it ends addresses nothing and is refused.
pub fn load_span_from(source: &str, span: Span) -> (res: Result<String, Error>)
    ensures
        span.wf() ==> res is Ok && res->Ok_0@ == addressed(source@, span),
        !span.wf() ==> res == Err::<String, Error>(Error::InvalidSpan),
{
    if span.start.line > span.end.line || (span.start.line == span.end.line && span.start.column
        > span.end.column) {
        return Err(Error::InvalidSpan);
    }
    let chars = chars_of(source);
    let n = chars.len();
    let mut line: usize = 1;
    let mut column: usize = 0;
    let mut begin: usize = 0;
    let mut end: usize = 0;
    let mut i: usize = 0;
    while i < n
        invariant
            span.wf(),
            chars@ == source@,
            n == chars.len(),
            i <= n,
            i == 0 ==> line == 1 && column == 0,
            i > 0 ==> line == line_of(chars@, i - 1) && column == column_of(chars@, i - 1),
            i > 0 ==> line <= i && column < i,
            begin == count_before(chars@, span.start, i as int),
            end == count_up_to(chars@, span.end, i as int),
            begin <= end <= i,
        decreases n - i,
    {
        if i > 0 {
            if chars[i - 1] == '\n' {
                line += 1;
                column = 0;
            } else {
                column += 1;
            }
        }
        let before = line < span.start.line || (line == span.start.line && column
            < span.start.column);
        let after = line > span.end.line || (line == span.end.line && column > span.end.column);
        if before {
            begin += 1;
        }
        if !after {
            end += 1;
        }
        i += 1;
    }
    Ok(source.substring_char(begin, end).to_owned())
}

} // verus!
