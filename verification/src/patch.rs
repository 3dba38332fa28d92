//! What an edit does to a text, and that a conversion's edits put the
//! lines of the replacement in the place of what their spans address.

use crate::bandaid::{
    columns_fit, conversion, lemma_edits_stay_within_span, lemma_edits_well_formed, Edit,
};
use crate::lines::{lemma_lines_of_empty, lines_of};
use crate::span::Span;
use crate::util::{
    addressed, lemma_addressed_is_covered, lemma_counts_grow_with_position, span_begin, span_end,
};
use vstd::prelude::*;

verus! {

/// The text that `doc` becomes when `edit` is applied to it: what stands
/// before the span of the edit, then the replacement, then what stands
/// after the span.
pub open spec fn applied(doc: Seq<char>, edit: Edit) -> Seq<char> {
    doc.take(span_begin(doc, edit.span)) + edit.replacement + doc.skip(span_end(doc, edit.span))
}

/// The replacements of `edits`, in order.
pub open spec fn replacements_of(edits: Seq<Edit>) -> Seq<Seq<char>> {
    Seq::new(edits.len(), |i: int| edits[i].replacement)
}

/// Applying a well-formed edit swaps what its span addresses for its
/// replacement and touches nothing else: the text before the span and the
/// text after it stay as they were, and between them stands the replacement.
pub proof fn lemma_applied_replaces_addressed(doc: Seq<char>, edit: Edit)
    requires
        edit.wf(),
    ensures
        ({
            let begin = span_begin(doc, edit.span);
            let end = span_end(doc, edit.span);
            let patched = applied(doc, edit);
            &&& 0 <= begin <= end <= doc.len()
            &&& doc == doc.take(begin) + addressed(doc, edit.span) + doc.skip(end)
            &&& patched.len() == doc.len() - addressed(doc, edit.span).len()
                + edit.replacement.len()
            &&& patched.take(begin) == doc.take(begin)
            &&& patched.subrange(begin, begin + edit.replacement.len()) == edit.replacement
            &&& patched.skip(begin + edit.replacement.len()) == doc.skip(end)
        }),
{
    lemma_addressed_is_covered(doc, edit.span);
    let begin = span_begin(doc, edit.span);
    let end = span_end(doc, edit.span);
    let patched = applied(doc, edit);
    assert(patched.take(begin) =~= doc.take(begin));
    assert(patched.subrange(begin, begin + edit.replacement.len()) =~= edit.replacement);
    assert(patched.skip(begin + edit.replacement.len()) =~= doc.skip(end));
}

/// Applying the edits of a conversion, each to the text its span
/// addresses, gives back the replacement line by line: edit `i` puts line
/// `i` of the replacement in the place of what its span addresses in `doc`
/// and leaves the rest of `doc` as it was, so that the rewritten parts,
/// read in order, are the lines of the replacement.
///
/// This holds for a span of several lines, and for a span within one line
/// where the replacement is a single line without a line ending.
pub proof fn lemma_round_trip(doc: Seq<char>, replacement: Seq<char>, span: Span)
    requires
        span.wf(),
        replacement.len() > 0,
        columns_fit(replacement, span),
        span.is_multiline() || lines_of(replacement) == seq![replacement],
    ensures
        conversion(replacement, span) is Ok,
        ({
            let edits = conversion(replacement, span)->Ok_0;
            let lines = lines_of(replacement);
            &&& replacements_of(edits) == lines
            &&& replacements_of(edits).flatten() == lines.flatten()
            &&& forall|i: int|
                0 <= i < edits.len() ==> {
                    let begin = span_begin(doc, (#[trigger] edits[i]).span);
                    let end = span_end(doc, edits[i].span);
                    let patched = applied(doc, edits[i]);
                    &&& 0 <= begin <= end <= doc.len()
                    &&& doc == doc.take(begin) + addressed(doc, edits[i].span) + doc.skip(end)
                    &&& patched == doc.take(begin) + lines[i] + doc.skip(end)
                    &&& patched.take(begin) == doc.take(begin)
                    &&& patched.subrange(begin, begin + lines[i].len()) == lines[i]
                    &&& patched.skip(begin + lines[i].len()) == doc.skip(end)
                }
        }),
{
    let edits = conversion(replacement, span)->Ok_0;
    let lines = lines_of(replacement);
    lemma_lines_of_empty(replacement);
    lemma_edits_well_formed(replacement, span);
    assert(replacements_of(edits) =~= lines);
    assert forall|i: int| 0 <= i < edits.len() implies {
        let begin = span_begin(doc, (#[trigger] edits[i]).span);
        let end = span_end(doc, edits[i].span);
        let patched = applied(doc, edits[i]);
        &&& 0 <= begin <= end <= doc.len()
        &&& doc == doc.take(begin) + addressed(doc, edits[i].span) + doc.skip(end)
        &&& patched == doc.take(begin) + lines[i] + doc.skip(end)
        &&& patched.take(begin) == doc.take(begin)
        &&& patched.subrange(begin, begin + lines[i].len()) == lines[i]
        &&& patched.skip(begin + lines[i].len()) == doc.skip(end)
    } by {
        lemma_applied_replaces_addressed(doc, edits[i]);
        assert(edits[i].replacement == lines[i]);
    }
}

/// Where the replacement has no more lines than the span, applying an
/// edit of the conversion leaves the text outside the span as it was:
/// what stands before the span still starts the text, and what stands
/// after the span still ends it.
pub proof fn lemma_text_outside_span_untouched(
    doc: Seq<char>,
    replacement: Seq<char>,
    span: Span,
    i: int,
)
    requires
        span.wf(),
        replacement.len() > 0,
        columns_fit(replacement, span),
        lines_of(replacement).len() <= span.line_count() || !span.is_multiline(),
        0 <= i < conversion(replacement, span)->Ok_0.len(),
    ensures
        conversion(replacement, span) is Ok,
        ({
            let patched = applied(doc, conversion(replacement, span)->Ok_0[i]);
            let begin = span_begin(doc, span);
            let kept = doc.len() - span_end(doc, span);
            &&& 0 <= begin <= doc.len()
            &&& 0 <= kept <= doc.len()
            &&& begin + kept <= patched.len()
            &&& patched.take(begin) == doc.take(begin)
            &&& patched.skip(patched.len() - kept) == doc.skip(span_end(doc, span))
        }),
{
    let edit = conversion(replacement, span)->Ok_0[i];
    let n = doc.len() as int;
    lemma_edits_stay_within_span(replacement, span);
    lemma_edits_well_formed(replacement, span);
    lemma_addressed_is_covered(doc, span);
    lemma_applied_replaces_addressed(doc, edit);
    lemma_counts_grow_with_position(doc, span.start, edit.span.start, n);
    lemma_counts_grow_with_position(doc, edit.span.end, span.end, n);
    let patched = applied(doc, edit);
    let begin = span_begin(doc, span);
    let kept = doc.len() - span_end(doc, span);
    assert(patched.take(begin) =~= doc.take(begin));
    assert(patched.skip(patched.len() - kept) =~= doc.skip(span_end(doc, span)));
}

} // verus!
