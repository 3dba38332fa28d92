//! Edits that cover a mistake with the replacement picked for it.
//!
//! A [`BandAid`] rewrites part of one line. A replacement for a span of
//! several lines becomes a [`FirstAidKit`]: one `BandAid` per line of the
//! replacement, from top to bottom.

use crate::error::Error;
use crate::lines::{lemma_line_lengths, lemma_lines_of_empty, lines_of, split_lines};
use crate::span::{LineColumn, Span};
use crate::suggestion::Suggestion;
use vstd::prelude::*;
use vstd::std_specs::convert::FromSpecImpl;

verus! {

/// What a [`BandAid`] stands for: a span and the characters to put in its
/// place.
pub struct Edit {
    /// The part of the text to rewrite.
    pub span: Span,
    /// The characters that take its place.
    pub replacement: Seq<char>,
}

impl Edit {
    /// An edit is well formed when its span is, and lies within one line.
    pub open spec fn wf(&self) -> bool {
        self.span.wf() && !self.span.is_multiline()
    }
}

/// The line that the edit for line `i` of a replacement is put on: line
/// `i` of `span`, counted from 0, or the last line of `span` where the
/// span has no such line.
pub open spec fn target_line(span: Span, i: int) -> usize {
    if i < span.line_count() {
        (span.start.line + i) as usize
    } else {
        span.end.line
    }
}

/// The span of the edit for line `i` of `lines`, the lines of a
/// replacement for the multi-line `span`.
///
/// The first edit starts where `span` starts and is as long as its line of
/// the replacement. A later edit starts at column 0 and ends at the length
/// of its line; the edit for the last line ends where `span` ends instead.
pub open spec fn edit_span(lines: Seq<Seq<char>>, span: Span, i: int) -> Span {
    let line = target_line(span, i);
    if i == 0 {
        Span {
            start: span.start,
            end: LineColumn { line, column: (span.start.column + lines[0].len()) as usize },
        }
    } else if i + 1 < lines.len() {
        Span {
            start: LineColumn { line, column: 0 },
            end: LineColumn { line, column: lines[i].len() as usize },
        }
    } else {
        Span {
            start: LineColumn { line, column: 0 },
            end: LineColumn { line, column: span.end.column },
        }
    }
}

/// The edits that put `replacement` in the place of `span`: one for the
/// whole of a single-line span, one per line of `replacement` otherwise.
pub open spec fn edits_of(replacement: Seq<char>, span: Span) -> Seq<Edit> {
    if span.is_multiline() {
        let lines = lines_of(replacement);
        Seq::new(lines.len(), |i: int| Edit { span: edit_span(lines, span, i), replacement: lines[i] })
    } else {
        seq![Edit { span, replacement }]
    }
}

/// What converting `replacement` and `span` gives: no edits for an empty
/// replacement, nor for a span that ends on an earlier line than it starts
/// on or, within one line, at an earlier column.
pub open spec fn conversion(replacement: Seq<char>, span: Span) -> Result<Seq<Edit>, Error> {
    if replacement.len() == 0 || span.start.line > span.end.line {
        Err(Error::MalformedInput)
    } else if !span.wf() {
        Err(Error::InvalidSpan)
    } else {
        Ok(edits_of(replacement, span))
    }
}

/// The end column of the first edit can be represented: the column where
/// a multi-line `span` starts, moved on by the length of the first line of
/// `replacement`, is a `usize`.
pub open spec fn columns_fit(replacement: Seq<char>, span: Span) -> bool {
    conversion(replacement, span) is Ok && span.is_multiline() ==> span.start.column + lines_of(
        replacement,
    )[0].len() <= usize::MAX
}

/// Whether `columns_fit` holds of `replacement` and `span`, that is,
/// whether `FirstAidKit::try_from` may be called on them.
pub fn check_columns_fit(replacement: &String, span: &Span) -> (fit: bool)
    ensures
        fit == columns_fit(replacement@, *span),
{
    if replacement.as_str().is_empty() || span.start.line >= span.end.line {
        return true;
    }
    let lines = split_lines(replacement.as_str());
    proof {
        lemma_lines_of_empty(replacement@);
    }
    let first = lines[0].as_str().unicode_len();
    assert(first == lines_of(replacement@)[0].len());
    first <= usize::MAX - span.start.column
}

/// What converting the candidate at index `pick` of `replacements` gives,
/// the candidates being those for `span`: nothing where there is no such
/// candidate.
pub open spec fn picked_conversion(replacements: Seq<Seq<char>>, span: Span, pick: int) -> Result<
    Seq<Edit>,
    Error,
> {
    if 0 <= pick < replacements.len() {
        conversion(replacements[pick], span)
    } else {
        Err(Error::MalformedInput)
    }
}

/// A replacement chosen for a span that lies within one line.
#[derive(Debug, Clone, PartialEq, Eq)]
pub struct BandAid {
    /// The span to rewrite: its lines count from 1, its columns from 0.
    pub span: Span,
    /// The text that replaces what the span covers.
    pub replacement: String,
}

impl View for BandAid {
    type V = Edit;

    open spec fn view(&self) -> Edit {
        Edit { span: self.span, replacement: self.replacement@ }
    }
}

impl BandAid {
    /// A band-aid is well formed when the edit it stands for is.
    pub open spec fn wf(&self) -> bool {
        self@.wf()
    }

    /// The band-aid that puts `v.0` in the place of the single-line span `v.1`.
    pub fn from(v: (String, Span)) -> (bandaid: BandAid)
        requires
            v.1.wf(),
            !v.1.is_multiline(),
        ensures
            bandaid.span == v.1,
            bandaid.replacement == v.0,
            bandaid.wf(),
    {
        BandAid { span: v.1, replacement: v.0 }
    }
}

/// The band-aids made from the replacement picked for one suggestion: one
/// for each line it rewrites, none reaching over more than one line.
#[derive(Debug, Clone, PartialEq, Eq)]
pub struct FirstAidKit {
    /// The band-aids of the kit, from the top line down.
    pub bandaids: Vec<BandAid>,
}

impl View for FirstAidKit {
    type V = Seq<Edit>;

    open spec fn view(&self) -> Seq<Edit> {
        Seq::new(self.bandaids@.len(), |i: int| self.bandaids@[i]@)
    }
}

impl FirstAidKit {
    /// A kit is well formed when each of its band-aids is.
    pub open spec fn wf(&self) -> bool {
        forall|i: int| 0 <= i < self@.len() ==> (#[trigger] self@[i]).wf()
    }

    /// The kit that holds `bandaids`, in their order.
    pub fn new(bandaids: Vec<BandAid>) -> (kit: FirstAidKit)
        ensures
            kit.bandaids == bandaids,
    {
        FirstAidKit { bandaids }
    }

    /// Converts the replacement `v.0`, picked for the span `v.1`, into the
    /// band-aids that apply it line by line.
    pub fn try_from(v: (&String, &Span)) -> (res: Result<FirstAidKit, Error>)
        requires
            columns_fit(v.0@, *v.1),
        ensures
            res matches Ok(kit) ==> conversion(v.0@, *v.1) == Ok::<Seq<Edit>, Error>(kit@)
                && kit.wf(),
            res matches Err(e) ==> conversion(v.0@, *v.1) == Err::<Seq<Edit>, Error>(e),
    {
        let replacement = v.0;
        let span = v.1;
        if replacement.as_str().is_empty() {
            return Err(Error::MalformedInput);
        }
        if span.is_multiline() {
            if span.start.line > span.end.line {
                return Err(Error::MalformedInput);
            }
            let lines = split_lines(replacement.as_str());
            let ghost texts = lines_of(replacement@);
            proof {
                lemma_lines_of_empty(replacement@);
            }
            let mut bandaids: Vec<BandAid> = Vec::new();
            let first_line = lines[0].clone();
            assert(first_line@ == texts[0]);
            let first_span = Span {
                start: span.start,
                end: LineColumn {
                    line: span.start.line,
                    column: span.start.column + first_line.as_str().unicode_len(),
                },
            };
            bandaids.push(BandAid::from((first_line, first_span)));
            let mut i: usize = 1;
            while i < lines.len()
                invariant
                    span.start.line < span.end.line,
                    lines.deep_view() == texts,
                    1 <= i <= lines.len(),
                    bandaids.len() == i,
                    forall|j: int|
                        0 <= j < i ==> (#[trigger] bandaids[j])@ == (Edit {
                            span: edit_span(texts, *span, j),
                            replacement: texts[j],
                        }),
                    forall|j: int| 0 <= j < i ==> (#[trigger] bandaids[j]).wf(),
                decreases lines.len() - i,
            {
                let line = if i <= span.end.line - span.start.line {
                    span.start.line + i
                } else {
                    span.end.line
                };
                let text = lines[i].clone();
                assert(text@ == texts[i as int]);
                let column = if i + 1 < lines.len() {
                    text.as_str().unicode_len()
                } else {
                    span.end.column
                };
                let span_line = Span {
                    start: LineColumn { line, column: 0 },
                    end: LineColumn { line, column },
                };
                bandaids.push(BandAid::from((text, span_line)));
                i += 1;
            }
            let kit = FirstAidKit::new(bandaids);
            assert(kit@ =~= edits_of(replacement@, *span));
            Ok(kit)
        } else {
            if span.start.column > span.end.column {
                return Err(Error::InvalidSpan);
            }
            let bandaid = BandAid::from((replacement.clone(), *span));
            let kit = FirstAidKit::new(vec![bandaid]);
            assert(kit@ =~= edits_of(replacement@, *span));
            Ok(kit)
        }
    }

    /// Converts the candidate at index `pick_idx` of `suggestion` into the
    /// band-aids that apply it to the span of the suggestion.
    pub fn try_from_suggestion(suggestion: &Suggestion, pick_idx: usize) -> (res: Result<
        FirstAidKit,
        Error,
    >)
        requires
            pick_idx < suggestion.replacements.len() ==> columns_fit(
                suggestion.replacements[pick_idx as int]@,
                suggestion.span,
            ),
        ensures
            res matches Ok(kit) ==> picked_conversion(
                suggestion.replacements.deep_view(),
                suggestion.span,
                pick_idx as int,
            ) == Ok::<Seq<Edit>, Error>(kit@) && kit.wf(),
            res matches Err(e) ==> picked_conversion(
                suggestion.replacements.deep_view(),
                suggestion.span,
                pick_idx as int,
            ) == Err::<Seq<Edit>, Error>(e),
    {
        if pick_idx < suggestion.replacements.len() {
            let replacement = &suggestion.replacements[pick_idx];
            assert(suggestion.replacements.deep_view()[pick_idx as int] == replacement@);
            FirstAidKit::try_from((replacement, &suggestion.span))
        } else {
            Err(Error::MalformedInput)
        }
    }
}

impl Default for FirstAidKit {
    /// The kit without a band-aid.
    fn default() -> (kit: FirstAidKit)
        ensures
            kit@ == Seq::<Edit>::empty(),
            kit.wf(),
    {
        let kit = FirstAidKit { bandaids: Vec::new() };
        assert(kit@ =~= Seq::<Edit>::empty());
        kit
    }
}

impl From<BandAid> for FirstAidKit {
    /// The kit that holds `bandaid` alone.
    fn from(bandaid: BandAid) -> (kit: FirstAidKit)
        ensures
            kit@ == seq![bandaid@],
    {
        let kit = FirstAidKit { bandaids: vec![bandaid] };
        assert(kit@ =~= seq![bandaid@]);
        kit
    }
}

/// A kit holds a vector, which no specification can build: `from` says
/// what it returns by the view of the kit, not through `from_spec`.
impl FromSpecImpl<BandAid> for FirstAidKit {
    open spec fn obeys_from_spec() -> bool {
        false
    }

    open spec fn from_spec(bandaid: BandAid) -> FirstAidKit {
        arbitrary()
    }
}

/// A conversion succeeds exactly for a replacement that is not empty and a
/// span that does not start after it ends.
pub proof fn lemma_conversion_succeeds(replacement: Seq<char>, span: Span)
    ensures
        conversion(replacement, span) is Ok <==> replacement.len() > 0 && span.wf(),
        conversion(replacement, span) is Ok ==> conversion(replacement, span)->Ok_0.len() >= 1,
{
    lemma_lines_of_empty(replacement);
}

/// A replacement that is not empty, for a well-formed span within one
/// line, converts to exactly one edit: the replacement, whole, in the
/// place of the span.
pub proof fn lemma_single_line_span(replacement: Seq<char>, span: Span)
    requires
        span.wf(),
        !span.is_multiline(),
        replacement.len() > 0,
    ensures
        conversion(replacement, span) == Ok::<Seq<Edit>, Error>(seq![Edit { span, replacement }]),
{
}

/// A replacement that is not empty, for a well-formed span of several
/// lines, converts to one edit for each of its lines, and so to at least
/// one. Each edit holds its line of the replacement and lies on one line
/// of the span, and no edit lies on an earlier line than the edit before it.
pub proof fn lemma_one_edit_per_line(replacement: Seq<char>, span: Span)
    requires
        span.wf(),
        span.is_multiline(),
        replacement.len() > 0,
    ensures
        conversion(replacement, span) is Ok,
        ({
            let edits = conversion(replacement, span)->Ok_0;
            let lines = lines_of(replacement);
            &&& lines.len() >= 1
            &&& edits.len() == lines.len()
            &&& forall|i: int|
                0 <= i < edits.len() ==> {
                    &&& (#[trigger] edits[i]).replacement == lines[i]
                    &&& edits[i].span.start.line == edits[i].span.end.line
                    &&& span.start.line <= edits[i].span.start.line <= span.end.line
                }
            &&& forall|i: int, j: int|
                0 <= i <= j < edits.len() ==> (#[trigger] edits[i]).span.start.line <= (
                #[trigger] edits[j]).span.start.line
        }),
{
    lemma_lines_of_empty(replacement);
}

/// The first edit of a conversion starts exactly where the span starts.
pub proof fn lemma_first_edit_starts_with_span(replacement: Seq<char>, span: Span)
    requires
        span.wf(),
        replacement.len() > 0,
    ensures
        conversion(replacement, span) is Ok,
        conversion(replacement, span)->Ok_0.len() >= 1,
        conversion(replacement, span)->Ok_0[0].span.start == span.start,
{
    lemma_lines_of_empty(replacement);
}

/// The last edit of a conversion ends at the column where the span ends.
/// The one exception is a replacement of a single line for a span of
/// several: its only edit ends as many columns after the start of the
/// span as that line has characters.
pub proof fn lemma_last_edit_end_column(replacement: Seq<char>, span: Span)
    requires
        span.wf(),
        replacement.len() > 0,
        columns_fit(replacement, span),
    ensures
        conversion(replacement, span) is Ok,
        ({
            let edits = conversion(replacement, span)->Ok_0;
            let lines = lines_of(replacement);
            &&& edits.len() >= 1
            &&& edits.last().span.end.column == if span.is_multiline() && lines.len() == 1 {
                span.start.column + lines[0].len()
            } else {
                span.end.column as int
            }
        }),
{
    lemma_lines_of_empty(replacement);
}

/// Columns are counted in characters. For a span of several lines, the
/// first edit ends as many columns after the start of the span as the
/// first line of the replacement has characters, and each edit between
/// the first and the last runs from column 0 to the number of characters
/// of its line.
pub proof fn lemma_columns_count_characters(replacement: Seq<char>, span: Span)
    requires
        span.wf(),
        span.is_multiline(),
        0 < replacement.len() <= usize::MAX,
        columns_fit(replacement, span),
    ensures
        conversion(replacement, span) is Ok,
        ({
            let edits = conversion(replacement, span)->Ok_0;
            let lines = lines_of(replacement);
            &&& edits.len() == lines.len() >= 1
            &&& edits[0].span.end.column == span.start.column + lines[0].len()
            &&& forall|i: int|
                0 < i < edits.len() - 1 ==> {
                    &&& (#[trigger] edits[i]).span.start.column == 0
                    &&& edits[i].span.end.column == lines[i].len()
                }
        }),
{
    lemma_lines_of_empty(replacement);
    lemma_line_lengths(replacement);
}

/// Every edit of a conversion is well formed: it lies within one line and
/// does not start after it ends. Where the span starts at a well-formed
/// position, so does every edit, and it ends at one.
pub proof fn lemma_edits_well_formed(replacement: Seq<char>, span: Span)
    requires
        conversion(replacement, span) is Ok,
        columns_fit(replacement, span),
    ensures
        forall|i: int|
            0 <= i < conversion(replacement, span)->Ok_0.len() ==> {
                &&& (#[trigger] conversion(replacement, span)->Ok_0[i]).wf()
                &&& span.start.wf() ==> conversion(replacement, span)->Ok_0[i].span.start.wf()
                    && conversion(replacement, span)->Ok_0[i].span.end.wf()
            },
{
    lemma_lines_of_empty(replacement);
}

/// Where the replacement has no more lines than the span, no edit of the
/// conversion reaches outside the span: none starts before the span
/// starts, none ends after it ends.
pub proof fn lemma_edits_stay_within_span(replacement: Seq<char>, span: Span)
    requires
        span.wf(),
        replacement.len() > 0,
        columns_fit(replacement, span),
        lines_of(replacement).len() <= span.line_count() || !span.is_multiline(),
    ensures
        conversion(replacement, span) is Ok,
        forall|i: int|
            0 <= i < conversion(replacement, span)->Ok_0.len() ==> {
                &&& span.start.is_at_or_before(
                    (#[trigger] conversion(replacement, span)->Ok_0[i]).span.start,
                )
                &&& conversion(replacement, span)->Ok_0[i].span.end.is_at_or_before(span.end)
            },
{
    lemma_lines_of_empty(replacement);
}

} // verus!
