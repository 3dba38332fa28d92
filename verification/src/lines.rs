//! Splitting a text into its lines.
//!
//! A line ends at a line feed, or at a carriage return directly followed
//! by a line feed; neither belongs to the line. The end of the text ends
//! the last line too, so a final line ending adds no empty line.

use vstd::prelude::*;

verus! {

/// The number of characters of `s` before its first line feed: the length
/// of `s` where it holds none.
pub open spec fn line_end(s: Seq<char>) -> int
    decreases s.len(),
{
    if s.len() == 0 || s[0] == '\n' {
        0
    } else {
        1 + line_end(s.drop_first())
    }
}

/// `line` without the carriage return that it ends with, if it ends with one.
pub open spec fn strip_cr(line: Seq<char>) -> Seq<char> {
    if line.len() > 0 && line.last() == '\r' {
        line.drop_last()
    } else {
        line
    }
}

/// The lines of `s`, in order and without their line endings.
///
/// The empty text has no line. A text without a line feed is one line,
/// taken whole. Otherwise the first line is what stands before the first
/// line feed, less a carriage return at its end, and the other lines are
/// those of what follows that line feed.
pub open spec fn lines_of(s: Seq<char>) -> Seq<Seq<char>>
    decreases s.len(),
{
    if s.len() == 0 {
        Seq::empty()
    } else {
        let k = line_end(s);
        if k == s.len() {
            seq![s]
        } else {
            proof {
                lemma_line_end_bounds(s);
            }
            seq![strip_cr(s.take(k))] + lines_of(s.skip(k + 1))
        }
    }
}

/// `line_end` stays within the text, and stops on a line feed if it stops
/// before the end.
pub proof fn lemma_line_end_bounds(s: Seq<char>)
    ensures
        0 <= line_end(s) <= s.len(),
        line_end(s) < s.len() ==> s[line_end(s)] == '\n',
        forall|j: int| 0 <= j < line_end(s) ==> s[j] != '\n',
    decreases s.len(),
{
    if s.len() == 0 || s[0] == '\n' {
    } else {
        let t = s.drop_first();
        lemma_line_end_bounds(t);
        assert forall|j: int| 0 <= j < line_end(s) implies s[j] != '\n' by {
            if j > 0 {
                assert(s[j] == t[j - 1]);
            }
        }
    }
}

/// Only the empty text has no line.
pub proof fn lemma_lines_of_empty(s: Seq<char>)
    ensures
        lines_of(s).len() == 0 <==> s.len() == 0,
{
    if s.len() > 0 && line_end(s) != s.len() {
        lemma_line_end_bounds(s);
    }
}

/// No line of a text is longer than the text.
pub proof fn lemma_line_lengths(s: Seq<char>)
    ensures
        forall|i: int| 0 <= i < lines_of(s).len() ==> (#[trigger] lines_of(s)[i]).len() <= s.len(),
    decreases s.len(),
{
    if s.len() > 0 && line_end(s) != s.len() {
        lemma_line_end_bounds(s);
        let k = line_end(s);
        let rest = s.skip(k + 1);
        lemma_line_lengths(rest);
        assert forall|i: int| 0 <= i < lines_of(s).len() implies (#[trigger] lines_of(s)[i]).len()
            <= s.len() by {
            if i > 0 {
                assert(lines_of(s)[i] == lines_of(rest)[i - 1]);
            }
        }
    }
}

/// The characters of `text`, in order.
pub fn chars_of(text: &str) -> (chars: Vec<char>)
    ensures
        chars@ == text@,
{
    let mut chars: Vec<char> = Vec::new();
    for c in it: text.chars()
        invariant
            it.seq() == text@,
            chars@ == it.seq().take(it.index()),
    {
        chars.push(c);
    }
    chars
}

/// `line_end` is `k` once no line feed stands before `k` and one stands
/// at `k`, or the text ends there.
pub proof fn lemma_line_end_is(s: Seq<char>, k: int)
    requires
        0 <= k <= s.len(),
        forall|j: int| 0 <= j < k ==> s[j] != '\n',
        k == s.len() || s[k] == '\n',
    ensures
        line_end(s) == k,
    decreases k,
{
    if k > 0 {
        let t = s.drop_first();
        assert forall|j: int| 0 <= j < k - 1 implies t[j] != '\n' by {
            assert(t[j] == s[j + 1]);
        }
        lemma_line_end_is(t, k - 1);
    }
}

/// Splits `text` into its lines.
pub fn split_lines(text: &str) -> (lines: Vec<String>)
    ensures
        lines.deep_view() == lines_of(text@),
{
    let chars = chars_of(text);
    let n = chars.len();
    let mut lines: Vec<String> = Vec::new();
    let mut start: usize = 0;
    let mut i: usize = 0;
    proof {
        assert(text@.skip(0) == text@);
        assert(lines.deep_view() + lines_of(text@) == lines_of(text@));
    }
    while i < n
        invariant
            chars@ == text@,
            n == chars.len(),
            start <= i <= n,
            forall|j: int| start <= j < i ==> chars@[j] != '\n',
            lines_of(text@) == lines.deep_view() + lines_of(text@.skip(start as int)),
        decreases n - i,
    {
        if chars[i] == '\n' {
            let end = if i > start && chars[i - 1] == '\r' {
                i - 1
            } else {
                i
            };
            let line = text.substring_char(start, end).to_owned();
            proof {
                let rest = text@.skip(start as int);
                lemma_line_end_is(rest, i - start);
                assert(rest.take(i - start) == text@.subrange(start as int, i as int));
                assert(strip_cr(rest.take(i - start)) == line@);
                assert(rest.skip(i - start + 1) == text@.skip(i + 1));
                assert(lines.deep_view().push(line@) == lines.deep_view() + seq![line@]);
            }
            let ghost before = lines.deep_view();
            lines.push(line);
            assert(lines.deep_view() == before.push(line@));
            start = i + 1;
        }
        i += 1;
    }
    if start < n {
        let line = text.substring_char(start, n).to_owned();
        proof {
            let rest = text@.skip(start as int);
            lemma_line_end_is(rest, n - start);
            assert(rest == line@);
            assert(lines_of(text@) == lines.deep_view().push(line@));
        }
        let ghost before = lines.deep_view();
        lines.push(line);
        assert(lines.deep_view() == before.push(line@));
    } else {
        assert(text@.skip(start as int).len() == 0);
        assert(lines_of(text@) == lines.deep_view());
    }
    lines
}

} // verus!
