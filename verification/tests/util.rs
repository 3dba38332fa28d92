use firstaid::bandaid::FirstAidKit;
use firstaid::error::Error;
use firstaid::span::{LineColumn, Span};
use firstaid::util::load_span_from;

const SOURCE: &'static str = r#"0
abcde
f
g
hijk
l
"#;

struct TestSet {
    span: Span,
    expected: &'static str,
}

const SETS: &[TestSet] = &[
    TestSet {
        span: Span {
            start: LineColumn {
                line: 1usize,
                column: 0,
            },
            end: LineColumn {
                line: 1usize,
                column: 0,
            },
        },
        expected: "0",
    },
    TestSet {
        span: Span {
            start: LineColumn {
                line: 2usize,
                column: 2,
            },
            end: LineColumn {
                line: 2usize,
                column: 4,
            },
        },
        expected: "cde",
    },
    TestSet {
        span: Span {
            start: LineColumn {
                line: 5usize,
                column: 0,
            },
            end: LineColumn {
                line: 5usize,
                column: 1,
            },
        },
        expected: "hi",
    },
];

#[test]
fn span_helper_integrity() {
    for item in SETS {
        assert_eq!(
            load_span_from(SOURCE, item.span).unwrap(),
            item.expected.to_string()
        );
    }
}

fn span(start: (usize, usize), end: (usize, usize)) -> Span {
    Span {
        start: LineColumn {
            line: start.0,
            column: start.1,
        },
        end: LineColumn {
            line: end.0,
            column: end.1,
        },
    }
}

#[test]
fn span_over_several_lines_includes_the_line_feeds() {
    assert_eq!(
        load_span_from(SOURCE, span((2, 3), (5, 1))),
        Ok("de\nf\ng\nhi".to_string())
    );
}

#[test]
fn line_feed_stands_at_the_column_after_its_line() {
    assert_eq!(
        load_span_from(SOURCE, span((2, 4), (2, 5))),
        Ok("e\n".to_string())
    );
    assert_eq!(
        load_span_from(SOURCE, span((3, 1), (3, 1))),
        Ok("\n".to_string())
    );
}

#[test]
fn span_past_the_end_of_a_line_stops_with_the_line() {
    assert_eq!(
        load_span_from(SOURCE, span((3, 0), (3, 100))),
        Ok("f\n".to_string())
    );
    assert_eq!(
        load_span_from(SOURCE, span((3, 5), (3, 100))),
        Ok(String::new())
    );
}

#[test]
fn span_past_the_end_of_the_text_addresses_what_there_is() {
    assert_eq!(
        load_span_from(SOURCE, span((6, 0), (9, 0))),
        Ok("l\n".to_string())
    );
    assert_eq!(
        load_span_from(SOURCE, span((7, 0), (9, 0))),
        Ok(String::new())
    );
    assert_eq!(load_span_from("", span((1, 0), (1, 0))), Ok(String::new()));
}

#[test]
fn whole_text_is_addressed_from_its_first_position() {
    assert_eq!(
        load_span_from(SOURCE, span((1, 0), (6, 1))),
        Ok(SOURCE.to_string())
    );
    assert_eq!(
        load_span_from(SOURCE, span((0, 0), (usize::MAX, usize::MAX))),
        Ok(SOURCE.to_string())
    );
}

#[test]
fn columns_of_a_text_count_characters() {
    let text = "💯 percent\nça 🦀 va";
    assert_eq!(
        load_span_from(text, span((1, 0), (1, 0))),
        Ok("💯".to_string())
    );
    assert_eq!(
        load_span_from(text, span((2, 0), (2, 3))),
        Ok("ça 🦀".to_string())
    );
    assert_eq!(
        load_span_from(text, span((1, 2), (2, 1))),
        Ok("percent\nça".to_string())
    );
}

#[test]
fn span_that_starts_after_its_end_is_refused() {
    assert_eq!(
        load_span_from(SOURCE, span((2, 3), (2, 2))),
        Err(Error::InvalidSpan)
    );
    assert_eq!(
        load_span_from(SOURCE, span((3, 0), (2, 9))),
        Err(Error::InvalidSpan)
    );
}

/// Puts `replacement` in the place of what `span` addresses in `text`.
fn patch(text: &str, span: Span, replacement: &str) -> String {
    let covered = load_span_from(text, span).unwrap();
    let before_end = Span {
        start: LineColumn { line: 0, column: 0 },
        end: span.end,
    };
    let up_to_end = load_span_from(text, before_end).unwrap();
    let head = &up_to_end[..up_to_end.len() - covered.len()];
    let tail = &text[up_to_end.len()..];
    format!("{}{}{}", head, replacement, tail)
}

#[test]
fn bandaid_within_a_line_rewrites_what_its_span_reads() {
    let text = "a sentence with a speling mistake\nand a second line\n";
    let s = span((1, 18), (1, 24));
    assert_eq!(load_span_from(text, s), Ok("speling".to_string()));
    let kit = FirstAidKit::try_from((&"spelling".to_string(), &s)).unwrap();
    assert_eq!(kit.bandaids.len(), 1);
    let bandaid = &kit.bandaids[0];
    assert_eq!(
        patch(text, bandaid.span, &bandaid.replacement),
        "a sentence with a spelling mistake\nand a second line\n"
    );
}

#[test]
fn each_bandaid_of_a_kit_puts_its_line_in_place() {
    let text = "0123456789\nabcdefghij\nABCDEFGHIJ\n";
    let s = span((1, 4), (3, 2));
    let replacement = "four\nline two\nend";
    let kit = FirstAidKit::try_from((&replacement.to_string(), &s)).unwrap();
    let lines: Vec<&str> = replacement.lines().collect();
    assert_eq!(kit.bandaids.len(), lines.len());
    let read: Vec<String> = kit
        .bandaids
        .iter()
        .map(|bandaid| load_span_from(text, bandaid.span).unwrap())
        .collect();
    assert_eq!(
        read,
        vec![
            "45678".to_string(),
            "abcdefghi".to_string(),
            "ABC".to_string()
        ]
    );
    let patched: Vec<String> = kit
        .bandaids
        .iter()
        .map(|bandaid| patch(text, bandaid.span, &bandaid.replacement))
        .collect();
    assert_eq!(
        patched,
        vec![
            "0123four9\nabcdefghij\nABCDEFGHIJ\n".to_string(),
            "0123456789\nline twoj\nABCDEFGHIJ\n".to_string(),
            "0123456789\nabcdefghij\nendDEFGHIJ\n".to_string(),
        ]
    );
    let rewritten: String = kit
        .bandaids
        .iter()
        .map(|bandaid| bandaid.replacement.as_str())
        .collect();
    assert_eq!(rewritten, lines.concat());
}
