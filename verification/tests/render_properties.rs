use rustc_l10n::model::{Diagnostic, ErrorLevel, Span, SpanLine};
use rustc_l10n::render::Render;
use rustc_l10n::sink::Sink;

fn span(
    file: &str,
    line_start: usize,
    lines: Vec<(usize, &str)>,
    cols: (usize, usize),
    primary: bool,
    label: Option<&str>,
) -> Span {
    let line_end = line_start + lines.len() - 1;
    Span {
        file_name: file.to_string(),
        line_start,
        line_end,
        column_start: cols.0,
        column_end: cols.1,
        text: lines
            .into_iter()
            .map(|(n, t)| SpanLine { line_number: n, text: t.to_string() })
            .collect(),
        is_primary: primary,
        label: label.map(|l| l.to_string()),
    }
}

fn diag(message: &str, spans: Vec<Span>) -> Diagnostic {
    Diagnostic {
        level: ErrorLevel::Error,
        code: None,
        message: message.to_string(),
        spans,
        children: Vec::new(),
    }
}

#[test]
fn gutter_width_follows_greatest_line_start() {
    // Spans out of line order; the gutter width is 3 (from line 120) on
    // every row, and spans render sorted by line_start.
    let d = diag(
        "m",
        vec![
            span("f", 120, vec![(120, "bbb")], (1, 2), false, None),
            span("f", 3, vec![(3, "aaa")], (1, 2), true, Some("x")),
        ],
    );
    let mut sink = Sink::new();
    assert!(d.render(&mut sink).is_ok());
    let expected = "error: m\n\
                    \x20\x20 --> f:3:1\n\
                    \x20\x20\x20 |\n\
                    \x20 3 | aaa\n\
                    \x20\x20\x20 | ^ x\n\
                    120 | bbb\n\
                    \x20\x20\x20 | -\n\
                    \n";
    assert_eq!(sink.plain_text(), expected);
}

#[test]
fn unlabeled_highlight_row_is_newline_terminated() {
    // The highlight row is a full line whether or not it carries a label, so
    // the diagnostic still ends in its separating blank line.
    let d = diag("m", vec![span("f", 1, vec![(1, "ab")], (1, 3), true, None)]);
    let mut sink = Sink::new();
    assert!(d.render(&mut sink).is_ok());
    let text = sink.plain_text();
    assert_eq!(text, "error: m\n --> f:1:1\n  |\n1 | ab\n  | ^^\n\n");
    assert!(text.ends_with("\n\n"));
}

#[test]
fn lead_span_is_first_primary_in_input_order() {
    let d = diag(
        "m",
        vec![
            span("f", 120, vec![(120, "bbb")], (1, 2), true, Some("b")),
            span("f", 3, vec![(3, "aaa")], (1, 2), true, Some("a")),
        ],
    );
    let mut sink = Sink::new();
    assert!(d.render(&mut sink).is_ok());
    let text = sink.plain_text();
    // The lead line names the first primary span of the input, even though
    // the excerpt block lists line 3 first.
    assert!(text.contains("--> f:120:1\n"));
    let aaa = text.find("3 | aaa").unwrap();
    let bbb = text.find("120 | bbb").unwrap();
    assert!(aaa < bbb);
}

#[test]
fn spans_sharing_a_start_line_keep_input_order() {
    let d = diag(
        "m",
        vec![
            span("f", 5, vec![(5, "first")], (1, 2), true, None),
            span("f", 5, vec![(5, "second")], (1, 2), false, None),
        ],
    );
    let mut sink = Sink::new();
    assert!(d.render(&mut sink).is_ok());
    let text = sink.plain_text();
    let first = text.find("5 | first").unwrap();
    let second = text.find("5 | second").unwrap();
    assert!(first < second);
}

#[test]
fn long_span_under_pads_beyond_gutter_width() {
    // The gutter width comes from line_start alone (here one digit), so the
    // excerpt row for line 10 is wider than the gutter: documented behavior.
    let d = diag(
        "m",
        vec![span("f", 9, vec![(9, "aa"), (10, "bb")], (1, 2), true, Some("l"))],
    );
    let mut sink = Sink::new();
    assert!(d.render(&mut sink).is_ok());
    let text = sink.plain_text();
    assert!(text.contains("\n9 | aa\n"));
    assert!(text.contains("\n10 | bb\n"));
}

#[test]
fn highlight_row_offset_and_length_follow_columns() {
    // Columns 4..9: three spaces of offset after the gutter's separating
    // space, five marks.
    let d = diag(
        "m",
        vec![span("f", 1, vec![(1, "abcdefghij")], (4, 9), true, Some("here"))],
    );
    let mut sink = Sink::new();
    assert!(d.render(&mut sink).is_ok());
    assert!(sink.plain_text().contains("\n  |    ^^^^^ here\n"));
}

#[test]
fn multi_line_excerpt_renders_every_line_once() {
    let d = diag(
        "m",
        vec![span(
            "f",
            8,
            vec![(8, "fn main() {"), (9, "    body();"), (10, "}")],
            (1, 3),
            true,
            Some("whole item"),
        )],
    );
    let mut sink = Sink::new();
    assert!(d.render(&mut sink).is_ok());
    let expected = "error: m\n\
                    \x20--> f:8:1\n\
                    \x20 |\n\
                    8 | fn main() {\n\
                    9 |     body();\n\
                    10 | }\n\
                    \x20 | ^^ whole item\n\
                    \n";
    assert_eq!(sink.plain_text(), expected);
}
