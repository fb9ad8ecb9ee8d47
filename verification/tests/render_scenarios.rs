use rustc_l10n::errors::RenderError;
use rustc_l10n::model::{ChildDiagnostic, Diagnostic, ErrorLevel, Span, SpanLine};
use rustc_l10n::render::Render;
use rustc_l10n::sink::{Color, Op, Sink};

fn line(n: usize, text: &str) -> SpanLine {
    SpanLine { line_number: n, text: text.to_string() }
}

fn mismatched_types() -> Diagnostic {
    Diagnostic {
        level: ErrorLevel::Error,
        code: None,
        message: "mismatched types".to_string(),
        spans: vec![Span {
            file_name: "file.rs".to_string(),
            line_start: 3,
            line_end: 3,
            column_start: 5,
            column_end: 8,
            text: vec![line(3, "    let x = 1;")],
            is_primary: true,
            label: Some("expected i32, found &str".to_string()),
        }],
        children: Vec::new(),
    }
}

#[test]
fn error_with_primary_span_renders_annotated_block() {
    let d = mismatched_types();
    let mut sink = Sink::new();
    assert!(d.render(&mut sink).is_ok());
    let expected = "error: mismatched types\n\
                    \x20--> file.rs:3:5\n\
                    \x20 |\n\
                    3 |     let x = 1;\n\
                    \x20 |     ^^^ expected i32, found &str\n\
                    \n";
    assert_eq!(sink.plain_text(), expected);
}

#[test]
fn note_child_appends_note_line() {
    let mut d = mismatched_types();
    d.children.push(ChildDiagnostic {
        level: ErrorLevel::Note,
        message: "see also ...".to_string(),
        spans: Vec::new(),
    });
    let mut sink = Sink::new();
    assert!(d.render(&mut sink).is_ok());
    let expected = "error: mismatched types\n\
                    \x20--> file.rs:3:5\n\
                    \x20 |\n\
                    3 |     let x = 1;\n\
                    \x20 |     ^^^ expected i32, found &str\n\
                    \x20 = note: see also ...\n\
                    \n";
    assert_eq!(sink.plain_text(), expected);
}

#[test]
fn warning_child_fails_without_output_for_it() {
    let mut d = mismatched_types();
    d.children.push(ChildDiagnostic {
        level: ErrorLevel::Warning,
        message: "not allowed here".to_string(),
        spans: Vec::new(),
    });
    let mut sink = Sink::new();
    let r = d.render(&mut sink);
    assert_eq!(r, Err(RenderError::UnsupportedChildLevel));
    assert_eq!(sink.ops().len(), 0);
    assert_eq!(sink.plain_text(), "");
}

#[test]
fn error_child_fails_too() {
    let mut d = mismatched_types();
    d.children.push(ChildDiagnostic {
        level: ErrorLevel::Error,
        message: "nested error".to_string(),
        spans: Vec::new(),
    });
    let mut sink = Sink::new();
    assert_eq!(d.render(&mut sink), Err(RenderError::UnsupportedChildLevel));
    assert_eq!(sink.ops().len(), 0);
}

#[test]
fn span_text_length_mismatch_fails_without_output() {
    let mut d = mismatched_types();
    // Two excerpt lines for a one-line range violates the input contract.
    d.spans[0].text.push(line(4, "    let y = 2;"));
    let mut sink = Sink::new();
    assert_eq!(d.render(&mut sink), Err(RenderError::SpanTextLengthMismatch));
    assert_eq!(sink.ops().len(), 0);
}

#[test]
fn span_mismatch_is_reported_before_bad_child_level() {
    let mut d = mismatched_types();
    d.spans[0].text.push(line(4, "extra"));
    d.children.push(ChildDiagnostic {
        level: ErrorLevel::Warning,
        message: "also bad".to_string(),
        spans: Vec::new(),
    });
    let mut sink = Sink::new();
    assert_eq!(d.render(&mut sink), Err(RenderError::SpanTextLengthMismatch));
    assert_eq!(sink.ops().len(), 0);
}

#[test]
fn empty_spans_renders_header_and_blank_line_only() {
    let d = Diagnostic {
        level: ErrorLevel::Warning,
        code: None,
        message: "unused variable".to_string(),
        spans: Vec::new(),
        children: Vec::new(),
    };
    let mut sink = Sink::new();
    assert!(d.render(&mut sink).is_ok());
    assert_eq!(sink.plain_text(), "warning: unused variable\n\n");
}

#[test]
fn empty_spans_drops_children_entirely() {
    // Children are part of the span block; without spans they are neither
    // rendered nor level-checked.
    let d = Diagnostic {
        level: ErrorLevel::Error,
        code: None,
        message: "boom".to_string(),
        spans: Vec::new(),
        children: vec![ChildDiagnostic {
            level: ErrorLevel::Error,
            message: "ignored".to_string(),
            spans: Vec::new(),
        }],
    };
    let mut sink = Sink::new();
    assert!(d.render(&mut sink).is_ok());
    assert_eq!(sink.plain_text(), "error: boom\n\n");
}

#[test]
fn no_primary_span_omits_lead_line() {
    let mut d = mismatched_types();
    d.spans[0].is_primary = false;
    let mut sink = Sink::new();
    assert!(d.render(&mut sink).is_ok());
    let text = sink.plain_text();
    assert!(!text.contains("-->"));
    // The excerpt block still renders, with `-` marks for a secondary span.
    let expected = "error: mismatched types\n\
                    \x20 |\n\
                    3 |     let x = 1;\n\
                    \x20 |     --- expected i32, found &str\n\
                    \n";
    assert_eq!(text, expected);
}

#[test]
fn code_is_rendered_in_brackets_after_level() {
    let mut d = mismatched_types();
    d.code = Some("E0308".to_string());
    d.spans = Vec::new();
    let mut sink = Sink::new();
    assert!(d.render(&mut sink).is_ok());
    assert_eq!(sink.plain_text(), "error[E0308]: mismatched types\n\n");
}

#[test]
fn ice_renders_long_prefix() {
    let d = Diagnostic {
        level: ErrorLevel::Ice,
        code: None,
        message: "oops".to_string(),
        spans: Vec::new(),
        children: Vec::new(),
    };
    let mut sink = Sink::new();
    assert!(d.render(&mut sink).is_ok());
    assert_eq!(sink.plain_text(), "error: internal compiler error: oops\n\n");
}

#[test]
fn help_child_renders_help_line() {
    let mut d = mismatched_types();
    d.children.push(ChildDiagnostic {
        level: ErrorLevel::Help,
        message: "try removing the cast".to_string(),
        spans: Vec::new(),
    });
    let mut sink = Sink::new();
    assert!(d.render(&mut sink).is_ok());
    assert!(sink.plain_text().contains(" = help: try removing the cast\n"));
}

#[test]
fn header_styling_is_bold_level_color_then_bold_white() {
    let d = Diagnostic {
        level: ErrorLevel::Error,
        code: None,
        message: "m".to_string(),
        spans: Vec::new(),
        children: Vec::new(),
    };
    let mut sink = Sink::new();
    assert!(d.render(&mut sink).is_ok());
    let ops = sink.ops();
    assert_eq!(ops[0], Op::Bold);
    assert_eq!(ops[1], Op::Fg(Color::Red));
    assert_eq!(ops[2], Op::Text("error".to_string()));
    assert_eq!(ops[3], Op::Reset);
    assert_eq!(ops[4], Op::Bold);
    assert_eq!(ops[5], Op::Fg(Color::White));
    assert_eq!(ops[6], Op::Text(": m\n".to_string()));
    assert_eq!(ops[7], Op::Reset);
    assert_eq!(ops[8], Op::Text("\n".to_string()));
    assert_eq!(ops.len(), 9);
}

#[test]
fn top_level_note_is_green_nested_note_is_white() {
    let top = Diagnostic {
        level: ErrorLevel::Note,
        code: None,
        message: "m".to_string(),
        spans: Vec::new(),
        children: Vec::new(),
    };
    let mut sink = Sink::new();
    assert!(top.render(&mut sink).is_ok());
    assert_eq!(sink.ops()[1], Op::Fg(Color::Green));

    let mut nested = mismatched_types();
    nested.children.push(ChildDiagnostic {
        level: ErrorLevel::Note,
        message: "n".to_string(),
        spans: Vec::new(),
    });
    let mut sink2 = Sink::new();
    assert!(nested.render(&mut sink2).is_ok());
    let ops = sink2.ops();
    // The child's level color is the op right after the last `= ` gutter
    // prefix's reset; find the nested note's color by scanning from the end.
    let mut saw_white_note = false;
    for w in ops.windows(3) {
        if w[0] == Op::Fg(Color::White) && w[1] == Op::Text("note".to_string()) {
            saw_white_note = true;
        }
    }
    assert!(saw_white_note);
}

#[test]
fn rendering_twice_is_byte_identical() {
    let mut d = mismatched_types();
    d.children.push(ChildDiagnostic {
        level: ErrorLevel::Note,
        message: "n".to_string(),
        spans: Vec::new(),
    });
    let mut s1 = Sink::new();
    let mut s2 = Sink::new();
    assert!(d.render(&mut s1).is_ok());
    assert!(d.render(&mut s2).is_ok());
    assert_eq!(s1.ops(), s2.ops());
    assert_eq!(s1.plain_text(), s2.plain_text());
}
