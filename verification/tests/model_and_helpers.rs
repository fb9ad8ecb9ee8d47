use rustc_l10n::errors::ModelError;
use rustc_l10n::exit::derive_exit_code;
use rustc_l10n::model::{Diagnostic, ErrorLevel, Span, SpanLine};
use rustc_l10n::sink::Sink;
use rustc_l10n::text::{count_digits, make_spaces, usize_to_string};

fn simple_span() -> Span {
    Span {
        file_name: "f".to_string(),
        line_start: 2,
        line_end: 3,
        column_start: 1,
        column_end: 4,
        text: vec![
            SpanLine { line_number: 2, text: "a".to_string() },
            SpanLine { line_number: 3, text: "b".to_string() },
        ],
        is_primary: true,
        label: None,
    }
}

#[test]
fn new_rejects_present_but_empty_code() {
    let r = Diagnostic::new(
        ErrorLevel::Error,
        Some(String::new()),
        "m".to_string(),
        Vec::new(),
        Vec::new(),
    );
    assert_eq!(r.unwrap_err(), ModelError::EmptyCode);
}

#[test]
fn new_accepts_absent_code() {
    let r = Diagnostic::new(ErrorLevel::Error, None, "m".to_string(), Vec::new(), Vec::new());
    assert!(r.is_ok());
}

#[test]
fn new_accepts_nonempty_code() {
    let r = Diagnostic::new(
        ErrorLevel::Warning,
        Some("E0001".to_string()),
        "m".to_string(),
        Vec::new(),
        Vec::new(),
    );
    let d = r.unwrap();
    assert_eq!(d.code.as_deref(), Some("E0001"));
    assert_eq!(d.message, "m");
}

#[test]
fn check_wf_accepts_consistent_span() {
    assert!(simple_span().check_wf());
    let d = Diagnostic {
        level: ErrorLevel::Error,
        code: Some("E1".to_string()),
        message: "m".to_string(),
        spans: vec![simple_span()],
        children: Vec::new(),
    };
    assert!(d.check_wf());
}

#[test]
fn check_wf_rejects_unordered_columns() {
    let mut s = simple_span();
    s.column_start = 5;
    s.column_end = 4;
    assert!(!s.check_wf());
}

#[test]
fn check_wf_rejects_zero_based_lines() {
    let mut s = simple_span();
    s.line_start = 0;
    assert!(!s.check_wf());
}

#[test]
fn check_wf_rejects_misnumbered_excerpt() {
    let mut s = simple_span();
    s.text[1].line_number = 7;
    assert!(!s.check_wf());
}

#[test]
fn exit_code_of_normal_exit_is_the_childs() {
    assert_eq!(derive_exit_code(Some(0), None), 0);
    assert_eq!(derive_exit_code(Some(101), Some(9)), 101);
}

#[test]
fn exit_code_of_signal_is_128_plus_signal() {
    assert_eq!(derive_exit_code(None, Some(9)), 137);
    assert_eq!(derive_exit_code(None, Some(15)), 143);
}

#[test]
fn decimal_rendering_is_exact() {
    assert_eq!(usize_to_string(0), "0");
    assert_eq!(usize_to_string(7), "7");
    assert_eq!(usize_to_string(905), "905");
    assert_eq!(usize_to_string(usize::MAX), usize::MAX.to_string());
}

#[test]
fn digit_counts_are_exact() {
    assert_eq!(count_digits(0), 1);
    assert_eq!(count_digits(9), 1);
    assert_eq!(count_digits(10), 2);
    assert_eq!(count_digits(999), 3);
    assert_eq!(count_digits(1000), 4);
}

#[test]
fn make_spaces_builds_exact_padding() {
    assert_eq!(make_spaces(0), "");
    assert_eq!(make_spaces(4), "    ");
}

#[test]
fn sink_records_text_in_order_and_extracts_plain_text() {
    let mut s = Sink::new();
    s.text("a".to_string());
    s.bold();
    s.text("b".to_string());
    s.reset();
    assert_eq!(s.ops().len(), 4);
    assert_eq!(s.plain_text(), "ab");
}
