use cargo_test_lint::ctl::span::{byte_offset, Span as LineSpan};
use cargo_test_lint::spans::Span;

#[test]
fn new_rejects_zero_positions() {
    assert!(Span::new(0, 1, 1, 1).is_none(), "zero start_line should be rejected");
    assert!(Span::new(1, 0, 1, 1).is_none(), "zero start_col should be rejected");
    assert!(Span::new(1, 1, 0, 1).is_none(), "zero end_line should be rejected");
    assert!(Span::new(1, 1, 1, 0).is_none(), "zero end_col should be rejected");
}

#[test]
fn new_rejects_inverted() {
    assert!(Span::new(5, 1, 1, 1).is_none(), "inverted line span should be rejected");
    assert!(Span::new(3, 5, 3, 3).is_none(), "inverted column span should be rejected");
}

#[test]
fn new_accepts_valid() {
    assert!(Span::new(1, 1, 5, 10).is_some(), "normal span should be accepted");
    assert!(Span::new(3, 5, 3, 5).is_some(), "point span should be accepted");
    assert!(Span::new(3, 5, 3, 10).is_some(), "same-line span should be accepted");
}

#[test]
fn contains_self() {
    let s = Span::new(1, 1, 5, 10).unwrap();
    assert!(s.contains(&s), "span should contain itself");
}

#[test]
fn contains_sub_span() {
    let outer = Span::new(1, 1, 10, 20).unwrap();
    let inner = Span::new(2, 3, 8, 15).unwrap();
    assert!(outer.contains(&inner), "outer span should contain inner span");
    assert!(!inner.contains(&outer), "inner span should not contain outer span");
}

#[test]
fn merge_empty_is_empty() {
    assert_eq!(Span::merge(&[]), vec![], "merging empty list should produce empty list");
}

#[test]
fn merge_single_is_identity() {
    let s = Span::new(1, 1, 5, 10).unwrap();
    assert_eq!(Span::merge(&[s]), vec![s], "merging single span should return it unchanged");
}

#[test]
fn merge_overlapping_spans() {
    let a = Span::new(1, 1, 5, 10).unwrap();
    let b = Span::new(3, 1, 8, 5).unwrap();
    let merged = Span::merge(&[a, b]);
    assert_eq!(merged.len(), 1, "overlapping spans should merge into 1");
    assert_eq!(merged[0].start_line, 1, "merged span should start at line 1");
    assert_eq!(merged[0].end_line, 8, "merged span should end at line 8");
}

#[test]
fn merge_keeps_separated_spans_sorted() {
    let a = Span::new(10, 1, 12, 4).unwrap();
    let b = Span::new(1, 1, 2, 3).unwrap();
    let c = Span::new(2, 3, 4, 1).unwrap();
    let merged = Span::merge(&[a, b, c]);
    assert_eq!(merged, vec![Span::new(1, 1, 4, 1).unwrap(), a]);
}

#[test]
fn merge_is_idempotent_on_example() {
    let spans = [Span::new(5, 1, 6, 1).unwrap(), Span::new(1, 1, 3, 1).unwrap(), Span::new(2, 5, 5, 2).unwrap()];
    let once = Span::merge(&spans);
    let twice = Span::merge(&once);
    assert_eq!(once, twice);
    assert_eq!(once, vec![Span::new(1, 1, 6, 1).unwrap()]);
}

#[test]
fn byte_offset_first_line() {
    let source = "hello\nworld\n";
    assert_eq!(byte_offset(source, 1, None), 0);
}

#[test]
fn byte_offset_second_line() {
    let source = "hello\nworld\n";
    assert_eq!(byte_offset(source, 2, None), 6);
}

#[test]
fn byte_offset_with_column() {
    let source = "hello\nworld\n";
    assert_eq!(byte_offset(source, 2, Some(2)), 7);
}

#[test]
fn byte_offset_third_line() {
    let source = "line1\nline2\nline3\n";
    assert_eq!(byte_offset(source, 3, None), 12);
}

#[test]
fn byte_offset_out_of_range_returns_zero() {
    let source = "hello";
    assert_eq!(byte_offset(source, 100, None), 0);
}

#[test]
fn byte_offset_counts_utf8_bytes() {
    let source = "é\nx";
    assert_eq!(byte_offset(source, 2, None), 3);
    assert_eq!(byte_offset(source, 3, Some(1)), 4);
}

#[test]
fn span_to_byte_span_basic() {
    let source = "hello\nworld\n";
    let span = LineSpan {
        file_path: "test.rs".into(),
        line_start: 1,
        line_end: 1,
        col_start: Some(1),
        col_end: Some(5),
    };
    let byte_span = span.to_byte_span(source);
    assert_eq!(byte_span.start, 0);
    assert_eq!(byte_span.end, 4);
}

#[test]
fn span_to_byte_span_multiline() {
    let source = "abc\ndef\nghi\n";
    let span = LineSpan {
        file_path: "test.rs".into(),
        line_start: 1,
        line_end: 2,
        col_start: Some(1),
        col_end: Some(3),
    };
    let byte_span = span.to_byte_span(source);
    assert_eq!(byte_span.start, 0);
    assert_eq!(byte_span.end, 6);
}

#[test]
fn span_end_past_last_line_is_text_length() {
    let source = "abc\n";
    let span = LineSpan { file_path: "t.rs".into(), line_start: 9, line_end: 9, col_start: None, col_end: None };
    let byte_span = span.to_byte_span(source);
    assert_eq!(byte_span.start, 0);
    assert_eq!(byte_span.end, 4);
    assert_eq!(byte_span.file_path, "t.rs");
}
