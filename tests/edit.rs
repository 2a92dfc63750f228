use emx_note::{apply_edits, EditOp, ValidationError};

#[test]
fn test_replace_success() {
    let content = "hello world\nhello universe";
    let edits = vec![EditOp::replace("hello world", "hi earth")];
    let result = apply_edits(content, edits).unwrap();
    assert_eq!(result, "hi earth\nhello universe");
}

#[test]
fn test_replace_not_found() {
    let content = "hello world";
    let edits = vec![EditOp::replace("not found", "replacement")];
    let err = apply_edits(content, edits).unwrap_err();
    assert!(matches!(err, ValidationError::NotFound { .. }));
}

#[test]
fn test_replace_multiple_matches() {
    let content = "hello\nhello\nhello";
    let edits = vec![EditOp::replace("hello", "hi")];
    let err = apply_edits(content, edits).unwrap_err();
    assert!(matches!(err, ValidationError::MultipleMatches { count: 3, .. }));
}

#[test]
fn test_insert_at_line_beginning() {
    let content = "line 1\nline 2";
    let edits = vec![EditOp::insert_at_line(0, "new first line")];
    let result = apply_edits(content, edits).unwrap();
    assert_eq!(result, "new first line\nline 1\nline 2");
}

#[test]
fn test_insert_at_line_middle() {
    let content = "line 1\nline 2\nline 3";
    let edits = vec![EditOp::insert_at_line(1, "inserted")];
    let result = apply_edits(content, edits).unwrap();
    assert_eq!(result, "line 1\ninserted\nline 2\nline 3");
}

#[test]
fn test_insert_at_line_end() {
    let content = "line 1\nline 2";
    let edits = vec![EditOp::insert_at_line(2, "last line")];
    let result = apply_edits(content, edits).unwrap();
    assert_eq!(result, "line 1\nline 2\nlast line");
}

#[test]
fn test_insert_at_invalid_line() {
    let content = "line 1\nline 2";
    let edits = vec![EditOp::insert_at_line(5, "invalid")];
    let err = apply_edits(content, edits).unwrap_err();
    assert!(matches!(err, ValidationError::InvalidLine { line: 5, max_line: 2 }));
}

#[test]
fn test_append() {
    let content = "existing content";
    let edits = vec![EditOp::append("appended")];
    let result = apply_edits(content, edits).unwrap();
    assert_eq!(result, "existing content\nappended");
}

#[test]
fn test_append_empty() {
    let content = "";
    let edits = vec![EditOp::append("first line")];
    let result = apply_edits(content, edits).unwrap();
    assert_eq!(result, "first line");
}

#[test]
fn test_append_with_trailing_newline() {
    let content = "existing\n";
    let edits = vec![EditOp::append("appended")];
    let result = apply_edits(content, edits).unwrap();
    assert_eq!(result, "existing\nappended");
}

#[test]
fn test_delete_line() {
    let content = "line 1\nto delete\nline 3";
    let edits = vec![EditOp::delete_line("to delete")];
    let result = apply_edits(content, edits).unwrap();
    assert_eq!(result, "line 1\nline 3");
}

#[test]
fn test_delete_line_not_found() {
    let content = "line 1\nline 2";
    let edits = vec![EditOp::delete_line("not found")];
    let err = apply_edits(content, edits).unwrap_err();
    assert!(matches!(err, ValidationError::NotFound { .. }));
}

#[test]
fn test_multiple_edits_in_sequence() {
    let content = "a\nb\nc";
    let edits = vec![
        EditOp::replace("a", "A"),
        EditOp::insert_at_line(1, "B"),
        EditOp::append("D"),
    ];
    let result = apply_edits(content, edits).unwrap();
    assert_eq!(result, "A\nB\nb\nc\nD");
}

#[test]
fn test_failed_edit_returns_original() {
    let content = "original";
    let edits = vec![
        EditOp::replace("original", "modified"),
        EditOp::replace("not found", "error"),
    ];
    let result = apply_edits(content, edits);
    assert!(result.is_err());
}

#[test]
fn test_preserve_trailing_newline() {
    let content = "line 1\nline 2\n";
    let edits = vec![EditOp::insert_at_line(1, "inserted")];
    let result = apply_edits(content, edits).unwrap();
    assert_eq!(result, "line 1\ninserted\nline 2\n");
}

#[test]
fn unique_replace_leaves_one_replacement_and_no_pattern() {
    let content = "alpha\nbeta\ngamma";
    let result = apply_edits(content, vec![EditOp::replace("beta", "delta")]).unwrap();
    assert_eq!(result, "alpha\ndelta\ngamma");
    assert_eq!(result.matches("delta").count(), 1);
    assert_eq!(result.matches("beta").count(), 0);
}

#[test]
fn replace_counts_non_overlapping_matches() {
    let err = apply_edits("aaaa", vec![EditOp::replace("aa", "b")]).unwrap_err();
    assert!(matches!(err, ValidationError::MultipleMatches { count: 2, .. }));
    let ok = apply_edits("aaa", vec![EditOp::replace("aa", "b")]).unwrap();
    assert_eq!(ok, "ba");
}

#[test]
fn replace_empty_pattern() {
    let err = apply_edits("abc", vec![EditOp::replace("", "x")]).unwrap_err();
    assert!(matches!(err, ValidationError::MultipleMatches { count: 4, .. }));
    assert_eq!(apply_edits("", vec![EditOp::replace("", "x")]).unwrap(), "x");
}

#[test]
fn insert_then_delete_round_trip() {
    let content = "one\ntwo\nthree\n";
    let inserted = apply_edits(content, vec![EditOp::insert_at_line(2, "extra")]).unwrap();
    assert_eq!(inserted, "one\ntwo\nextra\nthree\n");
    let back = apply_edits(&inserted, vec![EditOp::delete_line("extra")]).unwrap();
    assert_eq!(back, content);
}

#[test]
fn delete_line_removes_every_copy() {
    let result = apply_edits("x\ny\nx\nz", vec![EditOp::delete_line("x")]).unwrap();
    assert_eq!(result, "y\nz");
}

#[test]
fn insert_into_empty_content() {
    let result = apply_edits("", vec![EditOp::insert_at_line(0, "first")]).unwrap();
    assert_eq!(result, "first");
    let err = apply_edits("", vec![EditOp::insert_at_line(1, "x")]).unwrap_err();
    assert!(matches!(err, ValidationError::InvalidLine { line: 1, max_line: 0 }));
}

#[test]
fn crlf_lines_are_split_like_std() {
    let result = apply_edits("a\r\nb\r\n", vec![EditOp::insert_at_line(1, "m")]).unwrap();
    assert_eq!(result, "a\nm\nb\n");
}
