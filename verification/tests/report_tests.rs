use repo_edit::report::diff_report;

#[test]
fn diff_report_of_a_replaced_line() {
    let report = diff_report("Line 1\nLine 2\nLine 3\n", "Line 1\nModified\nLine 3\n");
    assert_eq!(report.len(), 2, "one deletion and one insertion are expected");

    assert!(report[0].is_deletion);
    assert_eq!(report[0].line, 2);
    assert_eq!(report[0].content, "Line 2");

    assert!(!report[1].is_deletion);
    assert_eq!(report[1].line, 2);
    assert_eq!(report[1].content, "Modified");
}

#[test]
fn diff_report_of_equal_texts_is_empty() {
    let report = diff_report("Line 1\nLine 2\n", "Line 1\nLine 2\n");
    assert!(report.is_empty(), "equal lines are excluded from the report");
}

#[test]
fn diff_report_of_a_pure_insertion() {
    let report = diff_report("a\nb\n", "a\nx\nb\n");
    assert_eq!(report.len(), 1);
    assert!(!report[0].is_deletion);
    assert_eq!(report[0].line, 2, "the insertion is numbered in the new text's lines");
    assert_eq!(report[0].content, "x");
}

#[test]
fn diff_report_indices_reference_their_own_side() {
    // "a" leaves as line 1 of the old text; "d" arrives as line 3 of the
    // new text: each side is numbered independently.
    let report = diff_report("a\nb\nc\n", "b\nc\nd\n");
    assert_eq!(report.len(), 2);

    assert!(report[0].is_deletion);
    assert_eq!(report[0].line, 1);
    assert_eq!(report[0].content, "a");

    assert!(!report[1].is_deletion);
    assert_eq!(report[1].line, 3);
    assert_eq!(report[1].content, "d");
}

#[test]
fn diff_report_of_texts_without_trailing_newline() {
    let report = diff_report("old line", "new line");
    assert_eq!(report.len(), 2);
    assert!(report[0].is_deletion);
    assert_eq!(report[0].line, 1);
    assert_eq!(report[0].content, "old line");
    assert!(!report[1].is_deletion);
    assert_eq!(report[1].line, 1);
    assert_eq!(report[1].content, "new line");
}
