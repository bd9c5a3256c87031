use repo_edit::error::Error;
use repo_edit::modify::{FileModification, ModificationMode, ModifyFileArgs, modify_content};
use repo_edit::store::{Functions, ReadFileArgs, WriteFileArgs};

fn store_with(path: &str, content: &str) -> Functions {
    let mut f = Functions::new();
    f.write_file(WriteFileArgs { path: path.to_string(), content: content.to_string() })
        .expect("seeding the store should succeed");
    f
}

fn replace(path: &str, start_line: usize, end_line: usize, content: &str) -> ModifyFileArgs {
    ModifyFileArgs {
        path: path.to_string(),
        mode: ModificationMode::Replace,
        start_line,
        end_line: Some(end_line),
        content: content.to_string(),
    }
}

fn insert(path: &str, start_line: usize, content: &str) -> ModifyFileArgs {
    ModifyFileArgs {
        path: path.to_string(),
        mode: ModificationMode::Insert,
        start_line,
        end_line: None,
        content: content.to_string(),
    }
}

#[test]
fn replace_one_middle_line() {
    let mut f = store_with("test.txt", "Line 1\nLine 2\nLine 3");
    let res = f
        .modify_file(replace("test.txt", 2, 2, "Modified Line"))
        .expect("replacement should succeed");
    assert_eq!(res.old_contents, "Line 1\nLine 2\nLine 3");
    assert_eq!(res.new_contents, "Line 1\nModified Line\nLine 3\n");

    // The content a following read returns is exactly the reported one.
    let read_back = f
        .read_file(ReadFileArgs { path: "test.txt".to_string() })
        .expect("modified file should exist");
    assert_eq!(read_back, res.new_contents);
}

#[test]
fn insert_one_past_the_last_line_appends() {
    let mut f = store_with("test.txt", "Line 1\nModified Line\nLine 3\n");
    let res = f
        .modify_file(insert("test.txt", 4, "New line"))
        .expect("insertion should succeed");
    assert_eq!(res.new_contents, "Line 1\nModified Line\nLine 3\nNew line\n");

    let read_back = f
        .read_file(ReadFileArgs { path: "test.txt".to_string() })
        .expect("modified file should exist");
    assert_eq!(read_back, res.new_contents);
}

#[test]
fn insert_into_empty_file() {
    let mut f = store_with("empty.txt", "");
    let res = f
        .modify_file(insert("empty.txt", 1, "Text"))
        .expect("inserting into an empty file should succeed");
    assert_eq!(res.old_contents, "");
    assert_eq!(res.new_contents, "Text\n");
}

#[test]
fn insert_at_the_beginning() {
    let mut f = store_with("begin.txt", "Line1\nLine2");
    let res = f
        .modify_file(insert("begin.txt", 1, "Inserted at beginning"))
        .expect("insertion at the beginning should succeed");
    assert_eq!(res.new_contents, "Inserted at beginning\nLine1\nLine2\n");
}

#[test]
fn insert_multi_line_content() {
    let mut f = store_with("multi.txt", "a\nd");
    let res = f
        .modify_file(insert("multi.txt", 2, "b\nc"))
        .expect("multi-line insertion should succeed");
    assert_eq!(res.new_contents, "a\nb\nc\nd\n");
}

#[test]
fn replace_with_empty_content_deletes_the_line() {
    let mut f = store_with("del.txt", "Line1\nLine2\nLine3");
    let res = f
        .modify_file(replace("del.txt", 2, 2, ""))
        .expect("replacement by nothing should succeed");
    assert_eq!(res.new_contents, "Line1\nLine3\n");
}

#[test]
fn replace_a_range_of_lines() {
    let mut f = store_with("range.txt", "a\nb\nc\nd");
    let res = f
        .modify_file(replace("range.txt", 2, 3, "x"))
        .expect("range replacement should succeed");
    assert_eq!(res.new_contents, "a\nx\nd\n");
}

#[test]
fn replace_beyond_the_last_line_appends() {
    let mut f = store_with("beyond.txt", "a");
    let res = f
        .modify_file(replace("beyond.txt", 5, 7, "x"))
        .expect("a range beyond the content should degenerate to an append");
    assert_eq!(res.new_contents, "a\nx\n");
}

#[test]
fn modify_missing_file_fails() {
    let mut f = Functions::new();
    let r = f.modify_file(insert("missing.txt", 1, "x"));
    assert_eq!(r.expect_err("modifying a missing file must fail"), Error::NotFound);
}

#[test]
fn replace_without_end_line_fails() {
    let mut f = store_with("test.txt", "Line1");
    let args = ModifyFileArgs {
        path: "test.txt".to_string(),
        mode: ModificationMode::Replace,
        start_line: 1,
        end_line: None,
        content: "x".to_string(),
    };
    let r = f.modify_file(args);
    assert_eq!(r.expect_err("a replacement without an end line must fail"), Error::MissingParameter);

    // The failed modification left the file untouched.
    let read_back = f
        .read_file(ReadFileArgs { path: "test.txt".to_string() })
        .expect("the file should still exist");
    assert_eq!(read_back, "Line1");
}

#[test]
fn modify_content_reports_both_sides() {
    let res = modify_content(
        "Line 1\nLine 2\nLine 3",
        &FileModification::Replace { start_line: 2, end_line: 2, content: "Modified Line".to_string() },
    );
    assert_eq!(res.old_contents, "Line 1\nLine 2\nLine 3");
    assert_eq!(res.new_contents, "Line 1\nModified Line\nLine 3\n");
}

#[test]
fn error_messages() {
    assert_eq!(Error::NotFound.message(), "File does not exist");
    assert_eq!(Error::AlreadyExists.message(), "File already exists");
    assert_eq!(Error::MissingParameter.message(), "Missing end_line parameter");
}
