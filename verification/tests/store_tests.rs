use repo_edit::error::Error;
use repo_edit::store::{
    CreateFileArgs, DeleteFileArgs, Functions, MoveFileArgs, ReadFileArgs, WriteFileArgs,
};

fn read(f: &Functions, path: &str) -> Option<String> {
    f.read_file(ReadFileArgs { path: path.to_string() })
}

#[test]
fn functions_test_file_creation_and_deletion() {
    let mut functions = Functions::new();

    let file_path = "temp_file.txt";
    let file_content = "Temporary file contents";

    // Test file creation
    assert!(
        functions
            .write_file(WriteFileArgs {
                content: file_content.to_string(),
                path: file_path.to_string(),
            })
            .is_ok(),
        "Should be able to create a new file"
    );

    // Test file existence after creation
    assert!(read(&functions, file_path).is_some(), "Newly created file should exist");

    // Test file deletion
    assert!(
        functions.delete_file(DeleteFileArgs { path: file_path.to_string() }).is_ok(),
        "Should be able to delete the file"
    );

    // Test file existence after deletion
    assert!(read(&functions, file_path).is_none(), "File should not exist after deletion");
}

#[test]
fn tools_test_file_creation_and_deletion() {
    let mut functions = Functions::new();

    let file_path = "temp_file.txt";
    let file_content = "Temporary file contents";

    // Test file creation
    assert!(
        functions
            .create_file(CreateFileArgs {
                content: file_content.to_string(),
                path: file_path.to_string(),
            })
            .is_ok(),
        "Should be able to create a new file"
    );

    // Test file existence after creation
    assert!(read(&functions, file_path).is_some(), "Newly created file should exist");

    // Test file deletion
    assert!(
        functions.delete_file(DeleteFileArgs { path: file_path.to_string() }).is_ok(),
        "Should be able to delete the file"
    );

    // Test file existence after deletion
    assert!(read(&functions, file_path).is_none(), "File should not exist after deletion");
}

#[test]
fn create_file_on_existing_path_fails_and_keeps_content() {
    let mut f = Functions::new();
    f.create_file(CreateFileArgs { path: "a.txt".to_string(), content: "first".to_string() })
        .expect("first creation should succeed");

    let r = f.create_file(CreateFileArgs {
        path: "a.txt".to_string(),
        content: "second".to_string(),
    });
    assert_eq!(r, Err(Error::AlreadyExists));
    assert_eq!(read(&f, "a.txt").expect("file should still exist"), "first");
}

#[test]
fn delete_file_on_missing_path_fails_without_effect() {
    let mut f = Functions::new();
    f.create_file(CreateFileArgs { path: "keep.txt".to_string(), content: "kept".to_string() })
        .expect("creation should succeed");

    let r = f.delete_file(DeleteFileArgs { path: "missing.txt".to_string() });
    assert_eq!(r, Err(Error::NotFound));
    assert_eq!(f.get_all_files(), vec!["keep.txt".to_string()]);
    assert_eq!(read(&f, "keep.txt").expect("file should still exist"), "kept");
}

#[test]
fn write_file_returns_prior_content() {
    let mut f = Functions::new();
    let first = f
        .write_file(WriteFileArgs { path: "w.txt".to_string(), content: "one".to_string() })
        .expect("write should succeed");
    assert_eq!(first, None);

    let second = f
        .write_file(WriteFileArgs { path: "w.txt".to_string(), content: "two".to_string() })
        .expect("write should succeed");
    assert_eq!(second, Some("one".to_string()));
    assert_eq!(read(&f, "w.txt").expect("file should exist"), "two");
}

#[test]
fn move_file_fails_if_destination_exists() {
    let mut f = Functions::new();
    f.create_file(CreateFileArgs { path: "src.txt".to_string(), content: "s".to_string() })
        .expect("creation should succeed");
    f.create_file(CreateFileArgs { path: "dst.txt".to_string(), content: "d".to_string() })
        .expect("creation should succeed");

    let r = f.move_file(MoveFileArgs {
        source_path: "src.txt".to_string(),
        destination_path: "dst.txt".to_string(),
    });
    assert_eq!(r, Err(Error::AlreadyExists));
    assert_eq!(read(&f, "src.txt").expect("source should be untouched"), "s");
    assert_eq!(read(&f, "dst.txt").expect("destination should be untouched"), "d");
}

#[test]
fn move_file_fails_if_source_missing() {
    let mut f = Functions::new();
    let r = f.move_file(MoveFileArgs {
        source_path: "missing.txt".to_string(),
        destination_path: "dst.txt".to_string(),
    });
    assert_eq!(r, Err(Error::NotFound));
    assert!(f.get_all_files().is_empty());
}

#[test]
fn move_file_succeeds_into_fresh_path() {
    let mut f = Functions::new();
    f.create_file(CreateFileArgs { path: "old.txt".to_string(), content: "body".to_string() })
        .expect("creation should succeed");

    f.move_file(MoveFileArgs {
        source_path: "old.txt".to_string(),
        destination_path: "nested/dir/new.txt".to_string(),
    })
    .expect("move should succeed");

    assert!(read(&f, "old.txt").is_none(), "source should be gone");
    assert_eq!(read(&f, "nested/dir/new.txt").expect("destination should exist"), "body");
}

#[test]
fn get_all_files_lists_paths_in_creation_order() {
    let mut f = Functions::new();
    for path in ["b.txt", "a.txt", "c/d.txt"] {
        f.create_file(CreateFileArgs { path: path.to_string(), content: String::new() })
            .expect("creation should succeed");
    }
    let expected =
        vec!["b.txt".to_string(), "a.txt".to_string(), "c/d.txt".to_string()];
    assert_eq!(f.get_all_files(), expected);
    assert_eq!(f.list_files(), expected);
}
