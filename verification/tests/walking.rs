use fsops::errors::FsError;
use fsops::model::FsModel;

fn tree() -> FsModel {
    let mut fs = FsModel::new();
    fs.add_dir("root", 0o755);
    fs.add_file("root/file1.txt", b"one".to_vec(), 0o644);
    fs.add_dir("root/sub", 0o755);
    fs.add_file("root/sub/file2.txt", b"two".to_vec(), 0o644);
    fs.add_file("root/sub/notes.md", b"md".to_vec(), 0o644);
    fs
}

#[test]
fn unfiltered_walk_reports_every_entry_with_indentation() {
    let fs = tree();
    let lines = fs.list_recursive("root", None, None).unwrap();
    assert_eq!(
        lines,
        vec![
            "root/file1.txt".to_string(),
            "root/sub".to_string(),
            "  root/sub/file2.txt".to_string(),
            "  root/sub/notes.md".to_string(),
        ]
    );
}

#[test]
fn extension_filter_hides_entries_but_still_descends() {
    let fs = tree();
    let lines = fs.list_recursive("root", Some("txt".to_string()), None).unwrap();
    assert_eq!(
        lines,
        vec!["root/file1.txt".to_string(), "  root/sub/file2.txt".to_string()]
    );
}

#[test]
fn name_filter_hides_entries() {
    let fs = tree();
    let lines = fs.list_recursive("root", None, Some("file".to_string())).unwrap();
    assert_eq!(
        lines,
        vec!["root/file1.txt".to_string(), "  root/sub/file2.txt".to_string()]
    );
}

#[test]
fn both_filters_are_combined_with_and() {
    let fs = tree();
    let lines = fs
        .list_recursive("root", Some("txt".to_string()), Some("2".to_string()))
        .unwrap();
    assert_eq!(lines, vec!["  root/sub/file2.txt".to_string()]);
}

#[test]
fn listing_a_missing_directory_is_not_found() {
    let fs = tree();
    assert_eq!(fs.list_recursive("missing", None, None), Err(FsError::NotFound));
}

#[test]
fn listing_an_existing_file_yields_no_lines() {
    let fs = tree();
    let lines = fs.list_recursive("root/file1.txt", None, None).unwrap();
    assert!(lines.is_empty());
}

#[test]
fn deep_nesting_indents_two_spaces_per_level() {
    let mut fs = FsModel::new();
    fs.add_dir("a", 0o755);
    fs.add_dir("a/b", 0o755);
    fs.add_dir("a/b/c", 0o755);
    fs.add_file("a/b/c/leaf.txt", b"x".to_vec(), 0o644);
    let lines = fs.list_recursive("a", None, None).unwrap();
    assert_eq!(
        lines,
        vec![
            "a/b".to_string(),
            "  a/b/c".to_string(),
            "    a/b/c/leaf.txt".to_string(),
        ]
    );
}
