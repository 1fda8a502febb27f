use fsops::errors::FsError;
use fsops::filter::apply_filters;
use fsops::mode::parse_mode;

#[test]
fn no_filters_always_pass() {
    assert!(apply_filters("dir/file.txt", None, None));
    assert!(apply_filters("file", None, None));
    assert!(apply_filters("", None, None));
}

#[test]
fn extension_filter_matches_exactly() {
    assert!(apply_filters("dir/file.txt", Some("txt"), None));
    assert!(!apply_filters("dir/file.txt", Some("tx"), None));
    assert!(!apply_filters("dir/file.txt", Some("TXT"), None));
    assert!(!apply_filters("dir/file.md", Some("txt"), None));
}

#[test]
fn path_without_extension_never_passes_extension_filter() {
    assert!(!apply_filters("dir/file", Some("txt"), None));
    assert!(!apply_filters("dir/file", Some(""), None));
}

#[test]
fn hidden_file_has_no_extension() {
    assert!(!apply_filters("dir/.gitignore", Some("gitignore"), None));
}

#[test]
fn trailing_dot_gives_empty_extension() {
    assert!(apply_filters("dir/file.", Some(""), None));
    assert!(!apply_filters("dir/file.", Some("txt"), None));
}

#[test]
fn last_dot_decides_the_extension() {
    assert!(apply_filters("a/b.tar.gz", Some("gz"), None));
    assert!(!apply_filters("a/b.tar.gz", Some("tar.gz"), None));
}

#[test]
fn name_filter_is_a_substring_match() {
    assert!(apply_filters("dir/report_2024.txt", Some("txt"), Some("report")));
    assert!(apply_filters("dir/report_2024.txt", None, Some("2024")));
    assert!(!apply_filters("dir/report_2024.txt", None, Some("2025")));
    assert!(apply_filters("dir/report_2024.txt", None, Some("")));
}

#[test]
fn name_filter_looks_only_at_the_final_component() {
    assert!(!apply_filters("needle/file.txt", None, Some("needle")));
    assert!(apply_filters("dir/needle.txt", None, Some("needle")));
}

#[test]
fn both_filters_must_pass() {
    assert!(apply_filters("d/report.txt", Some("txt"), Some("rep")));
    assert!(!apply_filters("d/report.txt", Some("md"), Some("rep")));
    assert!(!apply_filters("d/report.txt", Some("txt"), Some("xyz")));
}

#[test]
fn parse_mode_reads_octal() {
    assert_eq!(parse_mode("755"), Ok(0o755));
    assert_eq!(parse_mode("0"), Ok(0));
    assert_eq!(parse_mode("644"), Ok(0o644));
    assert_eq!(parse_mode("777"), Ok(0o777));
    assert_eq!(parse_mode("0755"), Ok(0o755));
}

#[test]
fn parse_mode_rejects_bad_input() {
    assert_eq!(parse_mode(""), Err(FsError::InvalidInput));
    assert_eq!(parse_mode("abc"), Err(FsError::InvalidInput));
    assert_eq!(parse_mode("778"), Err(FsError::InvalidInput));
    assert_eq!(parse_mode("7 5"), Err(FsError::InvalidInput));
    assert_eq!(parse_mode("-7"), Err(FsError::InvalidInput));
    assert_eq!(parse_mode("+7"), Err(FsError::InvalidInput));
}

#[test]
fn parse_mode_rejects_overflow() {
    assert_eq!(parse_mode("37777777777"), Ok(u32::MAX));
    assert_eq!(parse_mode("40000000000"), Err(FsError::InvalidInput));
    assert_eq!(parse_mode("777777777777777"), Err(FsError::InvalidInput));
}
