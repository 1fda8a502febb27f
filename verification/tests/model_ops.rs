use fsops::errors::FsError;
use fsops::model::FsModel;

fn temp_content() -> Vec<u8> {
    b"Temporary test file".to_vec()
}

#[test]
fn test_copy_file() {
    let src = "test_src_copy.txt";
    let dest = "test_dest_copy.txt";

    let mut fs = FsModel::new();
    fs.add_file(src, temp_content(), 0o644);

    fs.copy_file(src, dest).unwrap();

    assert!(fs.contains_path(dest));
    assert_eq!(fs.file_content(dest).unwrap(), &temp_content());
    assert_eq!(fs.file_content(src).unwrap(), &temp_content());
    assert_eq!(fs.mode_of(dest).unwrap(), 0o644);
}

#[test]
fn test_move_file() {
    let src = "test_src_move.txt";
    let dest = "test_dest_move.txt";

    let mut fs = FsModel::new();
    fs.add_file(src, temp_content(), 0o644);

    fs.move_file(src, dest).unwrap();

    assert!(!fs.contains_path(src));
    assert!(fs.contains_path(dest));
    assert_eq!(fs.file_content(dest).unwrap(), &temp_content());
}

#[test]
fn test_delete_file() {
    let file = "test_file_delete.txt";

    let mut fs = FsModel::new();
    fs.add_file(file, temp_content(), 0o644);

    fs.delete_file(file).unwrap();

    assert!(!fs.contains_path(file));
}

#[test]
fn test_change_permissions() {
    let file = "test_file_permissions.txt";

    let mut fs = FsModel::new();
    fs.add_file(file, temp_content(), 0o644);

    let mode_str = "755";
    let mode_num = 0o755;

    fs.change_permissions(file, mode_str).unwrap();

    assert_eq!(fs.mode_of(file).unwrap() & 0o777, mode_num);
}

#[test]
fn test_create_symlink() {
    let target = "test_target_symlink.txt";
    let symlink = "test_symlink.txt";

    let mut fs = FsModel::new();
    fs.add_file(target, temp_content(), 0o644);

    fs.create_symlink(target, symlink).unwrap();

    assert!(fs.contains_path(symlink));
    assert_eq!(fs.symlink_target(symlink).unwrap(), target);
    assert_eq!(fs.symlink_target(target), None);
}

#[test]
fn test_list_files() {
    let dir = "test_dir";
    let file = "test_dir/test_file.txt";

    let mut fs = FsModel::new();
    fs.add_dir(dir, 0o755);
    fs.add_file(file, temp_content(), 0o644);

    let names = fs.list_files(dir).unwrap();
    assert_eq!(names, vec!["test_file.txt".to_string()]);
}

#[test]
fn test_list_recursive() {
    let dir = "test_recursive_dir";
    let sub_dir = "test_recursive_dir/sub_dir";
    let file1 = "test_recursive_dir/file1.txt";
    let file2 = "test_recursive_dir/sub_dir/file2.txt";

    let mut fs = FsModel::new();
    fs.add_dir(dir, 0o755);
    fs.add_file(file1, temp_content(), 0o644);
    fs.add_dir(sub_dir, 0o755);
    fs.add_file(file2, temp_content(), 0o644);

    let lines = fs.list_recursive(dir, None, None).unwrap();
    assert_eq!(
        lines,
        vec![
            "test_recursive_dir/file1.txt".to_string(),
            "test_recursive_dir/sub_dir".to_string(),
            "  test_recursive_dir/sub_dir/file2.txt".to_string(),
        ]
    );
}

#[test]
fn delete_missing_file_is_not_found() {
    let mut fs = FsModel::new();
    assert_eq!(fs.delete_file("absent.txt"), Err(FsError::NotFound));
}

#[test]
fn delete_directory_is_refused() {
    let mut fs = FsModel::new();
    fs.add_dir("d", 0o755);
    assert_eq!(fs.delete_file("d"), Err(FsError::NotAFile));
    assert!(fs.contains_path("d"));
}

#[test]
fn copy_missing_source_is_not_found() {
    let mut fs = FsModel::new();
    assert_eq!(fs.copy_file("absent.txt", "dest.txt"), Err(FsError::NotFound));
}

#[test]
fn copy_directory_is_refused() {
    let mut fs = FsModel::new();
    fs.add_dir("d", 0o755);
    assert_eq!(fs.copy_file("d", "dest.txt"), Err(FsError::NotAFile));
}

#[test]
fn copy_into_missing_parent_is_not_found() {
    let mut fs = FsModel::new();
    fs.add_file("a.txt", temp_content(), 0o644);
    assert_eq!(fs.copy_file("a.txt", "nodir/b.txt"), Err(FsError::NotFound));
    let mut fs2 = FsModel::new();
    fs2.add_file("a.txt", temp_content(), 0o644);
    fs2.add_dir("dir", 0o755);
    fs2.copy_file("a.txt", "dir/b.txt").unwrap();
    assert!(fs2.contains_path("dir/b.txt"));
}

#[test]
fn copy_overwrites_destination() {
    let mut fs = FsModel::new();
    fs.add_file("a.txt", b"new".to_vec(), 0o600);
    fs.add_file("b.txt", b"old".to_vec(), 0o644);
    fs.copy_file("a.txt", "b.txt").unwrap();
    assert_eq!(fs.file_content("b.txt").unwrap(), &b"new".to_vec());
    assert_eq!(fs.mode_of("b.txt").unwrap(), 0o600);
}

#[test]
fn move_missing_source_is_not_found() {
    let mut fs = FsModel::new();
    assert_eq!(fs.move_file("absent.txt", "dest.txt"), Err(FsError::NotFound));
}

#[test]
fn move_directory_moves_the_entry() {
    let mut fs = FsModel::new();
    fs.add_dir("d", 0o755);
    fs.move_file("d", "e").unwrap();
    assert!(!fs.contains_path("d"));
    assert!(fs.contains_path("e"));
}

#[test]
fn symlink_missing_target_is_not_found() {
    let mut fs = FsModel::new();
    assert_eq!(fs.create_symlink("absent.txt", "link.txt"), Err(FsError::NotFound));
    assert!(!fs.contains_path("link.txt"));
}

#[test]
fn symlink_over_existing_path_already_exists() {
    let mut fs = FsModel::new();
    fs.add_file("t.txt", temp_content(), 0o644);
    fs.add_file("link.txt", temp_content(), 0o644);
    assert_eq!(fs.create_symlink("t.txt", "link.txt"), Err(FsError::AlreadyExists));
}

#[test]
fn chmod_missing_file_is_not_found() {
    let mut fs = FsModel::new();
    assert_eq!(fs.change_permissions("absent.txt", "755"), Err(FsError::NotFound));
}

#[test]
fn chmod_bad_mode_is_invalid_input() {
    let mut fs = FsModel::new();
    fs.add_file("a.txt", temp_content(), 0o644);
    assert_eq!(fs.change_permissions("a.txt", "75x"), Err(FsError::InvalidInput));
    assert_eq!(fs.mode_of("a.txt").unwrap(), 0o644);
}

#[test]
fn chmod_missing_file_beats_bad_mode() {
    let mut fs = FsModel::new();
    assert_eq!(fs.change_permissions("absent.txt", "75x"), Err(FsError::NotFound));
}

#[test]
fn list_files_on_missing_directory_is_not_found() {
    let fs = FsModel::new();
    assert_eq!(fs.list_files("absent"), Err(FsError::NotFound));
}

#[test]
fn list_files_on_a_file_is_not_found() {
    let mut fs = FsModel::new();
    fs.add_file("a.txt", temp_content(), 0o644);
    assert_eq!(fs.list_files("a.txt"), Err(FsError::NotFound));
}
