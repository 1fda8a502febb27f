use fsops::command::{parse_args, CliCommand, CliError};

fn args_of(words: &[&str]) -> Vec<String> {
    words.iter().map(|w| w.to_string()).collect()
}

#[test]
fn no_arguments_is_no_command() {
    assert!(matches!(parse_args(&Vec::new()), Err(CliError::NoCommand)));
}

#[test]
fn unknown_command_is_reported_with_its_word() {
    match parse_args(&args_of(&["frobnicate"])) {
        Err(CliError::UnknownCommand { command }) => assert_eq!(command, "frobnicate"),
        other => panic!("unexpected result: {:?}", other),
    }
}

#[test]
fn list_defaults_to_current_directory() {
    match parse_args(&args_of(&["list"])) {
        Ok(CliCommand::ListDir { dir }) => assert_eq!(dir, "."),
        other => panic!("unexpected result: {:?}", other),
    }
}

#[test]
fn list_takes_a_directory() {
    match parse_args(&args_of(&["list", "some/dir"])) {
        Ok(CliCommand::ListDir { dir }) => assert_eq!(dir, "some/dir"),
        other => panic!("unexpected result: {:?}", other),
    }
}

#[test]
fn copy_takes_source_and_destination() {
    match parse_args(&args_of(&["copy", "a.txt", "b.txt"])) {
        Ok(CliCommand::CopyFile { src, dest }) => {
            assert_eq!(src, "a.txt");
            assert_eq!(dest, "b.txt");
        },
        other => panic!("unexpected result: {:?}", other),
    }
}

#[test]
fn copy_without_destination_is_missing_operands() {
    match parse_args(&args_of(&["copy", "a.txt"])) {
        Err(CliError::MissingOperands { command }) => assert_eq!(command, "copy"),
        other => panic!("unexpected result: {:?}", other),
    }
}

#[test]
fn move_takes_source_and_destination() {
    match parse_args(&args_of(&["move", "a.txt", "b.txt"])) {
        Ok(CliCommand::MoveFile { src, dest }) => {
            assert_eq!(src, "a.txt");
            assert_eq!(dest, "b.txt");
        },
        other => panic!("unexpected result: {:?}", other),
    }
}

#[test]
fn delete_takes_a_file() {
    match parse_args(&args_of(&["delete", "a.txt"])) {
        Ok(CliCommand::DeleteFile { file }) => assert_eq!(file, "a.txt"),
        other => panic!("unexpected result: {:?}", other),
    }
}

#[test]
fn delete_without_file_is_missing_operands() {
    assert!(matches!(parse_args(&args_of(&["delete"])), Err(CliError::MissingOperands { .. })));
}

#[test]
fn symlink_takes_target_and_link() {
    match parse_args(&args_of(&["symlink", "t.txt", "l.txt"])) {
        Ok(CliCommand::CreateSymlink { target, link }) => {
            assert_eq!(target, "t.txt");
            assert_eq!(link, "l.txt");
        },
        other => panic!("unexpected result: {:?}", other),
    }
}

#[test]
fn chmod_takes_mode_then_file() {
    match parse_args(&args_of(&["chmod", "755", "a.txt"])) {
        Ok(CliCommand::Chmod { mode, file }) => {
            assert_eq!(mode, "755");
            assert_eq!(file, "a.txt");
        },
        other => panic!("unexpected result: {:?}", other),
    }
}

#[test]
fn list_recursive_without_flags() {
    match parse_args(&args_of(&["list_recursive", "d"])) {
        Ok(CliCommand::ListRecursive { dir, extension_filter, name_filter }) => {
            assert_eq!(dir, "d");
            assert_eq!(extension_filter, None);
            assert_eq!(name_filter, None);
        },
        other => panic!("unexpected result: {:?}", other),
    }
}

#[test]
fn list_recursive_without_directory_is_missing_operands() {
    assert!(matches!(
        parse_args(&args_of(&["list_recursive"])),
        Err(CliError::MissingOperands { .. })
    ));
}

#[test]
fn list_recursive_takes_both_flags_in_any_order() {
    match parse_args(&args_of(&["list_recursive", "d", "--name", "rep", "--extension", "txt"])) {
        Ok(CliCommand::ListRecursive { dir, extension_filter, name_filter }) => {
            assert_eq!(dir, "d");
            assert_eq!(extension_filter.as_deref(), Some("txt"));
            assert_eq!(name_filter.as_deref(), Some("rep"));
        },
        other => panic!("unexpected result: {:?}", other),
    }
}

#[test]
fn list_recursive_rejects_unknown_flags() {
    match parse_args(&args_of(&["list_recursive", "d", "--depth", "3"])) {
        Err(CliError::UnknownFlag { flag }) => assert_eq!(flag, "--depth"),
        other => panic!("unexpected result: {:?}", other),
    }
}

#[test]
fn list_recursive_rejects_a_flag_without_value() {
    match parse_args(&args_of(&["list_recursive", "d", "--extension"])) {
        Err(CliError::MissingFlagValue { flag }) => assert_eq!(flag, "--extension"),
        other => panic!("unexpected result: {:?}", other),
    }
    match parse_args(&args_of(&["list_recursive", "d", "--name"])) {
        Err(CliError::MissingFlagValue { flag }) => assert_eq!(flag, "--name"),
        other => panic!("unexpected result: {:?}", other),
    }
}

#[test]
fn extra_operands_are_ignored() {
    assert!(matches!(
        parse_args(&args_of(&["copy", "a", "b", "c"])),
        Ok(CliCommand::CopyFile { .. })
    ));
}
