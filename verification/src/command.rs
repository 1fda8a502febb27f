use vstd::prelude::*;
use crate::filter::opt_string_view;
use crate::strutil::str_eq;

verus! {

/// A parsed command line: which operation to run and its operands.
#[derive(Debug)]
pub enum CliCommand {
    ListDir { dir: String },
    CopyFile { src: String, dest: String },
    MoveFile { src: String, dest: String },
    DeleteFile { file: String },
    CreateSymlink { target: String, link: String },
    ListRecursive { dir: String, extension_filter: Option<String>, name_filter: Option<String> },
    Chmod { mode: String, file: String },
}

/// Why a command line was rejected before any filesystem work: no command
/// word at all, an unknown command word, too few operands for the command,
/// an unrecognized flag, or a flag without its value.
#[derive(Debug)]
pub enum CliError {
    NoCommand,
    UnknownCommand { command: String },
    MissingOperands { command: String },
    UnknownFlag { flag: String },
    MissingFlagValue { flag: String },
}

/// How scanning the optional flags of the recursive listing ends: both
/// filters collected, or the first offending argument.
pub enum FlagsOutcome {
    Done { ext: Option<Seq<char>>, name: Option<Seq<char>> },
    BadFlag { flag: Seq<char> },
    NoValue { flag: Seq<char> },
}

/// Scans `args` from index `i` for `--extension <value>` and
/// `--name <value>` pairs, in any order and with repetition (the last
/// occurrence wins). Stops at the first unknown argument or at a flag
/// missing its value.
pub open spec fn parse_flags_spec(
    args: Seq<Seq<char>>,
    i: int,
    ext: Option<Seq<char>>,
    name: Option<Seq<char>>,
) -> FlagsOutcome
    decreases args.len() - i,
    when 0 <= i <= args.len()
{
    if i >= args.len() {
        FlagsOutcome::Done { ext, name }
    } else if args[i] == "--extension"@ {
        if i + 1 < args.len() {
            parse_flags_spec(args, i + 2, Some(args[i + 1]), name)
        } else {
            FlagsOutcome::NoValue { flag: args[i] }
        }
    } else if args[i] == "--name"@ {
        if i + 1 < args.len() {
            parse_flags_spec(args, i + 2, ext, Some(args[i + 1]))
        } else {
            FlagsOutcome::NoValue { flag: args[i] }
        }
    } else {
        FlagsOutcome::BadFlag { flag: args[i] }
    }
}

/// Parses the process arguments (after the program name) into a command.
/// The first argument picks the operation; the following ones are its
/// operands. Arguments beyond what an operation needs are ignored, except
/// under `list_recursive`, whose tail is scanned for filter flags.
pub fn parse_args(args: &Vec<String>) -> (r: Result<CliCommand, CliError>)
    ensures
        ({
            let a = args.deep_view();
            &&& (a.len() == 0 ==> r matches Err(CliError::NoCommand))
            &&& (a.len() > 0 && a[0] == "list"@ ==> (r matches Ok(CliCommand::ListDir { dir })
                && dir@ == (if a.len() >= 2 {
                    a[1]
                } else {
                    "."@
                })))
            &&& (a.len() > 0 && a[0] == "copy"@ ==> (if a.len() >= 3 {
                r matches Ok(CliCommand::CopyFile { src, dest }) && src@ == a[1] && dest@ == a[2]
            } else {
                r matches Err(CliError::MissingOperands { command }) && command@ == a[0]
            }))
            &&& (a.len() > 0 && a[0] == "move"@ ==> (if a.len() >= 3 {
                r matches Ok(CliCommand::MoveFile { src, dest }) && src@ == a[1] && dest@ == a[2]
            } else {
                r matches Err(CliError::MissingOperands { command }) && command@ == a[0]
            }))
            &&& (a.len() > 0 && a[0] == "delete"@ ==> (if a.len() >= 2 {
                r matches Ok(CliCommand::DeleteFile { file }) && file@ == a[1]
            } else {
                r matches Err(CliError::MissingOperands { command }) && command@ == a[0]
            }))
            &&& (a.len() > 0 && a[0] == "symlink"@ ==> (if a.len() >= 3 {
                r matches Ok(CliCommand::CreateSymlink { target, link }) && target@ == a[1]
                    && link@ == a[2]
            } else {
                r matches Err(CliError::MissingOperands { command }) && command@ == a[0]
            }))
            &&& (a.len() > 0 && a[0] == "chmod"@ ==> (if a.len() >= 3 {
                r matches Ok(CliCommand::Chmod { mode, file }) && mode@ == a[1] && file@ == a[2]
            } else {
                r matches Err(CliError::MissingOperands { command }) && command@ == a[0]
            }))
            &&& (a.len() > 0 && a[0] == "list_recursive"@ ==> (if a.len() >= 2 {
                match parse_flags_spec(a, 2, None, None) {
                    FlagsOutcome::Done { ext, name } => r matches Ok(
                        CliCommand::ListRecursive { dir, extension_filter, name_filter },
                    ) && dir@ == a[1] && opt_string_view(extension_filter) == ext && opt_string_view(name_filter)
                        == name,
                    FlagsOutcome::BadFlag { flag: f } => r matches Err(
                        CliError::UnknownFlag { flag },
                    ) && flag@ == f,
                    FlagsOutcome::NoValue { flag: f } => r matches Err(
                        CliError::MissingFlagValue { flag },
                    ) && flag@ == f,
                }
            } else {
                r matches Err(CliError::MissingOperands { command }) && command@ == a[0]
            }))
            &&& (a.len() > 0 && a[0] != "list"@ && a[0] != "copy"@ && a[0] != "move"@ && a[0]
                != "delete"@ && a[0] != "symlink"@ && a[0] != "list_recursive"@ && a[0] != "chmod"@
                ==> (r matches Err(CliError::UnknownCommand { command }) && command@ == a[0]))
        }),
{
    let ghost a = args.deep_view();
    proof {
        broadcast use vstd::string::group_string_axioms;

        reveal_strlit("list");
        reveal_strlit("copy");
        reveal_strlit("move");
        reveal_strlit("delete");
        reveal_strlit("symlink");
        reveal_strlit("chmod");
        reveal_strlit("list_recursive");
        assert("list"@[0] == 'l' && "copy"@[0] == 'c' && "move"@[0] == 'm');
        assert("list"@.len() == 4 && "copy"@.len() == 4 && "move"@.len() == 4 && "chmod"@.len()
            == 5 && "delete"@.len() == 6 && "symlink"@.len() == 7 && "list_recursive"@.len() == 14);
    }
    if args.len() == 0 {
        return Err(CliError::NoCommand);
    }
    let cmd = &args[0];
    if str_eq(cmd.as_str(), "list") {
        let dir = if args.len() >= 2 {
            args[1].clone()
        } else {
            String::from_str(".")
        };
        Ok(CliCommand::ListDir { dir })
    } else if str_eq(cmd.as_str(), "copy") {
        if args.len() >= 3 {
            Ok(CliCommand::CopyFile { src: args[1].clone(), dest: args[2].clone() })
        } else {
            Err(CliError::MissingOperands { command: cmd.clone() })
        }
    } else if str_eq(cmd.as_str(), "move") {
        if args.len() >= 3 {
            Ok(CliCommand::MoveFile { src: args[1].clone(), dest: args[2].clone() })
        } else {
            Err(CliError::MissingOperands { command: cmd.clone() })
        }
    } else if str_eq(cmd.as_str(), "delete") {
        if args.len() >= 2 {
            Ok(CliCommand::DeleteFile { file: args[1].clone() })
        } else {
            Err(CliError::MissingOperands { command: cmd.clone() })
        }
    } else if str_eq(cmd.as_str(), "symlink") {
        if args.len() >= 3 {
            Ok(CliCommand::CreateSymlink { target: args[1].clone(), link: args[2].clone() })
        } else {
            Err(CliError::MissingOperands { command: cmd.clone() })
        }
    } else if str_eq(cmd.as_str(), "chmod") {
        if args.len() >= 3 {
            Ok(CliCommand::Chmod { mode: args[1].clone(), file: args[2].clone() })
        } else {
            Err(CliError::MissingOperands { command: cmd.clone() })
        }
    } else if str_eq(cmd.as_str(), "list_recursive") {
        if args.len() < 2 {
            return Err(CliError::MissingOperands { command: cmd.clone() });
        }
        let mut ext: Option<String> = None;
        let mut nm: Option<String> = None;
        let mut i: usize = 2;
        #[verifier::loop_isolation(false)]
        while i < args.len()
            invariant
                2 <= i <= args.len(),
                a == args.deep_view(),
                parse_flags_spec(a, 2, None, None) == parse_flags_spec(
                    a,
                    i as int,
                    opt_string_view(ext),
                    opt_string_view(nm),
                ),
            decreases args.len() - i,
        {
            proof {
                broadcast use vstd::string::group_string_axioms;

                reveal_strlit("--extension");
                reveal_strlit("--name");
                assert("--extension"@.len() == 11 && "--name"@.len() == 6);
            }
            let argi = &args[i];
            if str_eq(argi.as_str(), "--extension") {
                if i + 1 < args.len() {
                    ext = Some(args[i + 1].clone());
                    i = i + 2;
                } else {
                    return Err(CliError::MissingFlagValue { flag: argi.clone() });
                }
            } else if str_eq(argi.as_str(), "--name") {
                if i + 1 < args.len() {
                    nm = Some(args[i + 1].clone());
                    i = i + 2;
                } else {
                    return Err(CliError::MissingFlagValue { flag: argi.clone() });
                }
            } else {
                return Err(CliError::UnknownFlag { flag: argi.clone() });
            }
        }
        Ok(
            CliCommand::ListRecursive {
                dir: args[1].clone(),
                extension_filter: ext,
                name_filter: nm,
            },
        )
    } else {
        Err(CliError::UnknownCommand { command: cmd.clone() })
    }
}

} // verus!
