use vstd::prelude::*;

verus! {

/// The ways a filesystem operation of this library can fail.
///
/// `NotFound` covers a missing file, directory, or symlink target;
/// `InvalidInput` a malformed octal permission string; `AlreadyExists`
/// a symlink created over an existing path; and `NotAFile` an operation
/// that needs a regular file but was given something else.
#[derive(Debug, Clone, Copy, PartialEq, Eq)]
pub enum FsError {
    NotFound,
    InvalidInput,
    AlreadyExists,
    NotAFile,
}

} // verus!
