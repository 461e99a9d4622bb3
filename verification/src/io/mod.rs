//! Checks on the paths that an operation is asked to read from or write to.

use vstd::prelude::*;

verus! {

/// Why a path cannot be used.
#[derive(Debug, Clone, Copy, PartialEq, Eq, Structural)]
pub enum PathError {
    /// Nothing exists at the input path.
    InputMissing,
    /// The input path exists but is not a regular file.
    InputNotAFile,
    /// The directory that would hold the output does not exist.
    OutputDirectoryMissing,
}

/// The verdict on an input path, given what the file system says about it.
pub open spec fn input_verdict(exists: bool, is_file: bool) -> Result<(), PathError> {
    if !exists {
        Err(PathError::InputMissing)
    } else if !is_file {
        Err(PathError::InputNotAFile)
    } else {
        Ok(())
    }
}

/// The verdict on an output path. `parent_exists` is `None` when the path has no
/// parent directory, and otherwise tells whether that directory exists.
pub open spec fn output_verdict(parent_exists: Option<bool>) -> Result<(), PathError> {
    match parent_exists {
        Some(false) => Err(PathError::OutputDirectoryMissing),
        _ => Ok(()),
    }
}

/// Decides whether an input path is usable from the two facts probed about it.
pub fn judge_input(exists: bool, is_file: bool) -> (verdict: Result<(), PathError>)
    ensures
        verdict == input_verdict(exists, is_file),
{
    if !exists {
        Err(PathError::InputMissing)
    } else if !is_file {
        Err(PathError::InputNotAFile)
    } else {
        Ok(())
    }
}

/// Decides whether an output path is usable from what is known of its parent directory.
pub fn judge_output(parent_exists: Option<bool>) -> (verdict: Result<(), PathError>)
    ensures
        verdict == output_verdict(parent_exists),
{
    match parent_exists {
        Some(false) => Err(PathError::OutputDirectoryMissing),
        _ => Ok(()),
    }
}

/// `std::path::Path::exists`: asks the file system whether anything is at `path`.
/// The answer depends on the disk, so nothing is claimed of it.
#[verifier::external_body]
fn path_exists(path: &str) -> bool {
    std::path::Path::new(path).exists()
}

/// `std::path::Path::is_file`: asks the file system whether `path` is a regular file.
/// The answer depends on the disk, so nothing is claimed of it.
#[verifier::external_body]
fn path_is_file(path: &str) -> bool {
    std::path::Path::new(path).is_file()
}

/// `std::path::Path::parent`: the path without its last component, if it has one.
/// How a path splits depends on the platform, so nothing is claimed of the result.
#[verifier::external_body]
fn path_parent(path: &str) -> Option<String> {
    std::path::Path::new(path).parent().map(|p| p.to_string_lossy().into_owned())
}

/// Checks that `path` names an existing regular file.
///
/// The file system decides; [`judge_input`] says which answer gives which verdict.
pub fn validate_input_file(path: &str) -> (verdict: Result<(), PathError>)
    ensures
        verdict == input_verdict(true, true) || verdict == input_verdict(true, false)
            || verdict == input_verdict(false, false),
{
    if !path_exists(path) {
        return judge_input(false, false);
    }
    judge_input(true, path_is_file(path))
}

/// Checks that the directory which would hold `path` exists.
///
/// The file system decides; [`judge_output`] says which answer gives which verdict.
pub fn validate_output_path(path: &str) -> (verdict: Result<(), PathError>)
    ensures
        verdict == output_verdict(None) || verdict == output_verdict(Some(true))
            || verdict == output_verdict(Some(false)),
{
    match path_parent(path) {
        Some(parent) => judge_output(Some(path_exists(parent.as_str()))),
        None => judge_output(None),
    }
}

} // verus!
