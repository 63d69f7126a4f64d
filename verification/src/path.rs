//! What the library reads from a path of the file system.

use std::path::PathBuf;
use vstd::prelude::*;

verus! {

/// A path of the standard library. Nothing inside it is visible to a proof: what
/// the library reads from one has a name below.
#[verifier::external_type_specification]
#[verifier::external_body]
pub struct ExPathBuf(PathBuf);

/// The text of a path, where the path is valid Unicode.
pub uninterp spec fn path_text(path: PathBuf) -> Option<Seq<char>>;

/// The last component of a path, where it has one that names a file or a
/// directory.
pub uninterp spec fn path_file_name(path: PathBuf) -> Option<PathBuf>;

/// Calls `std::path::Path::to_str`, which yields the path as text if the path is
/// valid Unicode. The contract says only that the outcome depends on the path
/// alone.
#[verifier::external_body]
pub(crate) fn to_str(path: &PathBuf) -> (text: Option<&str>)
    ensures
        match text {
            Some(text) => path_text(*path) == Some(text@),
            None => path_text(*path) is None,
        },
{
    path.to_str()
}

/// Calls `std::path::Path::file_name`, which yields the final component of the
/// path if there is one, and hands that component back as a path of its own. The
/// contract says only that the outcome depends on the path alone.
#[verifier::external_body]
pub(crate) fn file_name(path: &PathBuf) -> (last: Option<PathBuf>)
    ensures
        last == path_file_name(*path),
{
    path.file_name().map(PathBuf::from)
}

} // verus!
