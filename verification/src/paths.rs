//! File-system paths as text (`std::path`), without touching the disk.
//!
//! Paths are held as strings. Taking a path apart follows the standard
//! library; what it returns is named here as a function of the path text.

use vstd::prelude::*;

use crate::archive::last_extension;

verus! {

broadcast use vstd::string::group_string_axioms;

/// The final component of a path when it is a normal name (`Path::file_name`).
pub uninterp spec fn path_file_name(path: Seq<char>) -> Option<Seq<char>>;

/// The path without its final component (`Path::parent`).
pub uninterp spec fn path_parent(path: Seq<char>) -> Option<Seq<char>>;

/// `base` with `name` appended as a component (`Path::join`).
pub uninterp spec fn path_join(base: Seq<char>, name: Seq<char>) -> Seq<char>;

/// Whether `base` is a prefix of `path`, component by component (`Path::starts_with`).
pub uninterp spec fn path_starts_with(path: Seq<char>, base: Seq<char>) -> bool;

/// The extension of a file name, as `Path::extension` documents it: none
/// when the name has no `.`, or begins with `.` and has no other; otherwise
/// the text after the final `.`.
pub open spec fn extension_of_name(name: Seq<char>) -> Option<Seq<char>> {
    if !name.contains('.') || (name.len() > 0 && name[0] == '.' && !name.drop_first().contains(
        '.',
    )) {
        None
    } else {
        Some(last_extension(name))
    }
}

/// The extension of a path: that of its file name, if it has one.
pub open spec fn extension_of_path(path: Seq<char>) -> Option<Seq<char>> {
    match path_file_name(path) {
        Some(name) => extension_of_name(name),
        None => None,
    }
}

/// The extension of a path (`Path::extension`), as text.
#[verifier::external_body]
pub(crate) fn path_extension(path: &str) -> (r: Option<String>)
    ensures
        match path_file_name(path@) {
            Some(name) => match extension_of_name(name) {
                Some(e) => r matches Some(x) && x@ == e,
                None => r is None,
            },
            None => r is None,
        },
{
    std::path::Path::new(path).extension().map(|e| e.to_string_lossy().into_owned())
}

/// The parent of a path (`Path::parent`), as text.
#[verifier::external_body]
pub(crate) fn parent_of(path: &str) -> (r: Option<String>)
    ensures
        match r {
            Some(p) => path_parent(path@) == Some(p@),
            None => path_parent(path@) is None,
        },
{
    std::path::Path::new(path).parent().map(|p| p.to_string_lossy().into_owned())
}

/// A path with a name appended (`Path::join`), as text.
#[verifier::external_body]
pub(crate) fn join(base: &str, name: &str) -> (r: String)
    ensures
        r@ == path_join(base@, name@),
{
    std::path::Path::new(base).join(name).to_string_lossy().into_owned()
}

/// Whether a path begins with `base`, component by component (`Path::starts_with`).
#[verifier::external_body]
pub(crate) fn starts_with_path(path: &str, base: &str) -> (r: bool)
    ensures
        r == path_starts_with(path@, base@),
{
    std::path::Path::new(path).starts_with(base)
}

} // verus!
