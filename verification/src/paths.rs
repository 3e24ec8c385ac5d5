//! Path arithmetic, left to `std::path`.
//!
//! Paths travel through the library as text. What the platform's path rules
//! make of a text is not spelled out here: each question has a name, and the
//! function that asks `std::path` is trusted to return what the name stands
//! for on the platform the library is built for.

use vstd::prelude::*;

verus! {

/// Whether `std::path::Path::is_absolute` holds of the path written as `path`.
pub uninterp spec fn absolute_path(path: Seq<char>) -> bool;

/// The text left of `path` by `std::path::PathBuf::pop`: its parent, or
/// `path` itself where it has none.
pub uninterp spec fn parent_path(path: Seq<char>) -> Seq<char>;

/// The final component of `path` as `std::path::Path::file_name` gives it,
/// if it has one.
pub uninterp spec fn base_name(path: Seq<char>) -> Option<Seq<char>>;

/// The last path that `std::path::Path::ancestors` yields of `path`: what
/// is left of it when no parent remains, which for an absolute path is its
/// root component.
pub uninterp spec fn root_path(path: Seq<char>) -> Option<Seq<char>>;

/// What `std::path::Path::strip_prefix` leaves of `path` when `base` is
/// taken off its front, if `path` begins with `base`.
pub uninterp spec fn path_below(path: Seq<char>, base: Seq<char>) -> Option<Seq<char>>;

/// The text of `directory` after `std::path::PathBuf::push` of `name`.
pub uninterp spec fn joined_path(directory: Seq<char>, name: Seq<char>) -> Seq<char>;

/// Asks `std::path::Path::is_absolute` about `path`. Trusted: the answer is
/// the one `absolute_path` names.
#[verifier::external_body]
pub(crate) fn path_is_absolute(path: &str) -> (absolute: bool)
    ensures
        absolute == absolute_path(path@),
{
    std::path::Path::new(path).is_absolute()
}

/// Applies `std::path::PathBuf::pop` to the path written as `path` and
/// returns the text that is left. Trusted: the text is the one `parent_path`
/// names.
#[verifier::external_body]
pub(crate) fn path_parent(path: &str) -> (parent: String)
    ensures
        parent@ == parent_path(path@),
{
    let mut buffer = std::path::PathBuf::from(path);
    buffer.pop();
    buffer.to_string_lossy().into_owned()
}

/// Asks `std::path::Path::file_name` for the final component of `path`.
/// Trusted: the answer is the one `base_name` names.
#[verifier::external_body]
pub(crate) fn path_base_name(path: &str) -> (name: Option<String>)
    ensures
        name.is_some() == base_name(path@).is_some(),
        name.is_some() ==> name.unwrap()@ == base_name(path@).unwrap(),
{
    match std::path::Path::new(path).file_name() {
        Some(name) => Some(name.to_string_lossy().into_owned()),
        None => None,
    }
}

/// Applies `std::path::PathBuf::push` of `name` to the path written as
/// `directory` and returns the resulting text. Trusted: the text is the one
/// `joined_path` names.
#[verifier::external_body]
pub(crate) fn path_join(directory: &str, name: &str) -> (joined: String)
    ensures
        joined@ == joined_path(directory@, name@),
{
    let mut buffer = std::path::PathBuf::from(directory);
    buffer.push(name);
    buffer.to_string_lossy().into_owned()
}

/// Takes the last path that `std::path::Path::ancestors` yields of `path`.
/// Trusted: the answer is the one `root_path` names.
#[verifier::external_body]
pub(crate) fn path_root(path: &str) -> (root: Option<String>)
    ensures
        root.is_some() == root_path(path@).is_some(),
        root.is_some() ==> root.unwrap()@ == root_path(path@).unwrap(),
{
    match std::path::Path::new(path).ancestors().last() {
        Some(root) => Some(root.to_string_lossy().into_owned()),
        None => None,
    }
}

/// Asks `std::path::Path::strip_prefix` for what `path` holds behind
/// `base`. Trusted: the answer is the one `path_below` names.
#[verifier::external_body]
pub(crate) fn path_strip(path: &str, base: &str) -> (rest: Option<String>)
    ensures
        rest.is_some() == path_below(path@, base@).is_some(),
        rest.is_some() ==> rest.unwrap()@ == path_below(path@, base@).unwrap(),
{
    match std::path::Path::new(path).strip_prefix(base) {
        Ok(rest) => Some(rest.to_string_lossy().into_owned()),
        Err(_) => None,
    }
}

} // verus!
