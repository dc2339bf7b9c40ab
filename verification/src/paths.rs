//! File-system path operations, as std's `Path` performs them on the paths' text.

use vstd::prelude::*;

verus! {

/// The text of `base` joined with `rest` by `std::path::Path::join`. What an absolute
/// `rest` does differs between platforms, so nothing more is said of it.
pub uninterp spec fn path_join(base: Seq<char>, rest: Seq<char>) -> Seq<char>;

/// Whether `std::path::Path::starts_with` finds `base` to be a prefix of `path`,
/// comparing whole path components.
pub uninterp spec fn path_starts_with(path: Seq<char>, base: Seq<char>) -> bool;

/// The last component of `path` as `std::path::Path::file_name` gives it,
/// or `None` when the path ends in `..` or has no final component.
pub uninterp spec fn path_file_name(path: Seq<char>) -> Option<Seq<char>>;

/// The text of `path` rebuilt from its components (`std::path::Path::components`
/// collected into a `PathBuf`). std compares paths by their components, so two
/// paths are equal as paths exactly when these texts are equal: repeated
/// separators, inner `.` components and a trailing separator make no difference.
pub uninterp spec fn path_normal(path: Seq<char>) -> Seq<char>;

/// The extension of the file name of `path` as `std::path::Path::extension` gives it.
pub uninterp spec fn path_extension(path: Seq<char>) -> Option<Seq<char>>;

/// The paths of `paths`, each as the text it is compared by.
pub open spec fn keys_of(paths: Seq<Seq<char>>) -> Seq<Seq<char>> {
    paths.map_values(|p: Seq<char>| path_normal(p))
}

/// `std::path::Path::join` on two paths given as text.
/// The contract names the result `path_join(base, rest)` and claims no more of it.
#[verifier::external_body]
pub(crate) fn join(base: &str, rest: &str) -> (r: String)
    ensures
        r@ == path_join(base@, rest@),
{
    std::path::Path::new(base).join(rest).to_string_lossy().into_owned()
}

/// `std::path::Path::starts_with` on two paths given as text.
/// The contract names the result `path_starts_with(path, base)` and claims no more of it.
#[verifier::external_body]
pub(crate) fn starts_with(path: &str, base: &str) -> (r: bool)
    ensures
        r == path_starts_with(path@, base@),
{
    std::path::Path::new(path).starts_with(base)
}

/// `std::path::Path::file_name` on a path given as text.
/// The contract names the result `path_file_name(path)` and claims no more of it.
#[verifier::external_body]
pub(crate) fn file_name(path: &str) -> (r: Option<String>)
    ensures
        match r {
            Some(name) => path_file_name(path@) == Some(name@),
            None => path_file_name(path@).is_none(),
        },
{
    std::path::Path::new(path).file_name().map(|f| f.to_string_lossy().into_owned())
}

/// `std::path::Path::components`, collected into a `PathBuf`, on a path given as text.
/// The contract names the result `path_normal(path)` and claims no more of it.
#[verifier::external_body]
pub(crate) fn normal(path: &str) -> (r: String)
    ensures
        r@ == path_normal(path@),
{
    std::path::Path::new(path).components().collect::<std::path::PathBuf>().to_string_lossy().into_owned()
}

/// `std::path::Path::extension` on a path given as text.
/// The contract names the result `path_extension(path)` and claims no more of it.
#[verifier::external_body]
pub(crate) fn extension(path: &str) -> (r: Option<String>)
    ensures
        match r {
            Some(ext) => path_extension(path@) == Some(ext@),
            None => path_extension(path@).is_none(),
        },
{
    std::path::Path::new(path).extension().map(|e| e.to_string_lossy().into_owned())
}

} // verus!
