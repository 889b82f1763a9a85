//! Filesystem path decomposition, as std's `Path` does it.
//!
//! Paths are held as strings. Splitting a path into its parts follows std's
//! component rules (root, `.`, `..`, repeated separators), which this module
//! does not restate: each operation's result is named and taken from std.
use vstd::prelude::*;

verus! {

/// The optional string's characters.
pub open spec fn opt_view(s: Option<String>) -> Option<Seq<char>> {
    match s {
        Some(x) => Some(x@),
        None => None,
    }
}

/// What std's `Path::parent` gives for a path.
pub uninterp spec fn path_parent(p: Seq<char>) -> Option<Seq<char>>;

/// What std's `Path::file_name` gives for a path.
pub uninterp spec fn path_file_name(p: Seq<char>) -> Option<Seq<char>>;

/// What std's `Path::extension` gives for a path.
pub uninterp spec fn path_extension(p: Seq<char>) -> Option<Seq<char>>;

/// What std's `Path::ancestors` yields for a path, in order.
pub uninterp spec fn path_ancestors(p: Seq<char>) -> Seq<Seq<char>>;

/// What std's `Path::starts_with` answers (whole components only).
pub uninterp spec fn path_starts_with(p: Seq<char>, base: Seq<char>) -> bool;

/// How many components std's `Path::components` yields for a path.
pub uninterp spec fn path_component_count(p: Seq<char>) -> nat;

/// The text of a path rebuilt from its components, as std's
/// `components().collect::<PathBuf>()` gives it. std compares paths by their
/// components, so this is the form in which the library compares them.
pub uninterp spec fn path_normal(p: Seq<char>) -> Seq<char>;

/// The file name of a path, or the empty string when it has none.
pub open spec fn file_name_or_empty(p: Seq<char>) -> Seq<char> {
    match path_file_name(p) {
        Some(n) => n,
        None => Seq::empty(),
    }
}

/// The file name of a path as text, empty when the path has none.
pub fn file_name_text(p: &str) -> (r: String)
    ensures
        r@ == file_name_or_empty(p@),
{
    match file_name_of(p) {
        Some(n) => n,
        None => String::new(),
    }
}

/// std `Path::parent`: the path without its last component, `None` for a root or
/// an empty path. The contract names the result and states what the documentation
/// of the two methods gives: a path with a file name ends in a normal component, so
/// it does not end in a root or prefix and is not empty, and it has a parent.
#[verifier::external_body]
pub(crate) fn parent_of(p: &str) -> (r: Option<String>)
    ensures
        opt_view(r) == path_parent(p@),
        path_file_name(p@) is Some ==> r is Some,
{
    std::path::Path::new(p).parent().map(|q| q.to_string_lossy().into_owned())
}

/// std `Path::file_name`: the last component when it is a normal one. The
/// contract names the result.
#[verifier::external_body]
pub(crate) fn file_name_of(p: &str) -> (r: Option<String>)
    ensures
        opt_view(r) == path_file_name(p@),
{
    std::path::Path::new(p).file_name().map(|n| n.to_string_lossy().into_owned())
}

/// std `Path::extension`: the part of the file name after its last dot. The
/// contract names the result.
#[verifier::external_body]
pub(crate) fn extension_of(p: &str) -> (r: Option<String>)
    ensures
        opt_view(r) == path_extension(p@),
{
    std::path::Path::new(p).extension().map(|e| e.to_string_lossy().into_owned())
}

/// std `Path::ancestors`: the path itself, then each parent in turn. The contract
/// names the sequence and states what std's documentation promises: the first
/// element is the path itself, so there is at least one.
#[verifier::external_body]
pub(crate) fn ancestors_of(p: &str) -> (r: Vec<String>)
    ensures
        r@.len() == path_ancestors(p@).len(),
        forall|i: int| 0 <= i < r@.len() ==> #[trigger] r@[i]@ == path_ancestors(p@)[i],
        r@.len() >= 1,
        r@[0]@ == p@,
{
    std::path::Path::new(p).ancestors().map(|a| a.to_string_lossy().into_owned()).collect()
}

/// std `Path::starts_with`: whether `base` is a prefix of `p`, component by
/// component. The contract names the result.
#[verifier::external_body]
pub(crate) fn starts_with_path(p: &str, base: &str) -> (r: bool)
    ensures
        r == path_starts_with(p@, base@),
{
    std::path::Path::new(p).starts_with(std::path::Path::new(base))
}

/// std `Path::components`, collected back into a `PathBuf`: the path with
/// repeated separators, inner `.` components and a trailing separator dropped. The
/// contract names the result.
#[verifier::external_body]
pub(crate) fn normal_form(p: &str) -> (r: String)
    ensures
        r@ == path_normal(p@),
{
    std::path::Path::new(p).components().collect::<std::path::PathBuf>().to_string_lossy().into_owned()
}

/// std `Path::components` counted. The contract names the result.
#[verifier::external_body]
pub(crate) fn component_count(p: &str) -> (r: usize)
    ensures
        r == path_component_count(p@),
{
    std::path::Path::new(p).components().count()
}

} // verus!
