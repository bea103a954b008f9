//! File-system path queries, answered by `std::path::Path` on path strings.
//!
//! Each query is a trusted wrapper around one `Path` method; its result is
//! named by a spec function of the path's characters. Converting the
//! answer back with `to_string_lossy` is lossless here because every path
//! handed in is already valid UTF-8.
use vstd::prelude::*;

verus! {

/// `Path::file_name` of a path string.
pub uninterp spec fn spec_path_file_name(path: Seq<char>) -> Option<Seq<char>>;

/// `Path::file_stem` of a path string.
pub uninterp spec fn spec_path_file_stem(path: Seq<char>) -> Option<Seq<char>>;

/// `Path::extension` of a path string.
pub uninterp spec fn spec_path_extension(path: Seq<char>) -> Option<Seq<char>>;

/// `Path::parent` of a path string.
pub uninterp spec fn spec_path_parent(path: Seq<char>) -> Option<Seq<char>>;

/// The first of `Path::components` of a path string.
pub uninterp spec fn spec_path_first_component(path: Seq<char>) -> Option<Seq<char>>;

/// Whether two path strings name equal paths (`Path == Path`, which compares
/// components).
pub uninterp spec fn spec_same_path(a: Seq<char>, b: Seq<char>) -> bool;

/// `Path::new(path).file_name()`.
#[verifier::external_body]
pub(crate) fn path_file_name(path: &str) -> (r: Option<String>)
    ensures
        r matches Some(n) ==> spec_path_file_name(path@) == Some(n@),
        r is None ==> spec_path_file_name(path@) is None,
{
    std::path::Path::new(path).file_name().map(|n| n.to_string_lossy().into_owned())
}

/// `Path::new(path).file_stem()`.
#[verifier::external_body]
pub(crate) fn path_file_stem(path: &str) -> (r: Option<String>)
    ensures
        r matches Some(n) ==> spec_path_file_stem(path@) == Some(n@),
        r is None ==> spec_path_file_stem(path@) is None,
{
    std::path::Path::new(path).file_stem().map(|n| n.to_string_lossy().into_owned())
}

/// `Path::new(path).extension()`.
#[verifier::external_body]
pub(crate) fn path_extension(path: &str) -> (r: Option<String>)
    ensures
        r matches Some(n) ==> spec_path_extension(path@) == Some(n@),
        r is None ==> spec_path_extension(path@) is None,
{
    std::path::Path::new(path).extension().map(|n| n.to_string_lossy().into_owned())
}

/// `Path::new(path).parent()`.
#[verifier::external_body]
pub(crate) fn path_parent(path: &str) -> (r: Option<String>)
    ensures
        r matches Some(n) ==> spec_path_parent(path@) == Some(n@),
        r is None ==> spec_path_parent(path@) is None,
{
    std::path::Path::new(path).parent().map(|p| p.to_string_lossy().into_owned())
}

/// `Path::new(path).components().next()`, as the component's own text.
#[verifier::external_body]
pub(crate) fn path_first_component(path: &str) -> (r: Option<String>)
    ensures
        r matches Some(n) ==> spec_path_first_component(path@) == Some(n@),
        r is None ==> spec_path_first_component(path@) is None,
{
    std::path::Path::new(path).components().next().map(
        |c| c.as_os_str().to_string_lossy().into_owned(),
    )
}

/// `Path::new(a) == Path::new(b)`. Path equality is an equivalence, so equal
/// strings always name equal paths.
#[verifier::external_body]
pub(crate) fn same_path(a: &str, b: &str) -> (r: bool)
    ensures
        r == spec_same_path(a@, b@),
        a@ == b@ ==> r,
{
    std::path::Path::new(a) == std::path::Path::new(b)
}

} // verus!
