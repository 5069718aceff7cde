//! Path operations of the standard library, on paths held as text.
use vstd::prelude::*;
use std::path::Path;

verus! {

/// The last component of a path, as `Path::file_name` finds it.
pub uninterp spec fn file_name_of(path: Seq<char>) -> Option<Seq<char>>;

/// What remains of `path` after the leading components of `base`, as
/// `Path::strip_prefix` finds it (`None` where `base` is not a prefix).
pub uninterp spec fn stripped_prefix(path: Seq<char>, base: Seq<char>) -> Option<Seq<char>>;

/// Whether two paths have the same components, as `Path`'s `==` decides.
pub uninterp spec fn same_path(a: Seq<char>, b: Seq<char>) -> bool;

/// `base` with `rel` adjoined, as `Path::join` forms it.
pub uninterp spec fn joined_path(base: Seq<char>, rel: Seq<char>) -> Seq<char>;

/// `Path::join` on paths given as text, the result read back losslessly as
/// text. Trusted to return the named joined path.
#[verifier::external_body]
pub(crate) fn path_join(base: &str, rel: &str) -> (r: String)
    ensures
        r@ == joined_path(base@, rel@),
{
    Path::new(base).join(rel).to_string_lossy().into_owned()
}

/// `Path::file_name` on a path given as text, the name read back losslessly
/// as text. Trusted to return the named last component of `path`.
#[verifier::external_body]
pub(crate) fn path_file_name(path: &str) -> (r: Option<String>)
    ensures
        match r {
            Some(f) => file_name_of(path@) == Some(f@),
            None => file_name_of(path@) is None,
        },
{
    match Path::new(path).file_name() {
        Some(f) => Some(f.to_string_lossy().into_owned()),
        None => None,
    }
}

/// `Path::strip_prefix` on paths given as text, the remainder read back
/// losslessly as text. Trusted to return the named remainder of `path` after
/// `base`, and nothing exactly where `strip_prefix` fails; a path stripped of
/// itself leaves the empty path, as the documentation's example shows.
#[verifier::external_body]
pub(crate) fn path_strip_prefix(path: &str, base: &str) -> (r: Option<String>)
    ensures
        match r {
            Some(rest) => stripped_prefix(path@, base@) == Some(rest@),
            None => stripped_prefix(path@, base@) is None,
        },
        path@ == base@ ==> r is Some && r.unwrap()@.len() == 0,
{
    match Path::new(path).strip_prefix(base) {
        Ok(rest) => Some(rest.to_string_lossy().into_owned()),
        Err(_) => None,
    }
}

/// `==` on `Path` (`<Path as PartialEq>::eq`). Trusted to return the named
/// comparison of the two paths' components, which holds of a path and itself
/// (`Path` is `Eq`, whose documentation requires reflexivity).
#[verifier::external_body]
pub(crate) fn paths_equal(a: &str, b: &str) -> (r: bool)
    ensures
        r == same_path(a@, b@),
        a@ == b@ ==> r,
{
    Path::new(a) == Path::new(b)
}

} // verus!
