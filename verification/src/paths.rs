//! File paths, through `std::path`.
//!
//! What `std::path` computes (components, separators, extensions) is left
//! to it; each function here makes one call and names its result.  The
//! names stand for `std::path` on the platform the library is built for.
use vstd::prelude::*;

verus! {

/// The parent of a path, as `Path::parent` gives it.
pub uninterp spec fn path_parent(p: Seq<char>) -> Option<Seq<char>>;

/// A path with another appended, as `Path::join` gives it.
pub uninterp spec fn path_join(base: Seq<char>, part: Seq<char>) -> Seq<char>;

/// A path without its last component, as `PathBuf::pop` leaves it.
pub uninterp spec fn path_pop(p: Seq<char>) -> Seq<char>;

/// Whether a path's file name has an extension, as `Path::extension` tells.
pub uninterp spec fn path_has_extension(p: Seq<char>) -> bool;

/// A path with its extension set, as `PathBuf::set_extension` leaves it.
pub uninterp spec fn path_set_extension(p: Seq<char>, ext: Seq<char>) -> Seq<char>;

/// A path relative to a base, as `Path::strip_prefix` gives it.
pub uninterp spec fn path_strip_prefix(p: Seq<char>, base: Seq<char>) -> Option<Seq<char>>;

/// A path without the extension of its file name, as
/// `Path::with_extension("")` gives it.
pub uninterp spec fn path_without_extension(p: Seq<char>) -> Seq<char>;

/// `Path::parent`: the path without its last component; none for a root
/// or an empty path.
#[verifier::external_body]
pub fn parent_of(p: &str) -> (r: Option<String>)
    ensures
        match r {
            Some(x) => path_parent(p@) == Some(x@),
            None => path_parent(p@) is None,
        },
{
    std::path::Path::new(p).parent().map(|x| x.to_string_lossy().into_owned())
}

/// `Path::join`: `part` appended to `base` with a separator (or `part`
/// alone where it is absolute).
#[verifier::external_body]
pub fn join_path(base: &str, part: &str) -> (r: String)
    ensures
        r@ == path_join(base@, part@),
{
    std::path::Path::new(base).join(part).to_string_lossy().into_owned()
}

/// `PathBuf::pop`: the path without its last component (unchanged where
/// there is none).
#[verifier::external_body]
pub fn pop_path(p: &str) -> (r: String)
    ensures
        r@ == path_pop(p@),
{
    let mut b = std::path::PathBuf::from(p);
    b.pop();
    b.to_string_lossy().into_owned()
}

/// `Path::extension`: whether the file name has an extension.
#[verifier::external_body]
pub fn has_extension(p: &str) -> (r: bool)
    ensures
        r == path_has_extension(p@),
{
    std::path::Path::new(p).extension().is_some()
}

/// `PathBuf::set_extension`: the path with the extension of its file name
/// replaced or added.  It panics on an extension that holds a path
/// separator, which `requires` leaves out.
#[verifier::external_body]
pub fn set_extension(p: &str, ext: &str) -> (r: String)
    requires
        forall|i: int| 0 <= i < ext@.len() ==> #[trigger] ext@[i] != '/' && ext@[i] != '\\',
    ensures
        r@ == path_set_extension(p@, ext@),
{
    let mut b = std::path::PathBuf::from(p);
    b.set_extension(ext);
    b.to_string_lossy().into_owned()
}

/// `Path::strip_prefix`: the path relative to `base`, if `base` is a
/// prefix of it component by component.
#[verifier::external_body]
pub fn strip_prefix(p: &str, base: &str) -> (r: Option<String>)
    ensures
        match r {
            Some(x) => path_strip_prefix(p@, base@) == Some(x@),
            None => path_strip_prefix(p@, base@) is None,
        },
{
    std::path::Path::new(p).strip_prefix(base).ok().map(|x| x.to_string_lossy().into_owned())
}

/// `Path::with_extension("")`: the path without the extension of its file
/// name.
#[verifier::external_body]
pub fn without_extension(p: &str) -> (r: String)
    ensures
        r@ == path_without_extension(p@),
{
    std::path::Path::new(p).with_extension("").to_string_lossy().into_owned()
}

} // verus!
