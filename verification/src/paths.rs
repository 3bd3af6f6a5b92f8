//! File-system paths as `std::path` reads them on the platform at hand. What
//! is absolute, where components end and how paths join differ between
//! platforms; only what holds on every platform is claimed of these results.
use vstd::prelude::*;

verus! {

/// A path separator on some platform.
pub open spec fn is_sep(c: char) -> bool {
    c == '/' || c == '\\'
}

/// A path with no root and no prefix on any platform: empty, or not starting
/// with a separator and without a drive colon as its second character.
pub open spec fn plain_relative(p: Seq<char>) -> bool {
    p.len() == 0 || (!is_sep(p[0]) && !(p.len() >= 2 && p[1] == ':'))
}

/// A path with a Windows verbatim prefix (`\\?\`).
pub open spec fn verbatim(p: Seq<char>) -> bool {
    p.len() >= 4 && p[0] == '\\' && p[1] == '\\' && p[2] == '?' && p[3] == '\\'
}

/// `r` is `rel` joined to `base` where the platform plays no part: for a
/// plainly relative `rel` and a `base` without a verbatim prefix, `base`, a
/// separator where one is needed, then `rel`.
pub open spec fn joined(base: Seq<char>, rel: Seq<char>, r: Seq<char>) -> bool {
    plain_relative(rel) && !verbatim(base) ==> (r == base + rel || r == base + seq!['/'] + rel || r
        == base + seq!['\\'] + rel)
}

/// `Path::is_absolute`. A path with no root and no prefix is relative on
/// every platform; which others are absolute depends on the platform.
#[verifier::external_body]
pub(crate) fn path_is_absolute(path: &str) -> (r: bool)
    ensures
        plain_relative(path@) ==> !r,
{
    std::path::Path::new(path).is_absolute()
}

/// `Path::join`, as text (`to_string_lossy`, lossless on text that came from
/// a `&str`). As `PathBuf::push` documents, a `rel` with no root and no
/// prefix is appended to `base`, with a separator where `base` does not end
/// in one (or is empty or a bare drive); only a verbatim `base` is
/// normalised. Which separator is the platform's.
#[verifier::external_body]
pub(crate) fn path_join(base: &str, rel: &str) -> (r: String)
    ensures
        joined(base@, rel@, r@),
{
    std::path::Path::new(base).join(rel).to_string_lossy().into_owned()
}

/// `Path::parent`, as text (`to_string_lossy`).
#[verifier::external_body]
pub(crate) fn path_parent(path: &str) -> (r: Option<String>) {
    std::path::Path::new(path).parent().map(|p| p.to_string_lossy().into_owned())
}

/// `Path::file_name`, as text (`to_string_lossy`).
#[verifier::external_body]
pub(crate) fn path_file_name(path: &str) -> (r: Option<String>) {
    std::path::Path::new(path).file_name().map(|n| n.to_string_lossy().into_owned())
}

} // verus!
