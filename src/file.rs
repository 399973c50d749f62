use vstd::prelude::*;

use crate::error::DeckError;

verus! {

/// A non-empty path with no separator (`/` or `\`), no drive colon and no dot:
/// on every platform it is one file name without an extension.
pub open spec fn is_plain_file_name(path: Seq<char>) -> bool {
    &&& path.len() > 0
    &&& forall|i: int|
        0 <= i < path.len() ==> #[trigger] path[i] != '/' && path[i] != '\\' && path[i] != ':'
            && path[i] != '.'
}

/// Relies on `std::path::Path::file_stem`: the last component of the path
/// without its extension, or `None` when the path ends in no file name. How a
/// path splits into components depends on the platform, so only what holds on
/// every platform is stated: a plain file name is its own stem.
#[verifier::external_body]
fn file_stem_of(path: &str) -> (r: Option<String>)
    ensures
        is_plain_file_name(path@) ==> r is Some,
        is_plain_file_name(path@) ==> r->Some_0@ == path@,
{
    std::path::Path::new(path).file_stem().map(|s| s.to_string_lossy().into_owned())
}

/// The deck name for a path, from the file stem that the path gave: the stem
/// itself, or an error naming the path when it gave none.
pub fn deck_name_of(path: &str, stem: Option<String>) -> (r: Result<String, DeckError>)
    ensures
        stem matches Some(s) ==> (r matches Ok(n) && n@ == s@),
        stem is None ==> (r matches Err(DeckError::InvalidFileName(p)) && p@ == path@),
{
    match stem {
        Some(stem) => Ok(stem),
        None => Err(DeckError::InvalidFileName(path.to_owned())),
    }
}

/// The deck name that a file's path gives: its file name without the extension.
pub fn to_file_name(path: &str) -> (r: Result<String, DeckError>)
    ensures
        r matches Err(e) ==> (e matches DeckError::InvalidFileName(p) && p@ == path@),
        is_plain_file_name(path@) ==> (r matches Ok(n) && n@ == path@),
{
    deck_name_of(path, file_stem_of(path))
}

} // verus!
