//! File-system paths, held as text, and the std path operations the library
//! relies on. Each operation is the std one; its result is named here, since
//! std's component rules take pages to state.
use vstd::prelude::*;

verus! {

/// What `Path::file_name` gives for the path with text `path`.
pub uninterp spec fn std_file_name(path: Seq<char>) -> Option<Seq<char>>;

/// What `Path::parent` gives for the path with text `path`.
pub uninterp spec fn std_parent(path: Seq<char>) -> Option<Seq<char>>;

/// What `Path::join` gives when `part` is joined onto `base`.
pub uninterp spec fn std_join(base: Seq<char>, part: Seq<char>) -> Seq<char>;

/// What `Path::extension` gives for the path with text `path`.
pub uninterp spec fn std_extension(path: Seq<char>) -> Option<Seq<char>>;

/// What `Path::file_stem` gives for the path with text `path`.
pub uninterp spec fn std_file_stem(path: Seq<char>) -> Option<Seq<char>>;

/// What `str::to_lowercase` gives for the text `s`.
pub uninterp spec fn std_lowercase(s: Seq<char>) -> Seq<char>;

/// `Path::file_name` of `path`: the final component when it is a normal one.
/// Claimed: the result is `std_file_name` of the path's text (a path made
/// from a `&str` is valid UTF-8, so the lossy conversion changes nothing).
#[verifier::external_body]
pub(crate) fn path_file_name(path: &str) -> (name: Option<String>)
    ensures
        name.deep_view() == std_file_name(path@),
{
    match std::path::Path::new(path).file_name() {
        Some(n) => Some(n.to_string_lossy().into_owned()),
        None => None,
    }
}

/// `Path::parent` of `path`: the path without its final component.
/// Claimed: the result is `std_parent` of the path's text.
#[verifier::external_body]
pub(crate) fn path_parent(path: &str) -> (parent: Option<String>)
    ensures
        parent.deep_view() == std_parent(path@),
{
    match std::path::Path::new(path).parent() {
        Some(p) => Some(p.to_string_lossy().into_owned()),
        None => None,
    }
}

/// `Path::join` of `base` and `part`.
/// Claimed: the result is `std_join` of the two texts.
#[verifier::external_body]
pub(crate) fn path_join(base: &str, part: &str) -> (joined: String)
    ensures
        joined@ == std_join(base@, part@),
{
    std::path::Path::new(base).join(part).to_string_lossy().into_owned()
}

/// `Path::extension` of `path`: the text after the final `.` of the file name.
/// Claimed: the result is `std_extension` of the path's text.
#[verifier::external_body]
pub(crate) fn path_extension(path: &str) -> (ext: Option<String>)
    ensures
        ext.deep_view() == std_extension(path@),
{
    match std::path::Path::new(path).extension() {
        Some(e) => Some(e.to_string_lossy().into_owned()),
        None => None,
    }
}

/// `Path::file_stem` of `path`: the file name without its extension.
/// Claimed: the result is `std_file_stem` of the path's text.
#[verifier::external_body]
pub(crate) fn path_file_stem(path: &str) -> (stem: Option<String>)
    ensures
        stem.deep_view() == std_file_stem(path@),
{
    match std::path::Path::new(path).file_stem() {
        Some(s) => Some(s.to_string_lossy().into_owned()),
        None => None,
    }
}

/// `str::to_lowercase` of `s` (full Unicode lower-casing).
/// Claimed: the result is `std_lowercase` of the text.
#[verifier::external_body]
pub(crate) fn lowercase(s: &str) -> (lower: String)
    ensures
        lower@ == std_lowercase(s@),
{
    s.to_lowercase()
}

/// Joins each of `parts` in turn onto `base`.
pub open spec fn join_all(base: Seq<char>, parts: Seq<Seq<char>>) -> Seq<char>
    decreases parts.len(),
{
    if parts.len() == 0 {
        base
    } else {
        std_join(join_all(base, parts.drop_last()), parts.last())
    }
}

/// Joins each of `parts` in turn onto `base`, as repeated `Path::join`.
pub fn path_join_all(base: &str, parts: &Vec<String>) -> (joined: String)
    ensures
        joined@ == join_all(base@, parts.deep_view()),
{
    let mut joined = base.to_owned();
    let mut i: usize = 0;
    while i < parts.len()
        invariant
            i <= parts@.len(),
            joined@ == join_all(base@, parts.deep_view().take(i as int)),
        decreases parts@.len() - i,
    {
        assert(parts.deep_view().take(i + 1).drop_last() =~= parts.deep_view().take(i as int));
        joined = path_join(joined.as_str(), parts[i].as_str());
        i = i + 1;
    }
    assert(parts.deep_view().take(parts@.len() as int) =~= parts.deep_view());
    joined
}

} // verus!
