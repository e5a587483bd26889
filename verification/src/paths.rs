//! The boundary to the platform's paths. Which characters separate the components of a path depends on
//! the platform, so what is stated here is stated of paths that mean the same everywhere.

use vstd::prelude::*;
use crate::text;

verus! {

/// `path` is a bare file name on every platform.
pub open spec fn is_file_name(path: Seq<char>) -> bool {
    &&& path.len() > 0
    &&& forall|i: int|
        0 <= i < path.len() ==> (#[trigger] path[i]) != '/' && path[i] != '\\' && path[i] != ':'
    &&& path != seq!['.']
    &&& path != seq!['.', '.']
}

/// A slash or backslash.
pub open spec fn is_separator(c: char) -> bool {
    c == '/' || c == '\\'
}

/// `path` starts with two separators, as the name of a network share or a device does on some
/// platforms.
pub open spec fn is_share(path: Seq<char>) -> bool {
    path.len() >= 2 && is_separator(path[0]) && is_separator(path[1])
}

/// The part of `path` behind its last slash, backslash or colon.
pub open spec fn last_name(path: Seq<char>) -> Seq<char> {
    path.skip(text::last_of(path, seq!['/', '\\', ':']) + 1)
}

/// The last part of `path`, whatever separates its parts, ends in an extension. The file name on every
/// platform ends in that part, so its last dot is the last dot of that part.
pub open spec fn ends_in_extension(path: Seq<char>) -> bool {
    &&& !is_share(path)
    &&& extension_of(last_name(path)) is Some
    &&& last_name(path) != seq!['.', '.']
}

/// `path` is a file name whose extension can be replaced: its stem is more than a dot.
pub open spec fn has_proper_stem(path: Seq<char>) -> bool {
    is_file_name(path) && stem_of(path) != seq!['.']
}

/// The part of a file name behind its last dot, unless that dot is its first character.
pub open spec fn extension_of(name: Seq<char>) -> Option<Seq<char>> {
    let dot = text::last_of(name, seq!['.']);
    if dot > 0 {
        Some(name.skip(dot + 1))
    } else {
        None
    }
}

/// The part of a file name in front of its last dot, or all of it if it has no extension.
pub open spec fn stem_of(name: Seq<char>) -> Seq<char> {
    let dot = text::last_of(name, seq!['.']);
    if dot > 0 {
        name.take(dot)
    } else {
        name
    }
}

/// Some call of `std::path::Path::file_name` on `path` gave `name`.
pub uninterp spec fn file_name_answer(path: Seq<char>, name: Option<Seq<char>>) -> bool;

/// Calls `std::path::Path::file_name`, which gives the final component of a path if that names a
/// file. A bare file name is its own final component.
#[verifier::external_body]
pub(crate) fn file_name(path: &str) -> (name: Option<String>)
    ensures
        file_name_answer(path@, text::text_view(name)),
        is_file_name(path@) ==> text::text_view(name) == Some(path@),
{
    std::path::Path::new(path).file_name().and_then(|name| name.to_str()).map(str::to_string)
}

/// Some call of `std::path::Path::file_stem` on `path` gave `stem`.
pub uninterp spec fn file_stem_answer(path: Seq<char>, stem: Option<Seq<char>>) -> bool;

/// Calls `std::path::Path::file_stem`, which gives the file name of a path, if it has one, up to its
/// last dot, or whole where it has no dot but the first character.
#[verifier::external_body]
pub(crate) fn file_stem(path: &str) -> (stem: Option<String>)
    ensures
        file_stem_answer(path@, text::text_view(stem)),
        is_file_name(path@) ==> text::text_view(stem) == Some(stem_of(path@)),
{
    std::path::Path::new(path).file_stem().and_then(|stem| stem.to_str()).map(str::to_string)
}

/// Some call of `std::path::Path::extension` on `path` gave `extension`.
pub uninterp spec fn extension_answer(path: Seq<char>, extension: Option<Seq<char>>) -> bool;

/// Calls `std::path::Path::extension`, which gives the part of a path's file name behind its last
/// dot, if it has a file name with a dot that is not its first character. What comes back holds no dot.
#[verifier::external_body]
pub(crate) fn extension(path: &str) -> (extension: Option<String>)
    ensures
        extension_answer(path@, text::text_view(extension)),
        is_file_name(path@) ==> text::text_view(extension) == extension_of(path@),
        ends_in_extension(path@) ==> text::text_view(extension) == extension_of(last_name(path@)),
        extension matches Some(found) ==> !found@.contains('.'),
{
    std::path::Path::new(path).extension().and_then(|found| found.to_str()).map(str::to_string)
}

/// Some call of `std::path::Path::with_extension` on `path` and `extension` gave `other`.
pub uninterp spec fn with_extension_answer(
    path: Seq<char>,
    extension: Seq<char>,
    other: Seq<char>,
) -> bool;

/// Calls `std::path::Path::with_extension`, which gives the path with its extension replaced, or with
/// one added where it has none. Of a file name whose stem is a single dot nothing is claimed.
#[verifier::external_body]
pub(crate) fn with_extension(path: &str, extension: &str) -> (other: String)
    requires
        extension@.len() > 0,
        !extension@.contains('/'),
        !extension@.contains('\\'),
    ensures
        with_extension_answer(path@, extension@, other@),
        has_proper_stem(path@) ==> other@ == stem_of(path@) + seq!['.'] + extension@,
{
    std::path::Path::new(path).with_extension(extension).to_string_lossy().to_string()
}

/// The last dot of a name made of a stem, a dot and an ending without dots.
pub proof fn lemma_last_dot(stem: Seq<char>, ending: Seq<char>)
    requires
        !ending.contains('.'),
    ensures
        text::last_of(stem + seq!['.'] + ending, seq!['.']) == stem.len(),
{
    let whole = stem + seq!['.'] + ending;
    let set = seq!['.'];
    text::law_last_position(whole, set);
    let at = text::last_of(whole, set);
    assert(set[0] == '.');
    assert(whole[stem.len() as int] == '.');
    assert(set.contains(whole[stem.len() as int]));
    if at > stem.len() {
        assert(ending[at - stem.len() - 1] == whole[at]);
        assert(ending.contains('.'));
    }
}

/// A name ends in an extension if it has a dot behind its first character: what stands behind the last dot
/// is the extension, and what stands in front of it is the stem. Any other name is its own stem.
pub proof fn law_name_is_stem_and_extension(
    stem: Seq<char>,
    ending: Seq<char>,
    plain: Seq<char>,
)
    requires
        stem.len() > 0,
        !ending.contains('.'),
        forall|i: int| 0 < i < plain.len() ==> #[trigger] plain[i] != '.',
    ensures
        extension_of(stem + seq!['.'] + ending) == Some(ending),
        stem_of(stem + seq!['.'] + ending) == stem,
        extension_of(plain) is None,
        stem_of(plain) == plain,
{
    let whole = stem + seq!['.'] + ending;
    lemma_last_dot(stem, ending);
    assert(whole.skip(stem.len() as int + 1) =~= ending);
    assert(whole.take(stem.len() as int) =~= stem);
    text::law_last_position(plain, seq!['.']);
    let at = text::last_of(plain, seq!['.']);
    if at > 0 {
        assert(plain[at] == '.');
    }
}

} // verus!
