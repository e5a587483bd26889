//! Names of documents.

use vstd::prelude::*;
use crate::paths;
use crate::paths::{file_name, with_extension};
use crate::text;

verus! {

/// `sidecar` is the file that would hold the settings and bookmarks exported for the document at
/// `path`.
pub open spec fn is_sidecar(path: Seq<char>, sidecar: Seq<char>) -> bool {
    &&& paths::with_extension_answer(path, "paperback"@, sidecar)
    &&& paths::has_proper_stem(path) ==> sidecar == paths::stem_of(path) + ".paperback"@
}

/// The file that would hold the settings and bookmarks exported for the document at `path`.
pub fn sidecar_path(path: &str) -> (r: String)
    ensures
        is_sidecar(path@, r@),
{
    proof {
        reveal_strlit("paperback");
        reveal_strlit(".paperback");
        assert(seq!['.'] + "paperback"@ =~= ".paperback"@);
        assert(paths::stem_of(path@) + seq!['.'] + "paperback"@ =~= paths::stem_of(path@)
            + ".paperback"@);
    }
    with_extension(path, "paperback")
}

/// The name of a document: its title, or else its file name, or else its path.
pub open spec fn document_name(
    title: Seq<char>,
    file_name: Option<Seq<char>>,
    path: Seq<char>,
) -> Seq<char> {
    if title.len() > 0 {
        title
    } else {
        match file_name {
            Some(name) => name,
            None => path,
        }
    }
}

/// `name` is a name for the document with this title and path. A bare file name names itself.
pub open spec fn names_document(title: Seq<char>, path: Seq<char>, name: Seq<char>) -> bool {
    &&& title.len() == 0 && paths::is_file_name(path) ==> name == path
    &&& exists|file_name: Option<Seq<char>>| #[trigger]
        paths::file_name_answer(path, file_name) && name == document_name(title, file_name, path)
}

/// The document's title, or else its file name, or else its path.
pub fn choose_name(title: &str, file_name: Option<String>, path: &str) -> (r: String)
    ensures
        r@ == document_name(title@, text::text_view(file_name), path@),
{
    if !title.is_empty() {
        return title.to_owned();
    }
    match file_name {
        Some(name) => name,
        None => path.to_owned(),
    }
}

/// The name of the document at `path`: its title unless that is empty, or else its file name.
pub fn title_or_filename(title: &str, path: &str) -> (r: String)
    ensures
        names_document(title@, path@, r@),
        title@.len() > 0 ==> r@ == title@,
{
    let name = file_name(path);
    proof {
        assert(paths::file_name_answer(path@, text::text_view(name)));
    }
    choose_name(title, name, path)
}

/// The sidecar of a document lies beside it under the same name, with the extension `paperback`.
pub proof fn law_sidecar_has_the_same_name(
    path: &str,
    r: String,
    stem: Seq<char>,
    ending: Seq<char>,
)
    requires
        call_ensures(sidecar_path, (path,), r),
        paths::is_file_name(path@),
    ensures
        path@ == stem + seq!['.'] + ending && stem.len() > 0 && stem != seq!['.']
            && !ending.contains('.') ==> r@ == stem + seq![
            '.',
            'p',
            'a',
            'p',
            'e',
            'r',
            'b',
            'a',
            'c',
            'k',
        ],
        paths::with_extension_answer(path@, "paperback"@, r@),
{
    reveal_strlit(".paperback");
    assert(".paperback"@ =~= seq!['.', 'p', 'a', 'p', 'e', 'r', 'b', 'a', 'c', 'k']);
    if path@ == stem + seq!['.'] + ending && stem.len() > 0 && !ending.contains('.') {
        paths::lemma_last_dot(stem, ending);
        assert(path@.take(stem.len() as int) =~= stem);
    }
}

/// A document goes by its title if it has one, or else by its file name, or else by its path.
pub proof fn law_documents_are_named(
    title: &str,
    file_name: Option<String>,
    path: &str,
    chosen: String,
    r: String,
)
    requires
        call_ensures(choose_name, (title, file_name, path), chosen),
        call_ensures(title_or_filename, (title, path), r),
    ensures
        title@.len() > 0 ==> chosen@ == title@ && r@ == title@,
        title@.len() == 0 ==> (file_name matches Some(name) ==> chosen@ == name@),
        title@.len() == 0 && file_name is None ==> chosen@ == path@,
        title@.len() == 0 && paths::is_file_name(path@) ==> r@ == path@,
        title@.len() == 0 ==> exists|found: Option<Seq<char>>| #[trigger]
            paths::file_name_answer(path@, found) && (match found {
                Some(name) => r@ == name,
                None => r@ == path@,
            }),
{
}

} // verus!
