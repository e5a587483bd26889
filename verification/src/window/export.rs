//! Exporting a document, showing it in the web view, and showing its source.

use vstd::prelude::*;
use crate::locale;
use crate::locale::t;
use crate::paths;
use crate::paths::{file_name, file_stem};
use crate::text;
use crate::text::{replace_all, to_chars, trim_string};
use crate::window::opening::OpenRequest;

verus! {

/// What a document can be exported to.
#[derive(Debug, Clone, Copy, PartialEq, Eq, Structural)]
pub enum ExportKind {
    PlainText,
    Html,
    Markdown,
    /// The notes and bookmarks.
    DocumentData,
}

impl ExportKind {
    /// The extension of the file.
    pub open spec fn extension_text(self) -> Seq<char> {
        match self {
            ExportKind::PlainText => "txt"@,
            ExportKind::Html => "html"@,
            ExportKind::Markdown => "md"@,
            ExportKind::DocumentData => "paperback"@,
        }
    }

    /// The extension of the file.
    pub fn extension(&self) -> (r: &'static str)
        ensures
            r@ == self.extension_text(),
    {
        match self {
            ExportKind::PlainText => "txt",
            ExportKind::Html => "html",
            ExportKind::Markdown => "md",
            ExportKind::DocumentData => "paperback",
        }
    }

    /// The title of the dialog.
    pub open spec fn title_text(self) -> Seq<char> {
        match self {
            ExportKind::PlainText => "Export document to plain text"@,
            ExportKind::Html => "Export document to HTML"@,
            ExportKind::Markdown => "Export document to Markdown"@,
            ExportKind::DocumentData => "Export notes and bookmarks"@,
        }
    }

    /// The title of the dialog.
    pub fn title(&self) -> (r: String)
        ensures
            locale::translation_answer(self.title_text(), r@),
    {
        match self {
            ExportKind::PlainText => t("Export document to plain text"),
            ExportKind::Html => t("Export document to HTML"),
            ExportKind::Markdown => t("Export document to Markdown"),
            ExportKind::DocumentData => t("Export notes and bookmarks"),
        }
    }

    /// The files that the dialog shows.
    pub open spec fn wildcard_text(self) -> Seq<char> {
        match self {
            ExportKind::PlainText => "Plain text files (*.txt)|*.txt|All files (*.*)|*.*"@,
            ExportKind::Html => "HTML files (*.html)|*.html|All files (*.*)|*.*"@,
            ExportKind::Markdown => "Markdown files (*.md)|*.md|All files (*.*)|*.*"@,
            ExportKind::DocumentData => "Paperback files (*.paperback)|*.paperback"@,
        }
    }

    /// The files that the dialog shows.
    pub fn wildcard(&self) -> (r: String)
        ensures
            locale::translation_answer(self.wildcard_text(), r@),
    {
        match self {
            ExportKind::PlainText => t("Plain text files (*.txt)|*.txt|All files (*.*)|*.*"),
            ExportKind::Html => t("HTML files (*.html)|*.html|All files (*.*)|*.*"),
            ExportKind::Markdown => t("Markdown files (*.md)|*.md|All files (*.*)|*.*"),
            ExportKind::DocumentData => t("Paperback files (*.paperback)|*.paperback"),
        }
    }

    /// The file name made of `stem` and the extension.
    pub fn file_for(&self, stem: &str) -> (r: String)
        ensures
            r@ == stem@ + seq!['.'] + self.extension_text(),
    {
        let mut name = stem.to_owned();
        name.push('.');
        name.append(self.extension());
        name
    }
}

/// `stem` names the document at `path` in another file name: by the stem of its own, or else by a word
/// of some language.
pub open spec fn is_default_stem(path: Seq<char>, stem: Seq<char>) -> bool {
    ||| paths::file_stem_answer(path, Some(stem))
    ||| paths::file_stem_answer(path, None) && locale::translation_answer("document"@, stem)
}

/// The file name that the dialog for exporting the document at `path` starts with.
pub fn default_file(path: &str, kind: ExportKind) -> (r: String)
    ensures
        exists|stem: Seq<char>| #[trigger]
            is_default_stem(path@, stem) && r@ == stem + seq!['.'] + kind.extension_text(),
        paths::is_file_name(path@) ==> r@ == paths::stem_of(path@) + seq!['.']
            + kind.extension_text(),
{
    let stem = match file_stem(path) {
        Some(found) => found,
        None => t("document"),
    };
    proof {
        assert(is_default_stem(path@, stem@));
    }
    kind.file_for(stem.as_str())
}

/// The address of a file, and of a place in it, for the web view.
pub open spec fn file_url(path: Seq<char>, fragment: Option<Seq<char>>) -> Seq<char> {
    let address = "file:///"@ + text::replaced(path, "\\"@, "/"@);
    match fragment {
        Some(place) => address + seq!['#'] + place,
        None => address,
    }
}

/// The address of a file for the web view: with the place in the file that belongs to the target, or
/// else the one that belongs to the caret.
pub fn web_view_url(
    path: &str,
    target_fragment: Option<String>,
    caret_fragment: Option<String>,
) -> (r: String)
    ensures
        r@ == file_url(
            path@,
            match target_fragment {
                Some(place) => Some(place@),
                None => text::text_view(caret_fragment),
            },
        ),
{
    proof {
        reveal_strlit("\\");
    }
    let mut url = "file:///".to_owned();
    url.append(replace_all(path, "\\", "/").as_str());
    let fragment = match target_fragment {
        Some(place) => Some(place),
        None => caret_fragment,
    };
    if let Some(place) = fragment {
        url.push('#');
        url.append(place.as_str());
    }
    url
}

/// The lower-case form of an ASCII letter; any other character itself.
pub open spec fn ascii_lower(c: char) -> char {
    if 'A' <= c <= 'Z' {
        (c as u32 + 32) as char
    } else {
        c
    }
}

/// The lower-case form of an ASCII letter; any other character itself.
fn to_ascii_lower(c: char) -> (r: char)
    ensures
        r == ascii_lower(c),
{
    if 'A' <= c && c <= 'Z' {
        ((c as u8) + 32) as char
    } else {
        c
    }
}

/// `s` starts with `prefix`, which is in lower case, whatever the case of the letters in `s`.
pub open spec fn starts_ignoring_case(s: Seq<char>, prefix: Seq<char>) -> bool {
    &&& prefix.len() <= s.len()
    &&& forall|i: int| 0 <= i < prefix.len() ==> ascii_lower(s[i]) == #[trigger] prefix[i]
}

/// Whether `s` starts with `prefix`, which is in lower case, whatever the case of the letters in `s`.
fn has_prefix_ignoring_case(s: &Vec<char>, prefix: &str) -> (r: bool)
    ensures
        r == starts_ignoring_case(s@, prefix@),
{
    let pattern = to_chars(prefix);
    if pattern.len() > s.len() {
        return false;
    }
    let mut i: usize = 0;
    while i < pattern.len()
        invariant
            i <= pattern.len() <= s.len(),
            pattern@ == prefix@,
            forall|j: int| 0 <= j < i ==> ascii_lower(s@[j]) == #[trigger] prefix@[j],
        decreases pattern.len() - i,
    {
        if to_ascii_lower(s[i]) != pattern[i] {
            proof {
                assert(prefix@[i as int] == pattern@[i as int]);
            }
            return false;
        }
        i += 1;
    }
    true
}

/// The address leads out of the document: to the web or to a mail program.
pub open spec fn is_external(url: Seq<char>) -> bool {
    ||| starts_ignoring_case(url, "http://"@)
    ||| starts_ignoring_case(url, "https://"@)
    ||| starts_ignoring_case(url, "mailto:"@)
}

/// Whether a link in the web view is opened by the system's browser rather than by the web view.
pub fn opens_in_browser(url: &str) -> (r: bool)
    ensures
        r == is_external(url@),
{
    let chars = to_chars(url);
    has_prefix_ignoring_case(&chars, "http://") || has_prefix_ignoring_case(&chars, "https://")
        || has_prefix_ignoring_case(&chars, "mailto:")
}

/// What asking for the source of a document gave.
#[derive(Debug, Clone, Copy, PartialEq, Eq, Structural)]
pub enum SourceOutcome {
    /// The format of the document has no source.
    Unavailable,
    /// The source could not be loaded.
    Failed,
}

impl SourceOutcome {
    /// The error message.
    pub open spec fn message_text(self) -> Seq<char> {
        match self {
            SourceOutcome::Unavailable => "Source view is not available for this document format."@,
            SourceOutcome::Failed => "Could not load the document source."@,
        }
    }

    /// The error message, in the language that is active.
    pub fn message(&self) -> (r: String)
        ensures
            locale::translation_answer(self.message_text(), r@),
    {
        match self {
            SourceOutcome::Unavailable => t(
                "Source view is not available for this document format.",
            ),
            SourceOutcome::Failed => t("Could not load the document source."),
        }
    }
}

/// `name` names the document at `path`: by its file name, or else by a word of some language. A bare file
/// name names itself.
pub open spec fn is_source_name(path: Seq<char>, name: Seq<char>) -> bool {
    &&& paths::is_file_name(path) ==> name == path
    &&& {
        ||| paths::file_name_answer(path, Some(name))
        ||| paths::file_name_answer(path, None) && locale::translation_answer("document"@, name)
    }
}

/// `title` is a title for the tab that shows the source of the document at `path`.
pub open spec fn is_source_title(path: Seq<char>, title: Seq<char>) -> bool {
    exists|prefix: Seq<char>, name: Seq<char>|
        #![trigger locale::translation_answer("Source:"@, prefix), is_source_name(path, name)]
        locale::translation_answer("Source:"@, prefix) && is_source_name(path, name) && title
            == prefix + seq![' '] + name
}

/// The title of the tab that shows the source of the document at `path`.
pub fn source_title(path: &str) -> (r: String)
    ensures
        is_source_title(path@, r@),
{
    let name = match file_name(path) {
        Some(found) => found,
        None => t("document"),
    };
    let prefix = t("Source:");
    let ghost words = prefix@;
    let mut title = prefix;
    title.push(' ');
    title.append(name.as_str());
    proof {
        assert(is_source_name(path@, name@));
        assert(locale::translation_answer("Source:"@, words));
        assert(title@ =~= words + seq![' '] + name@);
    }
    title
}

/// The source of a document, written to a file, and where the caret stands in it.
pub struct SourceView {
    pub path: String,
    pub caret: i64,
}

/// What showing the source of a document leads to.
pub enum SourceStep {
    /// Open the file with the source.
    Open { path: String, request: OpenRequest },
    /// Tell the user why there is no source.
    Report(SourceOutcome),
}

/// Shows the source of the document at `path`. `source` is `None` if the format of the document has
/// no source, and holds `None` if the source could not be loaded.
pub fn view_source(path: &str, source: Option<Option<SourceView>>) -> (r: SourceStep)
    ensures
        match source {
            None => r == SourceStep::Report(SourceOutcome::Unavailable),
            Some(None) => r == SourceStep::Report(SourceOutcome::Failed),
            Some(Some(view)) => match r {
                SourceStep::Open { path: file, request } => {
                    &&& file == view.path
                    &&& !request.track
                    &&& !request.is_restore
                    &&& request.title_override matches Some(title) && is_source_title(path@, title@)
                    &&& request.initial_caret == Some(view.caret)
                },
                SourceStep::Report(_) => false,
            },
        },
{
    match source {
        None => SourceStep::Report(SourceOutcome::Unavailable),
        Some(None) => SourceStep::Report(SourceOutcome::Failed),
        Some(Some(view)) => SourceStep::Open {
            path: view.path,
            request: OpenRequest::synthetic(source_title(path), view.caret),
        },
    }
}

/// Whether the words of the selection are counted, rather than those of the whole document: it holds
/// something else than white space.
pub fn counts_selection(selection: &str) -> (r: bool)
    ensures
        r == (text::trimmed(selection@, text::Trim::Space).len() > 0),
{
    !trim_string(selection).as_str().is_empty()
}

/// Each kind of export has its own extension, and its dialog its own title and its own files.
pub proof fn law_kinds_of_export(
    kind: ExportKind,
    extension: &'static str,
    title: String,
    wildcard: String,
    stem: &str,
    file: String,
)
    requires
        call_ensures(ExportKind::extension, (&kind,), extension),
        call_ensures(ExportKind::title, (&kind,), title),
        call_ensures(ExportKind::wildcard, (&kind,), wildcard),
        call_ensures(ExportKind::file_for, (&kind, stem), file),
    ensures
        kind == ExportKind::PlainText ==> extension@ == "txt"@ && locale::translation_answer(
            "Export document to plain text"@,
            title@,
        ) && locale::translation_answer(
            "Plain text files (*.txt)|*.txt|All files (*.*)|*.*"@,
            wildcard@,
        ),
        kind == ExportKind::Html ==> extension@ == "html"@ && locale::translation_answer(
            "Export document to HTML"@,
            title@,
        ) && locale::translation_answer(
            "HTML files (*.html)|*.html|All files (*.*)|*.*"@,
            wildcard@,
        ),
        kind == ExportKind::Markdown ==> extension@ == "md"@ && locale::translation_answer(
            "Export document to Markdown"@,
            title@,
        ) && locale::translation_answer(
            "Markdown files (*.md)|*.md|All files (*.*)|*.*"@,
            wildcard@,
        ),
        kind == ExportKind::DocumentData ==> extension@ == "paperback"@
            && locale::translation_answer("Export notes and bookmarks"@, title@)
            && locale::translation_answer("Paperback files (*.paperback)|*.paperback"@, wildcard@),
        file@ == stem@ + seq!['.'] + extension@,
{
}

/// The dialog for an export starts with the name of the document, its extension replaced by that of the
/// export; a document without a name is called "document", in some language.
pub proof fn law_export_is_named_after_the_document(
    path: &str,
    kind: ExportKind,
    file: String,
    extension: &'static str,
    stem: Seq<char>,
    ending: Seq<char>,
)
    requires
        call_ensures(default_file, (path, kind), file),
        call_ensures(ExportKind::extension, (&kind,), extension),
    ensures
        path@ == stem + seq!['.'] + ending && stem.len() > 0 && !ending.contains('.')
            && paths::is_file_name(path@) ==> file@ == stem + seq!['.'] + extension@,
        paths::is_file_name(path@) && !path@.contains('.') ==> file@ == path@ + seq!['.']
            + extension@,
        exists|name: Seq<char>|
            #![trigger paths::file_stem_answer(path@, Some(name))]
            (paths::file_stem_answer(path@, Some(name)) || (paths::file_stem_answer(path@, None)
                && locale::translation_answer("document"@, name))) && file@ == name + seq!['.']
                + extension@,
{
    text::law_last_position(path@, seq!['.']);
    let dot = text::last_of(path@, seq!['.']);
    assert(seq!['.'][0] == '.');
    if path@ == stem + seq!['.'] + ending && stem.len() > 0 && !ending.contains('.') {
        paths::lemma_last_dot(stem, ending);
        assert(path@.take(stem.len() as int) =~= stem);
    }
    if !path@.contains('.') && dot >= 0 {
        assert(path@.contains(path@[dot]));
    }
    let name = choose|name: Seq<char>| #[trigger]
        is_default_stem(path@, name) && file@ == name + seq!['.'] + kind.extension_text();
    assert(is_default_stem(path@, name));
}

/// The web view shows the file, with slashes for backslashes, at the place that belongs to the target, or
/// else at the one that belongs to the caret, or else at its start.
pub proof fn law_web_view_shows_the_file(
    path: &str,
    target: Option<String>,
    caret: Option<String>,
    r: String,
)
    requires
        call_ensures(web_view_url, (path, target, caret), r),
    ensures
        ({
            let address = "file:///"@ + text::replaced(path@, "\\"@, "/"@);
            &&& target matches Some(place) ==> r@ == address + seq!['#'] + place@
            &&& target is None ==> (caret matches Some(place) ==> r@ == address + seq!['#'] + place@)
            &&& target is None && caret is None ==> r@ == address
        }),
{
}

/// A link is opened by the browser exactly if it starts with `http://`, `https://` or `mailto:`, in letters
/// of either case.
pub proof fn law_external_links(url: &str, r: bool)
    requires
        call_ensures(opens_in_browser, (url,), r),
    ensures
        r <==> spells(url@, "http://"@) || spells(url@, "https://"@) || spells(url@, "mailto:"@),
{
}

/// The first characters of `s` are those of `prefix`, or their capital forms.
pub open spec fn spells(s: Seq<char>, prefix: Seq<char>) -> bool {
    prefix.len() <= s.len() && forall|i: int|
        0 <= i < prefix.len() ==> s[i] == #[trigger] prefix[i] && !('A' <= s[i] <= 'Z') || ('A'
            <= s[i] <= 'Z' && s[i] as int + 32 == prefix[i] as int)
}

/// The source of a document is shown under the document's name, at the caret, and is not remembered.
/// Without a source, the reason is told: the format has none, or it could not be loaded.
pub proof fn law_source_is_shown(
    path: &str,
    source: Option<Option<SourceView>>,
    r: SourceStep,
    outcome: SourceOutcome,
    message: String,
)
    requires
        call_ensures(view_source, (path, source), r),
        call_ensures(SourceOutcome::message, (&outcome,), message),
    ensures
        source is None ==> r == SourceStep::Report(SourceOutcome::Unavailable),
        source matches Some(None) ==> r == SourceStep::Report(SourceOutcome::Failed),
        source matches Some(Some(view)) ==> {
            &&& r matches SourceStep::Open { path: file, request }
            &&& file == view.path
            &&& !request.track && !request.is_restore
            &&& request.initial_caret == Some(view.caret)
            &&& request.title_override matches Some(title)
            &&& paths::is_file_name(path@) ==> titles_source(path@, title@)
        },
        outcome == SourceOutcome::Unavailable ==> locale::translation_answer(
            "Source view is not available for this document format."@,
            message@,
        ),
        outcome == SourceOutcome::Failed ==> locale::translation_answer(
            "Could not load the document source."@,
            message@,
        ),
{
}

/// `title` is the word for a source, in some language, and the name.
pub open spec fn titles_source(name: Seq<char>, title: Seq<char>) -> bool {
    exists|prefix: Seq<char>| #[trigger]
        locale::translation_answer("Source:"@, prefix) && title == prefix + seq![' '] + name
}

/// The words of a selection are counted exactly if it holds something else than white space.
pub proof fn law_selection_is_counted(selection: &str, r: bool)
    requires
        call_ensures(counts_selection, (selection,), r),
    ensures
        r <==> exists|i: int| 0 <= i < selection@.len() && !text::is_space(#[trigger] selection@[i]),
{
    let s = selection@;
    let k = text::Trim::Space;
    text::lemma_trimmed_ends(s, k);
    let t = text::trimmed(s, k);
    let (before, after) = choose|before: Seq<char>, after: Seq<char>|
        #![trigger text::all_accepted(before, k), text::all_accepted(after, k)]
        s == before + t + after && text::all_accepted(before, k) && text::all_accepted(after, k);
    if t.len() > 0 {
        assert(s[before.len() as int] == t.first());
    } else {
        assert forall|i: int| 0 <= i < s.len() implies text::is_space(#[trigger] s[i]) by {
            if i < before.len() {
                assert(k.accepts(before[i]));
            } else {
                assert(k.accepts(after[i - before.len()]));
            }
        }
    }
}

} // verus!
