//! Choosing a parser for a document.

use paperback::names::{choose_name, sidecar_path, title_or_filename};
use paperback::open_as::{
    accessible_label, choose_parser_extension, format_for_selection, open_as_message,
    parser_extension_for_path, OpenAs, OpenAsEvent,
};

#[test]
fn parser_extension_for_path_handles_normal_paths() {
    assert_eq!(parser_extension_for_path("book.epub"), "epub");
    assert_eq!(parser_extension_for_path("C:\\docs\\book.PDF"), "PDF");
}

#[test]
fn parser_extension_for_path_strips_quotes_and_whitespace() {
    assert_eq!(parser_extension_for_path("  \"book.epub\"  "), "epub");
    assert_eq!(parser_extension_for_path("'book.txt'"), "txt");
}

#[test]
fn parser_extension_for_path_returns_empty_for_no_extension() {
    assert_eq!(parser_extension_for_path("README"), "");
}

#[test]
fn parser_extension_for_path_handles_ipc_artifacts() {
    assert_eq!(parser_extension_for_path("book.epub\u{0}"), "epub");
    assert_eq!(parser_extension_for_path(" \"book.epub\u{0}\" "), "epub");
}

#[test]
fn written_extension_is_the_fallback() {
    assert_eq!(choose_parser_extension("a.b/c.txt\"", None), "txt");
    assert_eq!(choose_parser_extension("a.b\\readme", None), "");
    assert_eq!(choose_parser_extension("'x. md '", Some("-".to_string())), "md");
    assert_eq!(choose_parser_extension("x.md", Some(" epub3-draft".to_string())), "epub3");
    assert_eq!(choose_parser_extension("", None), "");
    assert_eq!(parser_extension_for_path(".htaccess"), "htaccess");
    assert_eq!(parser_extension_for_path("/a.b/c:d\\e.f.TXT"), "TXT");
    assert_eq!(parser_extension_for_path("C:book.md"), "md");
}

fn is_ready(state: &OpenAs) -> bool {
    matches!(state, OpenAs::Ready)
}

#[test]
fn supported_extension_is_ready() {
    let state = OpenAs::start("book.epub");
    assert!(matches!(&state, OpenAs::CheckExtension(extension) if extension == "epub"));
    assert!(is_ready(&state.step(OpenAsEvent::Support(true))));
    assert!(is_ready(&OpenAs::start("README")));
}

#[test]
fn remembered_format_is_used() {
    let state = OpenAs::start("book.xyz").step(OpenAsEvent::Support(false));
    assert!(matches!(state, OpenAs::ReadSavedFormat));
    let state = state.step(OpenAsEvent::SavedFormat("html".to_string()));
    assert!(matches!(&state, OpenAs::CheckSavedFormat(format) if format == "html"));
    assert!(is_ready(&state.step(OpenAsEvent::Support(true))));
}

fn asked() -> OpenAs {
    OpenAs::start("book.xyz")
        .step(OpenAsEvent::Support(false))
        .step(OpenAsEvent::SavedFormat(String::new()))
}

#[test]
fn choice_is_remembered() {
    let state = asked();
    assert!(matches!(state, OpenAs::Ask));
    let state = state.step(OpenAsEvent::Choice(Some("md".to_string()))).step(OpenAsEvent::Support(true));
    assert!(matches!(&state, OpenAs::Remember(format) if format == "md"));
    assert!(is_ready(&state.step(OpenAsEvent::Done)));
}

#[test]
fn cancelling_and_unsupported_choices_refuse() {
    assert!(matches!(asked().step(OpenAsEvent::Choice(None)), OpenAs::Refused));
    let state = asked()
        .step(OpenAsEvent::Choice(Some("md".to_string())))
        .step(OpenAsEvent::Support(false));
    assert!(matches!(state, OpenAs::ReportUnsupported));
    assert!(matches!(state.step(OpenAsEvent::Done), OpenAs::Refused));
}

#[test]
fn other_events_change_nothing() {
    assert!(matches!(asked().step(OpenAsEvent::Done), OpenAs::Ask));
    assert!(matches!(OpenAs::Ready.step(OpenAsEvent::Support(false)), OpenAs::Ready));
}

#[test]
fn formats_of_the_dialog() {
    assert_eq!(format_for_selection(Some(0)), "txt");
    assert_eq!(format_for_selection(Some(1)), "html");
    assert_eq!(format_for_selection(Some(2)), "md");
    assert_eq!(format_for_selection(Some(3)), "txt");
    assert_eq!(format_for_selection(None), "txt");
}

#[test]
fn texts_of_the_dialog() {
    assert_eq!(
        open_as_message("/a/b.xyz"),
        "No suitable parser was found for /a/b.xyz.\nHow would you like to open this file?"
    );
    assert_eq!(accessible_label("Open &as:"), "Open as");
}

#[test]
fn names_of_documents() {
    assert_eq!(choose_name("Title", Some("file".to_string()), "/p/file"), "Title");
    assert_eq!(choose_name("", Some("file".to_string()), "/p/file"), "file");
    assert_eq!(choose_name("", None, ".."), "..");
    assert_eq!(title_or_filename("", "dir/book.epub"), "book.epub");
    assert_eq!(title_or_filename("Source: x", "dir/book.epub"), "Source: x");
    assert_eq!(sidecar_path("book.epub"), "book.paperback");
    assert_eq!(sidecar_path("dir/notes"), "dir/notes.paperback");
}
