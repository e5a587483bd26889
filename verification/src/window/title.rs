//! The title of the window and its status bar.

use vstd::prelude::*;
use crate::locale;
use crate::locale::{fill_message, t};
use crate::text;

verus! {

/// `content` is, in some language, the title of the window while it shows the document with this
/// title, or none.
pub open spec fn is_window_title(document: Option<Seq<char>>, content: Seq<char>) -> bool {
    match document {
        Some(shown) => locale::fills("Paperback - {}"@, shown, content),
        None => locale::translation_answer("Paperback"@, content),
    }
}

/// The title of the window while it shows the document with this title, or none.
pub fn window_title(document: Option<&str>) -> (r: String)
    ensures
        is_window_title(text::str_view(document), r@),
{
    match document {
        Some(shown) => fill_message("Paperback - {}", shown),
        None => t("Paperback"),
    }
}

/// `content` is the text of the status bar: what the application is busy with, or else the state of
/// the active document, or else that it is ready.
pub open spec fn is_status(
    busy: Option<Seq<char>>,
    document: Option<Seq<char>>,
    content: Seq<char>,
) -> bool {
    match (busy, document) {
        (Some(work), _) => content == work,
        (None, Some(state)) => content == state,
        (None, None) => locale::translation_answer("Ready"@, content),
    }
}

/// The text of the status bar. Loading or reloading stays visible until all background work finishes.
pub fn status_text(busy: Option<String>, document: Option<String>) -> (r: String)
    ensures
        is_status(text::text_view(busy), text::text_view(document), r@),
{
    match (busy, document) {
        (Some(work), _) => work,
        (None, Some(state)) => state,
        (None, None) => t("Ready"),
    }
}

/// Whether the status bar also shows how long the sleep timer will run: it was started at `start_ms`
/// and has `remaining` seconds left.
pub fn shows_sleep_timer(start_ms: i64, remaining: i32) -> (r: bool)
    ensures
        r == (start_ms > 0 && remaining > 0),
{
    start_ms > 0 && remaining > 0
}

/// The window is named after the document that it shows, or after the application alone.
pub proof fn law_window_is_named(document: Option<&str>, r: String)
    requires
        call_ensures(window_title, (document,), r),
    ensures
        document is None ==> locale::translation_answer("Paperback"@, r@),
        document matches Some(shown) ==> exists|template: Seq<char>| #[trigger]
            locale::translation_answer("Paperback - {}"@, template) && r@ == text::replaced(
                template,
                "{}"@,
                shown@,
            ),
{
}

/// Background work is shown before the state of the document, and the state of the document before that
/// the application is ready. The sleep timer is shown while it runs and has time left.
pub proof fn law_status_shows_the_work_first(
    busy: Option<String>,
    document: Option<String>,
    r: String,
    start_ms: i64,
    remaining: i32,
    timed: bool,
)
    requires
        call_ensures(status_text, (busy, document), r),
        call_ensures(shows_sleep_timer, (start_ms, remaining), timed),
    ensures
        busy matches Some(work) ==> r@ == work@,
        busy is None ==> (document matches Some(state) ==> r@ == state@),
        busy is None && document is None ==> locale::translation_answer("Ready"@, r@),
        timed <==> start_ms > 0 && remaining > 0,
{
}

} // verus!
