//! What is read when a formula cannot be converted.

use vstd::prelude::*;
use crate::text;
use crate::text::normalized_text;

verus! {

/// The author's alternative text, in readable form.
pub open spec fn author_text(alttext: Option<Seq<char>>) -> Option<Seq<char>> {
    match alttext {
        Some(alt) => text::normalized(alt),
        None => None,
    }
}

/// The rendered formula, or else the author's alternative text, or else `raw`, in readable form.
pub open spec fn picked(
    rendered: Option<Seq<char>>,
    alttext: Option<Seq<char>>,
    raw: Seq<char>,
) -> Option<Seq<char>> {
    if rendered is Some {
        rendered
    } else if author_text(alttext) is Some {
        author_text(alttext)
    } else {
        text::normalized(raw)
    }
}

/// `r` is the first of these that there is: the rendered formula, the author's alternative text,
/// and the text that `text_content` gives.
pub open spec fn picks<F: FnOnce() -> String>(
    rendered: Option<Seq<char>>,
    alttext: Option<Seq<char>>,
    text_content: F,
    r: Option<Seq<char>>,
) -> bool {
    if rendered is Some || author_text(alttext) is Some {
        r == picked(rendered, alttext, Seq::empty())
    } else {
        exists|raw: String| #[trigger]
            call_ensures(text_content, (), raw) && r == picked(rendered, alttext, raw@)
    }
}

/// The rendered formula, or else the author's alternative text, or else the raw text. The raw text
/// is asked for only when it is needed.
pub fn pick_text<F: FnOnce() -> String>(
    rendered: Option<String>,
    alttext: Option<&str>,
    text_content: F,
) -> (r: Option<String>)
    requires
        rendered is None && author_text(text::str_view(alttext)) is None ==> call_requires(
            text_content,
            (),
        ),
    ensures
        picks(
            text::text_view(rendered),
            text::str_view(alttext),
            text_content,
            text::text_view(r),
        ),
{
    if rendered.is_some() {
        return rendered;
    }
    let author = match alttext {
        Some(alt) => normalized_text(alt),
        None => None,
    };
    if author.is_some() {
        return author;
    }
    let raw = text_content();
    normalized_text(raw.as_str())
}

/// What is picked is readable when the rendered formula is; nothing is picked when every source is
/// blank.
pub proof fn law_fallback_is_readable<F: FnOnce() -> String>(
    rendered: Option<Seq<char>>,
    alttext: Option<Seq<char>>,
    text_content: F,
    r: Option<Seq<char>>,
)
    requires
        picks(rendered, alttext, text_content, r),
        rendered matches Some(t) ==> text::is_readable(t),
    ensures
        r matches Some(t) ==> text::is_readable(t),
{
    if rendered is None {
        if let Some(alt) = alttext {
            text::law_normalized_is_readable(alt);
        }
        if author_text(alttext) is None {
            let raw = choose|raw: String| #[trigger]
                call_ensures(text_content, (), raw) && r == picked(rendered, alttext, raw@);
            text::law_normalized_is_readable(raw@);
        }
    }
}

/// A formula that was not rendered, whose alternative text is missing or blank and whose raw text is
/// blank, gives no text at all.
pub proof fn law_blank_formula_gives_nothing<F: FnOnce() -> String>(
    alttext: Option<Seq<char>>,
    text_content: F,
    r: Option<Seq<char>>,
)
    requires
        picks(None, alttext, text_content, r),
        author_text(alttext) is None,
        forall|raw: String| #[trigger]
            call_ensures(text_content, (), raw) ==> text::normalized(raw@) is None,
    ensures
        r is None,
{
}

/// Whenever the conversion gave a text, that text is the result, whatever the alternative text and the
/// raw text are. The alternative text is used only where the conversion gave none, and the raw text only
/// where the alternative text is missing or blank as well.
pub proof fn law_sources_are_used_in_order<F: FnOnce() -> String>(
    rendered: Option<String>,
    alttext: Option<&str>,
    text_content: F,
    r: Option<String>,
)
    requires
        call_ensures(pick_text::<F>, (rendered, alttext, text_content), r),
    ensures
        rendered matches Some(t) ==> (r matches Some(out) && out@ == t@),
        rendered is None ==> (alttext matches Some(alt) ==> (text::normalized(alt@) is Some
            ==> text::text_view(r) == text::normalized(alt@))),
        rendered is None && (alttext matches Some(alt) ==> text::normalized(alt@) is None)
            ==> exists|raw: String| #[trigger]
            call_ensures(text_content, (), raw) && text::text_view(r) == text::normalized(raw@),
{
}

/// The same order of sources, for a formula whose raw text is at hand.
pub proof fn law_picked_source(
    rendered: Option<Seq<char>>,
    alttext: Option<Seq<char>>,
    raw: Seq<char>,
)
    ensures
        rendered is Some ==> picked(rendered, alttext, raw) == rendered,
        rendered is None ==> (alttext matches Some(alt) ==> (text::normalized(alt) is Some
            ==> picked(rendered, alttext, raw) == text::normalized(alt))),
        rendered is None && (alttext matches Some(alt) ==> text::normalized(alt) is None) ==> picked(
            rendered,
            alttext,
            raw,
        ) == text::normalized(raw),
{
}

} // verus!
