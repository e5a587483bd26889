//! Formulas in HTML documents.

use vstd::prelude::*;
use crate::math::asciimath;
use crate::math::asciimath::{math_text, MathCache, MathThread};
use crate::math::fallback;
use crate::text;

verus! {

/// An element of a parsed HTML document.
#[verifier::external_type_specification]
#[verifier::external_body]
pub struct ExElementRef<'a>(scraper::ElementRef<'a>);

/// The element written as HTML, itself included.
pub uninterp spec fn element_html(element: scraper::ElementRef<'_>) -> Seq<char>;

/// The value of the element's attribute `name`, if it has one.
pub uninterp spec fn element_attribute(
    element: scraper::ElementRef<'_>,
    name: Seq<char>,
) -> Option<Seq<char>>;

/// All text inside the element, in document order.
pub uninterp spec fn element_text(element: scraper::ElementRef<'_>) -> Seq<char>;

/// Calls `scraper::ElementRef::html`, which writes the element as HTML.
#[verifier::external_body]
fn html_of(element: scraper::ElementRef<'_>) -> (r: String)
    ensures
        r@ == element_html(element),
{
    element.html()
}

/// Calls `scraper::ElementRef::attr`, which looks an attribute up by name.
#[verifier::external_body]
fn attribute_of(element: scraper::ElementRef<'_>, name: &str) -> (r: Option<String>)
    ensures
        text::text_view(r) == element_attribute(element, name@),
{
    element.attr(name).map(str::to_string)
}

/// Calls `scraper::ElementRef::text`, which hands out the text nodes inside the element, and joins
/// them.
#[verifier::external_body]
fn text_of(element: scraper::ElementRef<'_>) -> (r: String)
    ensures
        r@ == element_text(element),
{
    element.text().collect()
}

/// The text of a formula in an HTML document: its AsciiMath, or else its alternative text, or else
/// its raw text.
pub fn dom_math_text(
    element: scraper::ElementRef<'_>,
    thread: &mut MathThread,
    cache: &mut MathCache,
) -> (r: Option<String>)
    requires
        old(cache).wf(),
    ensures
        final(cache).wf(),
        final(thread).ready() is Some,
        old(thread).ready() is Some ==> final(thread).ready() == old(thread).ready(),
        exists|rendered: Option<Seq<char>>|
            {
                &&& #[trigger] asciimath::asciimath_step(
                    final(thread).ready(),
                    old(cache)@,
                    element_html(element),
                    rendered,
                    final(cache)@,
                )
                &&& final(thread).ready() == Some(true) ==> asciimath::renders(
                    element_html(element),
                    rendered,
                )
                &&& text::text_view(r) == fallback::picked(
                    rendered,
                    element_attribute(element, "alttext"@),
                    element_text(element),
                )
            },
{
    let mathml = html_of(element);
    let alttext = attribute_of(element, "alttext");
    let alt = match &alttext {
        Some(alt) => Some(alt.as_str()),
        None => None,
    };
    let raw = || -> (s: String)
        ensures
            s@ == element_text(element),
        { text_of(element) };
    let r = math_text(mathml.as_str(), alt, raw, thread, cache);
    proof {
        let rendered = choose|rendered: Option<Seq<char>>|
            {
                &&& #[trigger] asciimath::asciimath_step(
                    thread.ready(),
                    old(cache)@,
                    mathml@,
                    rendered,
                    cache@,
                )
                &&& thread.ready() == Some(true) ==> asciimath::renders(mathml@, rendered)
                &&& fallback::picks(rendered, text::str_view(alt), raw, text::text_view(r))
            };
        assert(text::text_view(r) == fallback::picked(
            rendered,
            element_attribute(element, "alttext"@),
            element_text(element),
        ));
    }
    r
}

/// `r` is read from `rendered`, or else from the alternative text of the element, or else from its text,
/// where `rendered` comes from MathCAT's answer for the element's HTML, or is missing without MathCAT.
pub open spec fn is_read_from(
    ready: Option<bool>,
    element: scraper::ElementRef<'_>,
    rendered: Option<Seq<char>>,
    r: Option<Seq<char>>,
) -> bool {
    let alttext = element_attribute(element, "alttext"@);
    &&& ready == Some(true) ==> asciimath::renders(element_html(element), rendered)
    &&& ready != Some(true) ==> rendered is None
    &&& rendered is Some ==> r == rendered
    &&& rendered is None ==> (alttext matches Some(alt) ==> (text::normalized(alt) is Some ==> r
        == text::normalized(alt)))
    &&& rendered is None && (alttext matches Some(alt) ==> text::normalized(alt) is None) ==> r
        == text::normalized(element_text(element))
}

/// A formula of an HTML document reads as its AsciiMath whenever MathCAT gave one for its HTML, or else by
/// its attribute `alttext`, or else by its text.
pub proof fn law_html_formula_is_read(
    element: scraper::ElementRef<'_>,
    thread: &mut MathThread,
    cache: &mut MathCache,
    r: Option<String>,
)
    requires
        call_ensures(dom_math_text, (element, thread, cache), r),
    ensures
        exists|rendered: Option<Seq<char>>| #[trigger]
            is_read_from(final(thread).ready(), element, rendered, text::text_view(r)),
{
    let rendered = choose|rendered: Option<Seq<char>>|
        {
            &&& #[trigger] asciimath::asciimath_step(
                final(thread).ready(),
                old(cache)@,
                element_html(element),
                rendered,
                final(cache)@,
            )
            &&& final(thread).ready() == Some(true) ==> asciimath::renders(
                element_html(element),
                rendered,
            )
            &&& text::text_view(r) == fallback::picked(
                rendered,
                element_attribute(element, "alttext"@),
                element_text(element),
            )
        };
    assert(is_read_from(final(thread).ready(), element, rendered, text::text_view(r)));
}

} // verus!
