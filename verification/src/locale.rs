//! The boundary to the message catalogue. The application chooses the language at run time, so what a
//! message reads as is not fixed by the message.

use vstd::prelude::*;
use crate::text;
use crate::text::replace_all;

verus! {

/// Some lookup of `message` gave `text`.
pub uninterp spec fn translation_answer(message: Seq<char>, text: Seq<char>) -> bool;

/// Calls `patois::t`, which looks `message` up in the active catalogue and gives it back unchanged
/// where the catalogue does not have it. The text depends on the language that is active, so nothing
/// more is claimed of it.
#[verifier::external_body]
pub(crate) fn t(message: &str) -> (text: String)
    ensures
        translation_answer(message@, text@),
{
    patois::t(message)
}

/// `text` is a translation of `message` with its `{}` replaced by `value`.
pub open spec fn fills(message: Seq<char>, value: Seq<char>, text: Seq<char>) -> bool {
    exists|template: Seq<char>| #[trigger]
        translation_answer(message, template) && text == text::replaced(template, "{}"@, value)
}

/// The message in the active language, with its `{}` replaced by `value`.
pub fn fill_message(message: &str, value: &str) -> (r: String)
    ensures
        fills(message@, value@, r@),
{
    let template = t(message);
    proof {
        reveal_strlit("{}");
        assert(translation_answer(message@, template@));
    }
    replace_all(template.as_str(), "{}", value)
}

/// A message is filled in by putting the value in place of `{}` in its translation.
pub proof fn law_message_is_filled_in(message: &str, value: &str, r: String)
    requires
        call_ensures(fill_message, (message, value), r),
    ensures
        exists|template: Seq<char>| #[trigger]
            translation_answer(message@, template) && r@ == text::replaced(
                template,
                "{}"@,
                value@,
            ),
{
}

} // verus!
