//! The boundary to MathCAT. Its state is per thread, and it also reads a preferences file from the
//! user's configuration directory, so what a call answers is not fixed by the call's arguments.
//! The `*_answer` relations only record which answers came back for which arguments. The rest of the
//! library reaches MathCAT through an `Engine`, which keeps account of how it was set up.

use vstd::prelude::*;
use vstd::utf8;
use crate::text;

verus! {

/// Some call of `libmathcat::set_rules_dir(dir)` succeeded (`accepted`) or failed.
pub uninterp spec fn rules_answer(dir: Seq<char>, accepted: bool) -> bool;

/// Some call of `libmathcat::set_preference(name, value)` succeeded (`accepted`) or failed.
pub uninterp spec fn preference_answer(name: Seq<char>, value: Seq<char>, accepted: bool) -> bool;

/// Some braille conversion of `mathml` ended in `text`; `None` stands for an error.
pub uninterp spec fn braille_answer(mathml: Seq<char>, text: Option<Seq<char>>) -> bool;

/// Some speech conversion of `mathml` ended in `text`; `None` stands for an error.
pub uninterp spec fn speech_answer(mathml: Seq<char>, text: Option<Seq<char>>) -> bool;

/// MathCAT's rules were loaded, which has to come before anything else.
pub open spec fn rules_set() -> bool {
    rules_answer("Rules"@, true)
}

/// MathCAT was set up to render AsciiMath: its rules are loaded, the language is English, and the
/// braille code is ASCIIMath.
pub open spec fn prepared() -> bool {
    &&& rules_set()
    &&& preference_answer("Language"@, "en"@, true)
    &&& preference_answer("BrailleCode"@, "ASCIIMath"@, true)
}

/// A step of setting up MathCAT failed after the steps before it had succeeded.
pub open spec fn preparation_failed() -> bool {
    ||| rules_answer("Rules"@, false)
    ||| rules_set() && preference_answer("Language"@, "en"@, false)
    ||| rules_set() && preference_answer("Language"@, "en"@, true) && preference_answer(
        "BrailleCode"@,
        "ASCIIMath"@,
        false,
    )
}

/// The longest MathML, in bytes of UTF-8, that MathCAT reads.
pub const MAX_MATHML_BYTES: usize = 1048576;

/// Calls `libmathcat::set_rules_dir`, which loads the rules for the current thread. The result says
/// whether the call succeeded; that depends on the embedded rules and on the user's preferences
/// file, so nothing more is claimed of it.
#[verifier::external_body]
fn set_rules_dir(dir: &str) -> (accepted: bool)
    ensures
        rules_answer(dir@, accepted),
{
    libmathcat::set_rules_dir(dir).is_ok()
}

/// Calls `libmathcat::set_preference`, which sets a preference for the current thread. The rules have
/// to be loaded before. The result says whether the call succeeded; that depends on the rules that
/// were loaded, so nothing more is claimed of it.
#[verifier::external_body]
fn set_preference(name: &str, value: &str) -> (accepted: bool)
    requires
        rules_set(),
    ensures
        preference_answer(name@, value@, accepted),
{
    libmathcat::set_preference(name, value).is_ok()
}

/// Calls `libmathcat::set_mathml` and, when it succeeds, `libmathcat::get_braille` with no
/// navigation node, and gives the braille text or `None` for an error. The braille depends on the
/// preferences, so AsciiMath has to be selected before. `set_mathml` refuses any text
/// longer than `MAX_MATHML_BYTES`; the text of other conversions depends on the rules and
/// preferences of the thread, so nothing more is claimed of it.
#[verifier::external_body]
fn braille(mathml: &str) -> (r: Option<String>)
    requires
        prepared(),
    ensures
        braille_answer(mathml@, text::text_view(r)),
        utf8::encode_utf8(mathml@).len() > MAX_MATHML_BYTES ==> r is None,
{
    libmathcat::set_mathml(mathml).and_then(|_| libmathcat::get_braille(String::new())).ok()
}

/// Calls `libmathcat::set_mathml` and, when it succeeds, `libmathcat::get_spoken_text`, and gives the
/// spoken text or `None` for an error. The rules have to be loaded before. `set_mathml` refuses any
/// text longer than `MAX_MATHML_BYTES`; the text of other conversions depends on the rules and
/// preferences of the thread, so nothing more is claimed of it.
#[verifier::external_body]
fn speech(mathml: &str) -> (r: Option<String>)
    requires
        rules_set(),
    ensures
        speech_answer(mathml@, text::text_view(r)),
        utf8::encode_utf8(mathml@).len() > MAX_MATHML_BYTES ==> r is None,
{
    libmathcat::set_mathml(mathml).and_then(|_| libmathcat::get_spoken_text()).ok()
}

/// How MathCAT was set up last; `None` where nothing was set or the setting was refused.
pub struct Setup {
    pub rules: Option<Seq<char>>,
    pub language: Option<Seq<char>>,
    pub braille_code: Option<Seq<char>>,
}

/// The embedded rules are loaded, the language is English, and the braille code is ASCIIMath.
pub open spec fn ascii_math_setup() -> Setup {
    Setup {
        rules: Some("Rules"@),
        language: Some("en"@),
        braille_code: Some("ASCIIMath"@),
    }
}

/// MathCAT on the current thread. It remembers every setting that is made through it.
pub struct Engine {
    rules: Option<String>,
    language: Option<String>,
    braille_code: Option<String>,
}

impl View for Engine {
    type V = Setup;

    closed spec fn view(&self) -> Setup {
        Setup {
            rules: text::text_view(self.rules),
            language: text::text_view(self.language),
            braille_code: text::text_view(self.braille_code),
        }
    }
}

impl Engine {
    /// MathCAT accepted every setting that is remembered.
    #[verifier::type_invariant]
    spec fn was_accepted(self) -> bool {
        &&& self.rules matches Some(dir) ==> rules_answer(dir@, true)
        &&& self.language matches Some(value) ==> preference_answer("Language"@, value@, true)
        &&& self.braille_code matches Some(value) ==> preference_answer(
            "BrailleCode"@,
            value@,
            true,
        )
    }

    /// MathCAT on a thread where nothing is set up yet.
    pub(crate) fn new() -> (r: Self)
        ensures
            r@ == (Setup { rules: None, language: None, braille_code: None }),
    {
        Engine { rules: None, language: None, braille_code: None }
    }

    /// Loads the rules in `dir`. The preferences have to be set anew afterwards.
    pub(crate) fn load_rules(&mut self, dir: &str) -> (accepted: bool)
        ensures
            rules_answer(dir@, accepted),
            final(self)@ == (Setup {
                rules: if accepted {
                    Some(dir@)
                } else {
                    None
                },
                language: None,
                braille_code: None,
            }),
    {
        proof {
            use_type_invariant(&*self);
        }
        self.language = None;
        self.braille_code = None;
        let accepted = set_rules_dir(dir);
        self.rules = if accepted {
            Some(dir.to_owned())
        } else {
            None
        };
        accepted
    }

    /// Selects the language of the rules.
    pub(crate) fn set_language(&mut self, language: &str) -> (accepted: bool)
        requires
            old(self)@.rules == Some("Rules"@),
        ensures
            preference_answer("Language"@, language@, accepted),
            final(self)@ == (Setup {
                language: if accepted {
                    Some(language@)
                } else {
                    None
                },
                ..old(self)@
            }),
    {
        proof {
            use_type_invariant(&*self);
        }
        let accepted = set_preference("Language", language);
        self.language = if accepted {
            Some(language.to_owned())
        } else {
            None
        };
        accepted
    }

    /// Selects the braille code.
    pub(crate) fn set_braille_code(&mut self, code: &str) -> (accepted: bool)
        requires
            old(self)@.rules == Some("Rules"@),
        ensures
            preference_answer("BrailleCode"@, code@, accepted),
            final(self)@ == (Setup {
                braille_code: if accepted {
                    Some(code@)
                } else {
                    None
                },
                ..old(self)@
            }),
    {
        proof {
            use_type_invariant(&*self);
        }
        let accepted = set_preference("BrailleCode", code);
        self.braille_code = if accepted {
            Some(code.to_owned())
        } else {
            None
        };
        accepted
    }

    /// AsciiMath for `mathml` as MathCAT words it; `None` for an error.
    pub(crate) fn ascii_math(&self, mathml: &str) -> (r: Option<String>)
        requires
            self@ == ascii_math_setup(),
        ensures
            braille_answer(mathml@, text::text_view(r)),
            utf8::encode_utf8(mathml@).len() > MAX_MATHML_BYTES ==> r is None,
    {
        proof {
            use_type_invariant(self);
        }
        braille(mathml)
    }

    /// Speech for `mathml` as MathCAT words it; `None` for an error.
    pub(crate) fn spoken(&self, mathml: &str) -> (r: Option<String>)
        requires
            self@.rules == Some("Rules"@),
        ensures
            speech_answer(mathml@, text::text_view(r)),
            utf8::encode_utf8(mathml@).len() > MAX_MATHML_BYTES ==> r is None,
    {
        proof {
            use_type_invariant(self);
        }
        speech(mathml)
    }
}

} // verus!
