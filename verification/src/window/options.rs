//! What a change of the options leads to.

use vstd::prelude::*;
use crate::locale;
use crate::locale::t;

verus! {

/// The options that change how documents are shown.
pub struct ReadingOptions {
    pub word_wrap: bool,
    pub render_tables_inline: bool,
    pub compact_go_menu: bool,
    pub line_spacing: i32,
    /// The background colour; negative for the one of the system.
    pub bg_color: i32,
    pub text_alignment: i32,
    pub letter_spacing: i32,
    pub paragraph_spacing: i32,
}

/// What was found out about the font.
pub struct FontChange {
    /// The font is another one than before.
    pub changed: bool,
    /// A font was chosen, rather than the one of the system.
    pub chosen: bool,
    /// The colour of the text; negative for the one of the system.
    pub color: i32,
}

/// What is applied to the open documents.
pub enum Restyling {
    /// Build the text controls anew, with this setting for word wrap, and restore the focus: what the
    /// system decides can only be had from a new control.
    Rebuild { word_wrap: bool },
    /// Change what is set here.
    Adjust {
        font: bool,
        color: Option<i32>,
        bg_color: Option<i32>,
        line_spacing: Option<i32>,
        text_alignment: Option<i32>,
        letter_spacing: Option<i32>,
        paragraph_spacing: Option<i32>,
    },
}

/// What a change of the options leads to.
pub struct OptionsPlan {
    pub restyling: Restyling,
    /// Parse the open documents again, with this setting for tables.
    pub reparse: Option<bool>,
    /// Switch to the language that was chosen.
    pub switch_language: bool,
    /// Update the title of the window.
    pub update_title: bool,
}

/// `new` if it differs from `old`.
pub open spec fn if_changed(old_value: i32, new_value: i32) -> Option<i32> {
    if old_value != new_value {
        Some(new_value)
    } else {
        None
    }
}

/// `new` if it differs from `old`.
fn changed(old_value: i32, new_value: i32) -> (r: Option<i32>)
    ensures
        r == if_changed(old_value, new_value),
{
    if old_value != new_value {
        Some(new_value)
    } else {
        None
    }
}

/// The text controls have to be built anew.
pub open spec fn needs_rebuild(
    before: ReadingOptions,
    after: ReadingOptions,
    font: FontChange,
) -> bool {
    ||| before.word_wrap != after.word_wrap
    ||| font.changed && !font.chosen
    ||| before.bg_color != after.bg_color && after.bg_color < 0
    ||| font.changed && font.color < 0
}

/// What is applied to the open documents.
pub open spec fn restyling(
    before: ReadingOptions,
    after: ReadingOptions,
    font: FontChange,
) -> Restyling {
    if needs_rebuild(before, after, font) {
        Restyling::Rebuild { word_wrap: after.word_wrap }
    } else {
        Restyling::Adjust {
            font: font.changed && font.chosen,
            color: if font.changed {
                Some(font.color)
            } else {
                None
            },
            bg_color: if_changed(before.bg_color, after.bg_color),
            line_spacing: if_changed(before.line_spacing, after.line_spacing),
            text_alignment: if_changed(before.text_alignment, after.text_alignment),
            letter_spacing: if_changed(before.letter_spacing, after.letter_spacing),
            paragraph_spacing: if_changed(before.paragraph_spacing, after.paragraph_spacing),
        }
    }
}

/// What a change of the options leads to.
pub fn plan_options(
    before: &ReadingOptions,
    after: &ReadingOptions,
    font: &FontChange,
    language_changed: bool,
) -> (r: OptionsPlan)
    ensures
        r.restyling == restyling(*before, *after, *font),
        r.reparse == (if before.render_tables_inline != after.render_tables_inline {
            Some(after.render_tables_inline)
        } else {
            None
        }),
        r.switch_language == language_changed,
        r.update_title == (language_changed || before.compact_go_menu != after.compact_go_menu),
{
    let rebuild = before.word_wrap != after.word_wrap || (font.changed && !font.chosen) || (
    before.bg_color != after.bg_color && after.bg_color < 0) || (font.changed && font.color < 0);
    let restyling = if rebuild {
        Restyling::Rebuild { word_wrap: after.word_wrap }
    } else {
        Restyling::Adjust {
            font: font.changed && font.chosen,
            color: if font.changed {
                Some(font.color)
            } else {
                None
            },
            bg_color: changed(before.bg_color, after.bg_color),
            line_spacing: changed(before.line_spacing, after.line_spacing),
            text_alignment: changed(before.text_alignment, after.text_alignment),
            letter_spacing: changed(before.letter_spacing, after.letter_spacing),
            paragraph_spacing: changed(before.paragraph_spacing, after.paragraph_spacing),
        }
    };
    let reparse = if before.render_tables_inline != after.render_tables_inline {
        Some(after.render_tables_inline)
    } else {
        None
    };
    OptionsPlan {
        restyling,
        reparse,
        switch_language: language_changed,
        update_title: language_changed || before.compact_go_menu != after.compact_go_menu,
    }
}

/// Options that were confirmed without a change lead to nothing.
pub proof fn law_same_options_change_nothing(options: ReadingOptions, chosen: bool, color: i32)
    ensures
        restyling(options, options, FontChange { changed: false, chosen, color }) == (
        Restyling::Adjust {
            font: false,
            color: None,
            bg_color: None,
            line_spacing: None,
            text_alignment: None,
            letter_spacing: None,
            paragraph_spacing: None,
        }),
{
}

/// The message after word wrap was toggled.
pub open spec fn word_wrap_text(on: bool) -> Seq<char> {
    if on {
        "Word wrap on."@
    } else {
        "Word wrap off."@
    }
}

/// A toggled setting for word wrap.
pub struct WordWrapToggle {
    pub on: bool,
    pub announcement: String,
}

/// Toggles word wrap, which is `on` so far.
pub fn toggle_word_wrap(on: bool) -> (r: WordWrapToggle)
    ensures
        r.on == !on,
        locale::translation_answer(word_wrap_text(!on), r.announcement@),
{
    let message = if on {
        "Word wrap off."
    } else {
        "Word wrap on."
    };
    WordWrapToggle { on: !on, announcement: t(message) }
}

/// What is applied to the open documents: new text controls exactly where the system has to decide
/// something, or word wrap changed, and otherwise each setting that changed, with its new value, and no
/// other.
pub proof fn law_changed_options_are_applied(
    before: ReadingOptions,
    after: ReadingOptions,
    font: FontChange,
    language_changed: bool,
    r: OptionsPlan,
)
    requires
        call_ensures(plan_options, (&before, &after, &font, language_changed), r),
    ensures
        before.word_wrap != after.word_wrap ==> r.restyling == (Restyling::Rebuild {
            word_wrap: after.word_wrap,
        }),
        font.changed && (!font.chosen || font.color < 0) ==> r.restyling == (Restyling::Rebuild {
            word_wrap: after.word_wrap,
        }),
        before.bg_color != after.bg_color && after.bg_color < 0 ==> r.restyling == (
        Restyling::Rebuild { word_wrap: after.word_wrap }),
        before.word_wrap == after.word_wrap && !(font.changed && (!font.chosen || font.color < 0))
            && !(before.bg_color != after.bg_color && after.bg_color < 0) ==> {
            &&& r.restyling matches Restyling::Adjust {
                font: new_font,
                color,
                bg_color,
                line_spacing,
                text_alignment,
                letter_spacing,
                paragraph_spacing,
            }
            &&& new_font == font.changed
            &&& font.changed ==> color == Some(font.color)
            &&& !font.changed ==> color is None
            &&& adjusts(before.bg_color, after.bg_color, bg_color)
            &&& adjusts(before.line_spacing, after.line_spacing, line_spacing)
            &&& adjusts(before.text_alignment, after.text_alignment, text_alignment)
            &&& adjusts(before.letter_spacing, after.letter_spacing, letter_spacing)
            &&& adjusts(before.paragraph_spacing, after.paragraph_spacing, paragraph_spacing)
        },
        before.render_tables_inline == after.render_tables_inline ==> r.reparse is None,
        before.render_tables_inline != after.render_tables_inline ==> r.reparse == Some(
            after.render_tables_inline,
        ),
        r.switch_language <==> language_changed,
        r.update_title <==> language_changed || before.compact_go_menu != after.compact_go_menu,
{
}

/// A setting is adjusted to its new value exactly if that differs from the old one.
pub open spec fn adjusts(old_value: i32, new_value: i32, adjustment: Option<i32>) -> bool {
    &&& old_value == new_value ==> adjustment is None
    &&& old_value != new_value ==> adjustment == Some(new_value)
}

/// Toggling word wrap switches it and announces the new state; toggling it twice brings it back.
pub proof fn law_word_wrap_is_toggled(on: bool, once: WordWrapToggle, twice: WordWrapToggle)
    requires
        call_ensures(toggle_word_wrap, (on,), once),
        call_ensures(toggle_word_wrap, (once.on,), twice),
    ensures
        once.on != on,
        twice.on == on,
        once.on ==> locale::translation_answer("Word wrap on."@, once.announcement@),
        !once.on ==> locale::translation_answer("Word wrap off."@, once.announcement@),
{
}

} // verus!
