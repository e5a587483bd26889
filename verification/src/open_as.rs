//! Finds out whether some parser can read a document, and asks how to open it if none can.

use vstd::prelude::*;
use crate::locale;
use crate::locale::fill_message;
use crate::paths;
use crate::text;
use crate::text::{
    after_last_of, from_chars, replace_all, to_chars, trim_end_matches, trim_matches, trim_string,
    Trim,
};

verus! {

/// An ASCII letter or digit.
pub open spec fn is_alphanumeric(c: char) -> bool {
    ('0' <= c <= '9') || ('A' <= c <= 'Z') || ('a' <= c <= 'z')
}

/// Whether `c` is an ASCII letter or digit.
fn is_token_char(c: char) -> (r: bool)
    ensures
        r == is_alphanumeric(c),
{
    ('0' <= c && c <= '9') || ('A' <= c && c <= 'Z') || ('a' <= c && c <= 'z')
}

/// The longest prefix of `s` that is made of ASCII letters and digits.
pub open spec fn alphanumeric_prefix(s: Seq<char>) -> Seq<char>
    decreases s.len(),
{
    if s.len() > 0 && is_alphanumeric(s.first()) {
        seq![s.first()] + alphanumeric_prefix(s.drop_first())
    } else {
        Seq::empty()
    }
}

/// `s` without surrounding white space, and then without surrounding quotation marks and NULs.
pub open spec fn unwrapped(s: Seq<char>) -> Seq<char> {
    text::trimmed(text::trimmed(s, Trim::Space), Trim::Wrapper)
}

/// The extension that `raw` starts with once its wrapping is gone.
pub open spec fn cleaned_token(raw: Seq<char>) -> Seq<char> {
    alphanumeric_prefix(unwrapped(raw))
}

/// The part of `path` behind its last slash or backslash.
pub open spec fn last_part(path: Seq<char>) -> Seq<char> {
    path.skip(text::last_of(path, seq!['/', '\\']) + 1)
}

/// The part of `name` behind its last dot, or nothing.
pub open spec fn behind_dot(name: Seq<char>) -> Seq<char> {
    let dot = text::last_of(name, seq!['.']);
    if dot >= 0 {
        name.skip(dot + 1)
    } else {
        Seq::empty()
    }
}

/// The extension of a path as it is written.
pub open spec fn written_extension(path: Seq<char>) -> Seq<char> {
    cleaned_token(text::trimmed(behind_dot(last_part(unwrapped(path))), Trim::Space))
}

/// The extension by which a parser is chosen for `path`, given the one that the platform sees in it.
pub open spec fn parser_extension(path: Seq<char>, extension: Option<Seq<char>>) -> Seq<char> {
    let token = cleaned_token(text::or_empty(extension));
    if token.len() > 0 {
        token
    } else {
        written_extension(path)
    }
}

/// The extension that `raw` starts with once its wrapping is gone.
fn clean_extension_token(raw: &str) -> (r: String)
    ensures
        r@ == cleaned_token(raw@),
{
    let trimmed = trim_matches(trim_string(raw).as_str(), Trim::Wrapper);
    let chars = to_chars(trimmed.as_str());
    let mut to: usize = 0;
    proof {
        assert(chars@.skip(0) == chars@);
    }
    while to < chars.len() && is_token_char(chars[to])
        invariant
            to <= chars.len(),
            chars@.take(to as int) + alphanumeric_prefix(chars@.skip(to as int))
                == alphanumeric_prefix(chars@),
        decreases chars.len() - to,
    {
        proof {
            let rest = chars@.skip(to as int);
            assert(rest.drop_first() == chars@.skip(to + 1));
            assert(chars@.take(to + 1) == chars@.take(to as int) + seq![rest.first()]);
        }
        to += 1;
    }
    proof {
        let rest = chars@.skip(to as int);
        assert(rest.len() > 0 ==> rest.first() == chars@[to as int]);
        assert(chars@.take(to as int) == chars@.subrange(0, to as int));
    }
    from_chars(&chars, 0, to)
}

/// The extension by which a parser is chosen for `path`, given the one that the platform sees in it.
pub fn choose_parser_extension(path: &str, extension: Option<String>) -> (r: String)
    ensures
        r@ == parser_extension(path@, text::text_view(extension)),
{
    if let Some(found) = extension {
        let token = clean_extension_token(found.as_str());
        if !token.as_str().is_empty() {
            return token;
        }
    } else {
        proof {
            lemma_nothing_is_cleaned();
        }
    }
    // Fallback for odd strings that may contain trailing quotes or whitespace.
    let cleaned = trim_matches(trim_string(path).as_str(), Trim::Wrapper);
    let chars = to_chars(cleaned.as_str());
    let mut separators: Vec<char> = Vec::new();
    separators.push('/');
    separators.push('\\');
    let start = after_last_of(&chars, &separators);
    let name = from_chars(&chars, start, chars.len());
    let name_chars = to_chars(name.as_str());
    let mut dots: Vec<char> = Vec::new();
    dots.push('.');
    let behind = after_last_of(&name_chars, &dots);
    let candidate = if behind > 0 {
        from_chars(&name_chars, behind, name_chars.len())
    } else {
        String::new()
    };
    proof {
        assert(separators@ == seq!['/', '\\']);
        assert(dots@ == seq!['.']);
        assert(name@ == last_part(unwrapped(path@)));
        assert(candidate@ == behind_dot(name@));
    }
    clean_extension_token(trim_string(candidate.as_str()).as_str())
}

proof fn lemma_nothing_is_cleaned()
    ensures
        cleaned_token(Seq::empty()) == Seq::<char>::empty(),
{
}

/// The extension by which a parser is chosen for `path`. It may come out of a command line or another
/// process, so quotation marks, white space and NULs around it are ignored.
pub fn parser_extension_for_path(path: &str) -> (r: String)
    ensures
        exists|extension: Option<Seq<char>>| #[trigger]
            paths::extension_answer(path@, extension) && r@ == parser_extension(path@, extension),
        paths::is_file_name(path@) ==> r@ == parser_extension(path@, paths::extension_of(path@)),
        paths::ends_in_extension(path@) ==> r@ == parser_extension(
            path@,
            paths::extension_of(paths::last_name(path@)),
        ),
        forall|i: int| 0 <= i < r@.len() ==> is_alphanumeric(#[trigger] r@[i]),
{
    let extension = paths::extension(path);
    proof {
        let found = text::text_view(extension);
        assert(paths::extension_answer(path@, found));
        lemma_prefix_is_alphanumeric(unwrapped(text::or_empty(found)));
        lemma_prefix_is_alphanumeric(
            unwrapped(
                text::trimmed(behind_dot(last_part(unwrapped(path@))), Trim::Space),
            ),
        );
    }
    choose_parser_extension(path, extension)
}

proof fn lemma_prefix_is_alphanumeric(s: Seq<char>)
    ensures
        forall|i: int|
            0 <= i < alphanumeric_prefix(s).len() ==> is_alphanumeric(
                #[trigger] alphanumeric_prefix(s)[i],
            ),
    decreases s.len(),
{
    if s.len() > 0 && is_alphanumeric(s.first()) {
        lemma_prefix_is_alphanumeric(s.drop_first());
        let rest = alphanumeric_prefix(s.drop_first());
        let whole = alphanumeric_prefix(s);
        assert forall|i: int| 0 <= i < whole.len() implies is_alphanumeric(#[trigger] whole[i]) by {
            if i > 0 {
                assert(whole[i] == rest[i - 1]);
            }
        }
    }
}

proof fn lemma_whole_token(s: Seq<char>)
    requires
        forall|i: int| 0 <= i < s.len() ==> is_alphanumeric(#[trigger] s[i]),
    ensures
        alphanumeric_prefix(s) == s,
    decreases s.len(),
{
    if s.len() > 0 {
        assert(is_alphanumeric(s[0]));
        lemma_whole_token(s.drop_first());
        assert(seq![s.first()] + s.drop_first() == s);
    }
}

proof fn lemma_last_of_joined(stem: Seq<char>, c: char, rest: Seq<char>)
    requires
        !rest.contains(c),
    ensures
        text::last_of(stem + seq![c] + rest, seq![c]) == stem.len(),
    decreases rest.len(),
{
    let whole = stem + seq![c] + rest;
    if rest.len() == 0 {
        assert(whole.last() == c);
        assert(seq![c][0] == c);
    } else {
        assert(whole.last() == rest.last());
        assert(rest[rest.len() - 1] == rest.last());
        assert(whole.drop_last() == stem + seq![c] + rest.drop_last());
        assert(!rest.drop_last().contains(c)) by {
            if rest.drop_last().contains(c) {
                let i = choose|i: int| 0 <= i < rest.len() - 1 && rest.drop_last()[i] == c;
                assert(rest[i] == c);
            }
        }
        assert forall|i: int| 0 <= i < 1 implies seq![c][i] != rest.last() by {}
        lemma_last_of_joined(stem, c, rest.drop_last());
    }
}

/// An extension made of ASCII letters and digits is kept as it is.
pub proof fn law_plain_extension_is_kept(extension: Seq<char>)
    requires
        forall|i: int| 0 <= i < extension.len() ==> is_alphanumeric(#[trigger] extension[i]),
    ensures
        cleaned_token(extension) == extension,
{
    if extension.len() > 0 {
        assert(is_alphanumeric(extension[0]));
        assert(is_alphanumeric(extension[extension.len() - 1]));
    }
    text::lemma_clean_ends_are_kept(extension, Trim::Space);
    text::lemma_clean_ends_are_kept(extension, Trim::Wrapper);
    lemma_whole_token(extension);
}

/// The extension of a file name that ends in a dot and ASCII letters and digits is what follows that
/// dot.
pub proof fn law_extension_follows_the_last_dot(stem: Seq<char>, extension: Seq<char>)
    requires
        stem.len() > 0,
        extension.len() > 0,
        forall|i: int| 0 <= i < extension.len() ==> is_alphanumeric(#[trigger] extension[i]),
    ensures
        ({
            let name = stem + seq!['.'] + extension;
            parser_extension(name, paths::extension_of(name)) == extension
        }),
{
    let name = stem + seq!['.'] + extension;
    assert(!extension.contains('.'));
    lemma_last_of_joined(stem, '.', extension);
    assert(name.skip(stem.len() as int + 1) == extension);
    law_plain_extension_is_kept(extension);
}

proof fn lemma_last_of_set(before: Seq<char>, c: char, name: Seq<char>, set: Seq<char>)
    requires
        set.contains(c),
        forall|i: int| 0 <= i < name.len() ==> !set.contains(#[trigger] name[i]),
    ensures
        text::last_of(before + seq![c] + name, set) == before.len(),
    decreases name.len(),
{
    let whole = before + seq![c] + name;
    if name.len() == 0 {
        assert(whole.last() == c);
    } else {
        assert(whole.last() == name[name.len() - 1]);
        assert(whole.drop_last() == before + seq![c] + name.drop_last());
        lemma_last_of_set(before, c, name.drop_last(), set);
    }
}

/// The extension of a path is what follows the last dot of its last part, whether a slash, a backslash
/// or a colon stands in front of that part.
pub proof fn law_extension_of_a_path(
    directory: Seq<char>,
    separator: char,
    stem: Seq<char>,
    extension: Seq<char>,
)
    requires
        paths::is_separator(separator) || separator == ':',
        stem.len() > 0,
        forall|i: int|
            0 <= i < stem.len() ==> !paths::is_separator(#[trigger] stem[i]) && stem[i] != ':',
        extension.len() > 0,
        forall|i: int| 0 <= i < extension.len() ==> is_alphanumeric(#[trigger] extension[i]),
        !paths::is_share(directory + seq![separator] + (stem + seq!['.'] + extension)),
    ensures
        ({
            let path = directory + seq![separator] + (stem + seq!['.'] + extension);
            &&& paths::ends_in_extension(path)
            &&& parser_extension(path, paths::extension_of(paths::last_name(path))) == extension
        }),
{
    let name = stem + seq!['.'] + extension;
    let path = directory + seq![separator] + name;
    let set = seq!['/', '\\', ':'];
    assert(set[0] == '/' && set[1] == '\\' && set[2] == ':');
    assert forall|i: int| 0 <= i < name.len() implies !set.contains(#[trigger] name[i]) by {
        if i < stem.len() {
            assert(name[i] == stem[i]);
        } else if i > stem.len() {
            assert(name[i] == extension[i - stem.len() - 1]);
        }
    }
    lemma_last_of_set(directory, separator, name, set);
    assert(path.skip(directory.len() as int + 1) =~= name);
    assert(!extension.contains('.'));
    lemma_last_of_joined(stem, '.', extension);
    assert(name.skip(stem.len() as int + 1) =~= extension);
    assert(name.last() == extension[extension.len() - 1]);
    law_plain_extension_is_kept(extension);
}

/// White space, and inside it quotation marks and NULs, around a path do not change the extension
/// that is read out of it as it is written.
pub proof fn law_wrapping_is_ignored(
    space_before: Seq<char>,
    wrapper_before: Seq<char>,
    path: Seq<char>,
    wrapper_after: Seq<char>,
    space_after: Seq<char>,
)
    requires
        path.len() > 0,
        text::has_clean_ends(path, Trim::Space),
        text::has_clean_ends(path, Trim::Wrapper),
        forall|i: int|
            0 <= i < space_before.len() ==> text::is_space(#[trigger] space_before[i]),
        forall|i: int| 0 <= i < space_after.len() ==> text::is_space(#[trigger] space_after[i]),
        forall|i: int|
            0 <= i < wrapper_before.len() ==> text::is_wrapper(#[trigger] wrapper_before[i]),
        forall|i: int|
            0 <= i < wrapper_after.len() ==> text::is_wrapper(#[trigger] wrapper_after[i]),
    ensures
        written_extension(
            space_before + (wrapper_before + path + wrapper_after) + space_after,
        ) == written_extension(path),
{
    let middle = wrapper_before + path + wrapper_after;
    if wrapper_before.len() > 0 {
        assert(middle.first() == wrapper_before[0]);
    } else {
        assert(middle.first() == path[0]);
    }
    if wrapper_after.len() > 0 {
        assert(middle.last() == wrapper_after[wrapper_after.len() - 1]);
    } else {
        assert(middle.last() == path[path.len() - 1]);
    }
    text::lemma_surroundings_are_trimmed(space_before, middle, space_after, Trim::Space);
    text::lemma_surroundings_are_trimmed(wrapper_before, path, wrapper_after, Trim::Wrapper);
    text::lemma_clean_ends_are_kept(path, Trim::Space);
    text::lemma_clean_ends_are_kept(path, Trim::Wrapper);
}

/// Where the search for a parser stands: what has to be found out or done next, or how it ended.
pub enum OpenAs {
    /// Find out whether some parser supports this extension, which is the path's own.
    CheckExtension(String),
    /// Read the format that was remembered for the document.
    ReadSavedFormat,
    /// Find out whether some parser supports this format, which was remembered.
    CheckSavedFormat(String),
    /// Ask the user how to open the document.
    Ask,
    /// Find out whether some parser supports this format, which the user picked.
    CheckChoice(String),
    /// Remember this format for the document.
    Remember(String),
    /// Tell the user that the format they picked is not supported.
    ReportUnsupported,
    /// Some parser can read the document.
    Ready,
    /// The document cannot be opened.
    Refused,
}

/// What was found out or done.
pub enum OpenAsEvent {
    /// Whether some parser supports the extension or format in question.
    Support(bool),
    /// The format that was remembered for the document; empty where there is none.
    SavedFormat(String),
    /// The format that the user picked, unless they cancelled.
    Choice(Option<String>),
    /// The format was remembered, or the user was told.
    Done,
}

impl OpenAs {
    /// Where the search starts for a path with this extension.
    pub open spec fn started(extension: Seq<char>, state: OpenAs) -> bool {
        if extension.len() == 0 {
            state is Ready
        } else {
            state matches OpenAs::CheckExtension(asked) && asked@ == extension
        }
    }

    /// This event answers this state.
    pub open spec fn expects(self, event: OpenAsEvent) -> bool {
        match self {
            OpenAs::CheckExtension(_) | OpenAs::CheckSavedFormat(_) | OpenAs::CheckChoice(_) => event
                is Support,
            OpenAs::ReadSavedFormat => event is SavedFormat,
            OpenAs::Ask => event is Choice,
            OpenAs::Remember(_) | OpenAs::ReportUnsupported => event is Done,
            OpenAs::Ready | OpenAs::Refused => false,
        }
    }

    /// The state that follows.
    pub open spec fn next(self, event: OpenAsEvent) -> OpenAs {
        match (self, event) {
            (OpenAs::CheckExtension(_), OpenAsEvent::Support(supported)) => if supported {
                OpenAs::Ready
            } else {
                OpenAs::ReadSavedFormat
            },
            (OpenAs::ReadSavedFormat, OpenAsEvent::SavedFormat(format)) => if format@.len() > 0 {
                OpenAs::CheckSavedFormat(format)
            } else {
                OpenAs::Ask
            },
            (OpenAs::CheckSavedFormat(_), OpenAsEvent::Support(supported)) => if supported {
                OpenAs::Ready
            } else {
                OpenAs::Ask
            },
            (OpenAs::Ask, OpenAsEvent::Choice(Some(format))) => OpenAs::CheckChoice(format),
            (OpenAs::Ask, OpenAsEvent::Choice(None)) => OpenAs::Refused,
            (OpenAs::CheckChoice(format), OpenAsEvent::Support(supported)) => if supported {
                OpenAs::Remember(format)
            } else {
                OpenAs::ReportUnsupported
            },
            (OpenAs::Remember(_), OpenAsEvent::Done) => OpenAs::Ready,
            (OpenAs::ReportUnsupported, OpenAsEvent::Done) => OpenAs::Refused,
            (state, _) => state,
        }
    }

    /// Starts the search for a parser for `path`. A path without an extension needs none.
    pub fn start(path: &str) -> (state: OpenAs)
        ensures
            exists|extension: Option<Seq<char>>| #[trigger]
                paths::extension_answer(path@, extension) && OpenAs::started(
                    parser_extension(path@, extension),
                    state,
                ),
            paths::is_file_name(path@) ==> OpenAs::started(
                parser_extension(path@, paths::extension_of(path@)),
                state,
            ),
            paths::ends_in_extension(path@) ==> OpenAs::started(
                parser_extension(path@, paths::extension_of(paths::last_name(path@))),
                state,
            ),
    {
        OpenAs::with_extension(parser_extension_for_path(path))
    }

    /// Starts the search for a parser for a path with this extension.
    pub fn with_extension(extension: String) -> (state: OpenAs)
        ensures
            OpenAs::started(extension@, state),
    {
        if extension.as_str().is_empty() {
            OpenAs::Ready
        } else {
            OpenAs::CheckExtension(extension)
        }
    }

    /// Goes on with what was found out or done. An event that does not answer the state changes
    /// nothing.
    pub fn step(self, event: OpenAsEvent) -> (state: OpenAs)
        ensures
            state == self.next(event),
            !self.expects(event) ==> state == self,
    {
        match (self, event) {
            (OpenAs::CheckExtension(_), OpenAsEvent::Support(supported)) => if supported {
                OpenAs::Ready
            } else {
                OpenAs::ReadSavedFormat
            },
            (OpenAs::ReadSavedFormat, OpenAsEvent::SavedFormat(format)) => if !format.as_str().is_empty() {
                OpenAs::CheckSavedFormat(format)
            } else {
                OpenAs::Ask
            },
            (OpenAs::CheckSavedFormat(_), OpenAsEvent::Support(supported)) => if supported {
                OpenAs::Ready
            } else {
                OpenAs::Ask
            },
            (OpenAs::Ask, OpenAsEvent::Choice(Some(format))) => OpenAs::CheckChoice(format),
            (OpenAs::Ask, OpenAsEvent::Choice(None)) => OpenAs::Refused,
            (OpenAs::CheckChoice(format), OpenAsEvent::Support(supported)) => if supported {
                OpenAs::Remember(format)
            } else {
                OpenAs::ReportUnsupported
            },
            (OpenAs::Remember(_), OpenAsEvent::Done) => OpenAs::Ready,
            (OpenAs::ReportUnsupported, OpenAsEvent::Done) => OpenAs::Refused,
            (state, _) => state,
        }
    }
}

/// Everything that the search can ask for: which extensions some parser supports, the format that was
/// remembered, and what the user picks.
pub struct OpenAsWorld {
    pub supported: Set<Seq<char>>,
    pub saved_format: String,
    pub choice: Option<String>,
}

impl OpenAsWorld {
    /// The answer to what `state` asks for.
    pub open spec fn answer(self, state: OpenAs) -> OpenAsEvent {
        match state {
            OpenAs::CheckExtension(format) => OpenAsEvent::Support(
                self.supported.contains(format@),
            ),
            OpenAs::CheckSavedFormat(format) => OpenAsEvent::Support(
                self.supported.contains(format@),
            ),
            OpenAs::CheckChoice(format) => OpenAsEvent::Support(self.supported.contains(format@)),
            OpenAs::ReadSavedFormat => OpenAsEvent::SavedFormat(self.saved_format),
            OpenAs::Ask => OpenAsEvent::Choice(self.choice),
            _ => OpenAsEvent::Done,
        }
    }

    /// Where the search stands after `steps` answers.
    pub open spec fn run(self, state: OpenAs, steps: nat) -> OpenAs
        decreases steps,
    {
        if steps == 0 {
            state
        } else {
            let before = self.run(state, (steps - 1) as nat);
            before.next(self.answer(before))
        }
    }

    /// The remembered format can be used.
    pub open spec fn saved_format_works(self) -> bool {
        self.saved_format@.len() > 0 && self.supported.contains(self.saved_format@)
    }

    /// The user picked a format that can be used.
    pub open spec fn choice_works(self) -> bool {
        self.choice matches Some(format) && self.supported.contains(format@)
    }
}

/// The search ends after at most six answers. The document is refused exactly when neither its
/// extension nor the remembered format is supported and the user cancels or picks a format that no
/// parser supports.
pub proof fn law_open_as_decides(world: OpenAsWorld, extension: String)
    requires
        extension@.len() > 0,
    ensures
        ({
            let end = world.run(OpenAs::CheckExtension(extension), 6);
            &&& end is Ready || end is Refused
            &&& end is Ready <==> world.supported.contains(extension@)
                || world.saved_format_works() || world.choice_works()
        }),
{
    let start = OpenAs::CheckExtension(extension);
    reveal_with_fuel(OpenAsWorld::run, 7);
}

/// The user is asked only if neither the extension nor the remembered format is supported, and a
/// format is remembered only if the user picked it and some parser supports it.
pub proof fn law_only_a_working_choice_is_remembered(
    world: OpenAsWorld,
    extension: String,
    steps: nat,
)
    requires
        extension@.len() > 0,
    ensures
        world.run(OpenAs::CheckExtension(extension), steps) is Ask ==> !world.supported.contains(
            extension@,
        ) && !world.saved_format_works(),
        world.run(OpenAs::CheckExtension(extension), steps) matches OpenAs::Remember(format)
            ==> world.choice == Some(format) && world.choice_works() && !world.supported.contains(
            extension@,
        ) && !world.saved_format_works(),
    decreases steps,
{
    lemma_open_as_path(world, extension, steps);
}

proof fn lemma_open_as_path(world: OpenAsWorld, extension: String, steps: nat)
    ensures
        match world.run(OpenAs::CheckExtension(extension), steps) {
            OpenAs::CheckExtension(asked) => asked == extension,
            OpenAs::ReadSavedFormat => !world.supported.contains(extension@),
            OpenAs::CheckSavedFormat(format) => !world.supported.contains(extension@) && format
                == world.saved_format && format@.len() > 0,
            OpenAs::Ask => !world.supported.contains(extension@) && !world.saved_format_works(),
            OpenAs::CheckChoice(format) => !world.supported.contains(extension@)
                && !world.saved_format_works() && world.choice == Some(format),
            OpenAs::Remember(format) => !world.supported.contains(extension@)
                && !world.saved_format_works() && world.choice == Some(format)
                && world.choice_works(),
            _ => true,
        },
    decreases steps,
{
    if steps > 0 {
        lemma_open_as_path(world, extension, (steps - 1) as nat);
    }
}

/// The format that stands behind an entry of the list in the "Open As" dialog.
pub open spec fn selected_format(selection: Option<u32>) -> Seq<char> {
    match selection {
        Some(1) => "html"@,
        Some(2) => "md"@,
        _ => "txt"@,
    }
}

/// The format that stands behind an entry of the list in the "Open As" dialog: plain text, which is
/// also taken if nothing is selected, HTML and Markdown.
pub fn format_for_selection(selection: Option<u32>) -> (r: String)
    ensures
        r@ == selected_format(selection),
{
    match selection {
        Some(1) => "html".to_owned(),
        Some(2) => "md".to_owned(),
        _ => "txt".to_owned(),
    }
}

/// The question that the "Open As" dialog asks, in the language that is active.
pub fn open_as_message(path: &str) -> (r: String)
    ensures
        locale::fills(
            "No suitable parser was found for {}.\nHow would you like to open this file?"@,
            path@,
            r@,
        ),
{
    fill_message(
        "No suitable parser was found for {}.\nHow would you like to open this file?",
        path,
    )
}

/// The label of a control as it is read out: without the mark of its access key and the colon at its
/// end.
pub open spec fn spoken_label(label: Seq<char>) -> Seq<char> {
    text::trimmed(
        text::trim_end(text::replaced(label, "&"@, ""@), Trim::Colon),
        Trim::Space,
    )
}

/// The label of a control as it is read out: without the mark of its access key and the colon at its
/// end.
pub fn accessible_label(label: &str) -> (r: String)
    ensures
        r@ == spoken_label(label@),
{
    proof {
        reveal_strlit("&");
    }
    let unmarked = replace_all(label, "&", "");
    trim_string(trim_end_matches(unmarked.as_str(), Trim::Colon).as_str())
}

proof fn lemma_prefix_is_the_longest(s: Seq<char>)
    ensures
        alphanumeric_prefix(s).len() <= s.len(),
        s.take(alphanumeric_prefix(s).len() as int) == alphanumeric_prefix(s),
        alphanumeric_prefix(s).len() < s.len() ==> !is_alphanumeric(
            s[alphanumeric_prefix(s).len() as int],
        ),
    decreases s.len(),
{
    if s.len() > 0 && is_alphanumeric(s.first()) {
        let rest = s.drop_first();
        lemma_prefix_is_the_longest(rest);
        let n = alphanumeric_prefix(rest).len() as int;
        assert(s.take(n + 1) =~= seq![s.first()] + rest.take(n));
        if n < rest.len() {
            assert(s[n + 1] == rest[n]);
        }
    } else {
        assert(s.take(0) =~= Seq::<char>::empty());
    }
}

/// A token is an extension as far as it is made of ASCII letters and digits: the longest row of them at its
/// start, once its wrapping is gone.
pub proof fn law_token_is_letters_and_digits(raw: Seq<char>, c: char)
    ensures
        ({
            let inner = unwrapped(raw);
            let token = cleaned_token(raw);
            &&& token.len() <= inner.len()
            &&& token == inner.take(token.len() as int)
            &&& forall|i: int| 0 <= i < token.len() ==> is_alphanumeric(#[trigger] token[i])
            &&& token.len() < inner.len() ==> !is_alphanumeric(inner[token.len() as int])
        }),
        is_alphanumeric(c) <==> 48 <= c as u32 <= 57 || 65 <= c as u32 <= 90 || 97 <= c as u32
            <= 122,
{
    lemma_prefix_is_the_longest(unwrapped(raw));
    lemma_prefix_is_alphanumeric(unwrapped(raw));
}

/// The wrapping of a text is white space around it and, inside that, quotation marks and NULs; the text
/// between them is kept.
pub proof fn law_wrapping_is_taken_off(
    space_before: Seq<char>,
    wrapper_before: Seq<char>,
    inner: Seq<char>,
    wrapper_after: Seq<char>,
    space_after: Seq<char>,
)
    requires
        inner.len() > 0,
        text::has_clean_ends(inner, Trim::Space),
        text::has_clean_ends(inner, Trim::Wrapper),
        text::all_accepted(space_before, Trim::Space),
        text::all_accepted(space_after, Trim::Space),
        text::all_accepted(wrapper_before, Trim::Wrapper),
        text::all_accepted(wrapper_after, Trim::Wrapper),
    ensures
        unwrapped(space_before + (wrapper_before + inner + wrapper_after) + space_after) == inner,
{
    let middle = wrapper_before + inner + wrapper_after;
    if wrapper_before.len() > 0 {
        assert(middle.first() == wrapper_before[0]);
        assert(Trim::Wrapper.accepts(wrapper_before[0]));
    } else {
        assert(middle.first() == inner[0]);
    }
    if wrapper_after.len() > 0 {
        assert(middle.last() == wrapper_after[wrapper_after.len() - 1]);
        assert(Trim::Wrapper.accepts(wrapper_after[wrapper_after.len() - 1]));
    } else {
        assert(middle.last() == inner[inner.len() - 1]);
    }
    text::lemma_surroundings_are_trimmed(space_before, middle, space_after, Trim::Space);
    text::lemma_surroundings_are_trimmed(wrapper_before, inner, wrapper_after, Trim::Wrapper);
}

/// The extension that the platform sees decides if it starts with a letter or digit. Otherwise the
/// extension is read out of the path as it is written: behind the last dot of the part behind the last
/// slash or backslash, and nothing where there is no dot.
pub proof fn law_extension_is_chosen(
    path: &str,
    extension: Option<String>,
    r: String,
    directory: Seq<char>,
    stem: Seq<char>,
    ending: Seq<char>,
)
    requires
        call_ensures(choose_parser_extension, (path, extension), r),
    ensures
        extension matches Some(found) ==> (cleaned_token(found@).len() > 0 ==> r@ == cleaned_token(
            found@,
        )),
        (extension matches Some(found) ==> cleaned_token(found@).len() == 0) && is_directory(
            directory,
        ) && !has_separator(stem) && !has_separator(ending) && !ending.contains('.') && unwrapped(
            path@,
        ) == directory + stem + seq!['.'] + ending ==> r@ == cleaned_token(
            text::trimmed(ending, Trim::Space),
        ),
        (extension matches Some(found) ==> cleaned_token(found@).len() == 0) && is_directory(
            directory,
        ) && !has_separator(stem) && !stem.contains('.') && unwrapped(path@) == directory + stem
            ==> r@.len() == 0,
{
    lemma_nothing_is_cleaned();
    let whole = unwrapped(path@);
    let separators = seq!['/', '\\'];
    assert(separators[0] == '/' && separators[1] == '\\');
    if is_directory(directory) && !has_separator(stem) && !has_separator(ending)
        && !ending.contains('.') && whole == directory + stem + seq!['.'] + ending {
        let name = stem + seq!['.'] + ending;
        assert(!has_separator(name)) by {
            if has_separator(name) {
                let i = choose|i: int|
                    0 <= i < name.len() && paths::is_separator(#[trigger] name[i]);
                if i < stem.len() {
                    assert(paths::is_separator(stem[i]));
                } else if i > stem.len() {
                    assert(paths::is_separator(ending[i - stem.len() - 1]));
                }
            }
        }
        assert(whole =~= directory + name);
        lemma_last_part(directory, name);
        paths::lemma_last_dot(stem, ending);
        assert(name.skip(stem.len() as int + 1) =~= ending);
    }
    if is_directory(directory) && !has_separator(stem) && !stem.contains('.') && whole == directory
        + stem {
        lemma_last_part(directory, stem);
        text::law_last_position(stem, seq!['.']);
        let dot = text::last_of(stem, seq!['.']);
        if dot >= 0 {
            assert(stem[dot] == '.');
        }
        assert(text::trimmed(Seq::<char>::empty(), Trim::Space) =~= Seq::<char>::empty());
    }
}

/// The directory of a path, with the separator behind it, or nothing.
pub open spec fn is_directory(s: Seq<char>) -> bool {
    s.len() > 0 ==> paths::is_separator(s.last())
}

/// There is a slash or backslash in `s`.
pub open spec fn has_separator(s: Seq<char>) -> bool {
    exists|i: int| 0 <= i < s.len() && paths::is_separator(#[trigger] s[i])
}

proof fn lemma_last_part(directory: Seq<char>, name: Seq<char>)
    requires
        is_directory(directory),
        !has_separator(name),
    ensures
        last_part(directory + name) == name,
{
    let whole = directory + name;
    let set = seq!['/', '\\'];
    assert(set[0] == '/' && set[1] == '\\');
    text::law_last_position(whole, set);
    let at = text::last_of(whole, set);
    if at >= directory.len() {
        assert(whole[at] == name[at - directory.len()]);
        assert(paths::is_separator(name[at - directory.len()]));
    }
    if directory.len() > 0 {
        assert(whole[directory.len() - 1] == directory.last());
        assert(set.contains(whole[directory.len() - 1]));
    }
    assert(at == directory.len() - 1);
    assert(whole.skip(at + 1) =~= name);
}

/// The search for a parser, answer by answer: the extension first, then the format that was remembered,
/// then the user. What the user picks is remembered if some parser supports it, and refused otherwise.
pub proof fn law_search_goes_step_by_step(state: OpenAs, event: OpenAsEvent, r: OpenAs)
    requires
        call_ensures(OpenAs::step, (state, event), r),
    ensures
        state is CheckExtension ==> {
            &&& event == OpenAsEvent::Support(true) ==> r is Ready
            &&& event == OpenAsEvent::Support(false) ==> r is ReadSavedFormat
        },
        state is ReadSavedFormat ==> (event matches OpenAsEvent::SavedFormat(format) ==> {
            &&& format@.len() > 0 ==> r == OpenAs::CheckSavedFormat(format)
            &&& format@.len() == 0 ==> r is Ask
        }),
        state is CheckSavedFormat ==> {
            &&& event == OpenAsEvent::Support(true) ==> r is Ready
            &&& event == OpenAsEvent::Support(false) ==> r is Ask
        },
        state is Ask ==> (event matches OpenAsEvent::Choice(choice) ==> {
            &&& choice matches Some(format) ==> r == OpenAs::CheckChoice(format)
            &&& choice is None ==> r is Refused
        }),
        state matches OpenAs::CheckChoice(format) ==> {
            &&& event == OpenAsEvent::Support(true) ==> r == OpenAs::Remember(format)
            &&& event == OpenAsEvent::Support(false) ==> r is ReportUnsupported
        },
        state is Remember && event is Done ==> r is Ready,
        state is ReportUnsupported && event is Done ==> r is Refused,
        state is Ready || state is Refused ==> r == state,
        event is Support && !(state is CheckExtension || state is CheckSavedFormat || state
            is CheckChoice) ==> r == state,
        event is SavedFormat && !(state is ReadSavedFormat) ==> r == state,
        event is Choice && !(state is Ask) ==> r == state,
        event is Done && !(state is Remember || state is ReportUnsupported) ==> r == state,
{
}

/// A path without an extension needs no parser of its own; any other starts with its extension.
pub proof fn law_search_starts_with_the_extension(
    extension: String,
    r: OpenAs,
    path: &str,
    started: OpenAs,
    stem: Seq<char>,
    ending: Seq<char>,
)
    requires
        call_ensures(OpenAs::with_extension, (extension,), r),
        call_ensures(OpenAs::start, (path,), started),
    ensures
        extension@.len() == 0 ==> r is Ready,
        extension@.len() > 0 ==> (r matches OpenAs::CheckExtension(asked) && asked@ == extension@),
        paths::is_file_name(path@) && path@ == stem + seq!['.'] + ending && stem.len() > 0
            && ending.len() > 0 && (forall|i: int|
            0 <= i < ending.len() ==> is_alphanumeric(#[trigger] ending[i])) ==> (
        started matches OpenAs::CheckExtension(asked) && asked@ == ending),
{
    if stem.len() > 0 && ending.len() > 0 && forall|i: int|
        0 <= i < ending.len() ==> is_alphanumeric(#[trigger] ending[i]) {
        law_extension_follows_the_last_dot(stem, ending);
    }
}

/// The extension of a file name is what follows its last dot.
pub proof fn law_parser_is_chosen_by_the_extension(
    path: &str,
    r: String,
    stem: Seq<char>,
    ending: Seq<char>,
)
    requires
        call_ensures(parser_extension_for_path, (path,), r),
        paths::is_file_name(path@),
        path@ == stem + seq!['.'] + ending,
        stem.len() > 0,
        ending.len() > 0,
        forall|i: int| 0 <= i < ending.len() ==> is_alphanumeric(#[trigger] ending[i]),
    ensures
        r@ == ending,
{
    law_extension_follows_the_last_dot(stem, ending);
}

/// The second entry of the "Open As" dialog stands for HTML, the third for Markdown, and the first, or
/// none, for plain text. The dialog names the document.
pub proof fn law_formats_on_offer(
    selection: Option<u32>,
    format: String,
    path: &str,
    message: String,
)
    requires
        call_ensures(format_for_selection, (selection,), format),
        call_ensures(open_as_message, (path,), message),
    ensures
        selection is None || selection == Some(0u32) ==> format@ == "txt"@,
        selection == Some(1u32) ==> format@ == "html"@,
        selection == Some(2u32) ==> format@ == "md"@,
        selection matches Some(entry) ==> (entry > 2 ==> format@ == "txt"@),
        exists|template: Seq<char>| #[trigger]
            locale::translation_answer(
                "No suitable parser was found for {}.\nHow would you like to open this file?"@,
                template,
            ) && message@ == text::replaced(template, "{}"@, path@),
{
}

proof fn lemma_label_without_marks(label: Seq<char>)
    requires
        !label.contains('&'),
    ensures
        text::replaced(label, "&"@, ""@) == label,
{
    reveal_strlit("&");
    assert forall|i: int| !text::occurs_at(label, "&"@, i) by {
        if text::occurs_at(label, "&"@, i) {
            assert(label.subrange(i, i + 1)[0] == '&');
            assert(label[i] == '&');
        }
    }
    text::law_replacing_nothing_changes_nothing(label, "&"@, ""@);
}

/// The mark of an access key does not change how a label is read out: with the mark it reads as without
/// it.
pub proof fn law_access_keys_are_not_read_out(
    marked: &str,
    plain: &str,
    before: Seq<char>,
    after: Seq<char>,
    marked_reading: String,
    plain_reading: String,
)
    requires
        call_ensures(accessible_label, (marked,), marked_reading),
        call_ensures(accessible_label, (plain,), plain_reading),
        marked@ == before + seq!['&'] + after,
        plain@ == before + after,
        !before.contains('&'),
    ensures
        marked_reading@ == plain_reading@,
{
    reveal_strlit("&");
    reveal_strlit("");
    let mark = "&"@;
    assert(mark =~= seq!['&']);
    assert(""@ =~= Seq::<char>::empty());
    let whole = before + mark + after;
    assert forall|i: int| 0 <= i < before.len() implies !text::occurs_at(whole, mark, i) by {
        if text::occurs_at(whole, mark, i) {
            assert(whole.subrange(i, i + 1)[0] == '&');
            assert(before[i] == '&');
        }
    }
    text::lemma_first_occurrence(before, mark, after, ""@);
    lemma_replaced_behind(before, after);
    assert(before + ""@ + text::replaced(after, mark, ""@) =~= before + text::replaced(
        after,
        mark,
        ""@,
    ));
}

proof fn lemma_replaced_behind(before: Seq<char>, after: Seq<char>)
    requires
        !before.contains('&'),
    ensures
        text::replaced(before + after, "&"@, ""@) == before + text::replaced(after, "&"@, ""@),
    decreases before.len(),
{
    reveal_strlit("&");
    let whole = before + after;
    if before.len() == 0 {
        assert(whole =~= after);
        assert(before + text::replaced(after, "&"@, ""@) =~= text::replaced(after, "&"@, ""@));
    } else {
        let rest = before.drop_first();
        assert(whole.skip(1) =~= rest + after);
        assert(whole.first() == before[0]);
        if text::occurs_at(whole, "&"@, 0) {
            assert(whole.subrange(0, 1)[0] == '&');
            assert(before.contains('&'));
        }
        assert(!rest.contains('&')) by {
            if rest.contains('&') {
                let i = choose|i: int| 0 <= i < rest.len() && rest[i] == '&';
                assert(before[i + 1] == '&');
            }
        }
        lemma_replaced_behind(rest, after);
        assert(seq![before.first()] + (rest + text::replaced(after, "&"@, ""@)) =~= before
            + text::replaced(after, "&"@, ""@));
    }
}

/// The colons at the very end of a label and the white space around what is left are not read out; colons
/// elsewhere are.
pub proof fn law_labels_are_read_out(
    label: &str,
    r: String,
    space: Seq<char>,
    words: Seq<char>,
    colons: Seq<char>,
)
    requires
        call_ensures(accessible_label, (label,), r),
        text::all_accepted(space, Trim::Space),
        words.len() > 0,
        text::has_clean_ends(words, Trim::Space),
        !words.contains('&'),
        words.last() != ':',
        text::all_accepted(colons, Trim::Colon),
    ensures
        label@ == space + words + colons ==> r@ == words,
        label@ == words + colons + space && space.len() > 0 ==> r@ == words + colons,
{
    let none = Seq::<char>::empty();
    if label@ == space + words + colons {
        assert(!label@.contains('&')) by {
            if label@.contains('&') {
                let i = choose|i: int| 0 <= i < label@.len() && label@[i] == '&';
                if i < space.len() {
                    assert(Trim::Space.accepts(space[i]));
                } else if i < space.len() + words.len() {
                    assert(words[i - space.len()] == '&');
                } else {
                    assert(Trim::Colon.accepts(colons[i - space.len() - words.len()]));
                }
            }
        }
        lemma_label_without_marks(label@);
        lemma_colons_are_cut(space + words, colons);
        text::lemma_surroundings_are_trimmed(space, words, none, Trim::Space);
        assert(space + words + none =~= space + words);
    }
    if label@ == words + colons + space && space.len() > 0 {
        let inner = words + colons;
        assert(!label@.contains('&')) by {
            if label@.contains('&') {
                let i = choose|i: int| 0 <= i < label@.len() && label@[i] == '&';
                if i < words.len() {
                    assert(words[i] == '&');
                } else if i < inner.len() {
                    assert(Trim::Colon.accepts(colons[i - words.len()]));
                } else {
                    assert(Trim::Space.accepts(space[i - inner.len()]));
                }
            }
        }
        lemma_label_without_marks(label@);
        assert(label@.last() == space[space.len() - 1]);
        assert(Trim::Space.accepts(space[space.len() - 1]));
        assert(text::trim_end(label@, Trim::Colon) == label@);
        assert(inner.first() == words.first());
        if colons.len() > 0 {
            assert(inner.last() == colons[colons.len() - 1]);
            assert(Trim::Colon.accepts(colons[colons.len() - 1]));
        } else {
            assert(inner =~= words);
        }
        text::lemma_surroundings_are_trimmed(none, inner, space, Trim::Space);
        assert(none + inner + space =~= label@);
    }
}

proof fn lemma_colons_are_cut(s: Seq<char>, colons: Seq<char>)
    requires
        s.len() > 0,
        s.last() != ':',
        text::all_accepted(colons, Trim::Colon),
    ensures
        text::trim_end(s + colons, Trim::Colon) == s,
    decreases colons.len(),
{
    let whole = s + colons;
    if colons.len() == 0 {
        assert(whole =~= s);
    } else {
        assert(Trim::Colon.accepts(colons[colons.len() - 1]));
        assert(whole.last() == colons.last());
        assert(whole.drop_last() =~= s + colons.drop_last());
        assert forall|i: int| 0 <= i < colons.drop_last().len() implies Trim::Colon.accepts(
            #[trigger] colons.drop_last()[i],
        ) by {
            assert(colons.drop_last()[i] == colons[i]);
        }
        lemma_colons_are_cut(s, colons.drop_last());
    }
}

} // verus!
