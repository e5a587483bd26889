//! What the entries of the menus do.

use vstd::prelude::*;

verus! {

/// The entries of the menus.
#[derive(Debug, Clone, Copy, PartialEq, Eq, Structural)]
pub enum MenuCommand {
    Open,
    Close,
    CloseAll,
    ReopenLastClosed,
    Exit,
    Find,
    FindNext,
    FindPrevious,
    GoToLine,
    GoToPage,
    GoToPercent,
    GoBack,
    GoForward,
    PreviousSection,
    NextSection,
    PreviousHeading,
    NextHeading,
    PreviousHeading1,
    NextHeading1,
    PreviousHeading2,
    NextHeading2,
    PreviousHeading3,
    NextHeading3,
    PreviousHeading4,
    NextHeading4,
    PreviousHeading5,
    NextHeading5,
    PreviousHeading6,
    NextHeading6,
    PreviousPage,
    NextPage,
    PreviousBookmark,
    NextBookmark,
    PreviousNote,
    NextNote,
    JumpToAllBookmarks,
    JumpToBookmarksOnly,
    JumpToNotesOnly,
    ToggleBookmark,
    BookmarkWithNote,
    ToggleWordWrap,
    ViewNoteText,
    PreviousLink,
    NextLink,
    PreviousImage,
    NextImage,
    PreviousFigure,
    NextFigure,
    PreviousTable,
    NextTable,
    PreviousSeparator,
    NextSeparator,
    PreviousList,
    NextList,
    PreviousListItem,
    NextListItem,
    ContainerStart,
    ContainerEnd,
    ExportToPlainText,
    ExportToHtml,
    ExportToMarkdown,
    ExportDocumentData,
    ImportDocumentData,
    WordCount,
    DocumentInfo,
    TableOfContents,
    ElementsList,
    OpenInWebView,
    RevealFileInFolder,
    ViewSource,
    Options,
    Preferences,
    SleepTimer,
    About,
    ViewHelpBrowser,
    ViewHelpPaperback,
    CheckForUpdates,
    Donate,
    ShowAllDocuments,
}

/// What marks a place in a document that can be navigated to. A heading has a level from 1 to 6; 0
/// stands for any level.
#[derive(Debug, Clone, Copy, PartialEq, Eq, Structural)]
pub enum MarkerNavTarget {
    Section,
    Heading(i32),
    Page,
    Link,
    Image,
    Figure,
    Table,
    Separator,
    List,
    ListItem,
}

/// Which bookmarks are listed.
#[derive(Debug, Clone, Copy, PartialEq, Eq, Structural)]
pub enum BookmarkFilterType {
    All,
    BookmarksOnly,
    NotesOnly,
}

/// A movement of the caret.
#[derive(Debug, Clone, Copy, PartialEq, Eq, Structural)]
pub enum Movement {
    /// To the next or previous place that was visited.
    History { forward: bool },
    /// To the next or previous marker.
    Marker { target: MarkerNavTarget, forward: bool },
    /// To the next or previous bookmark, or note.
    Bookmark { forward: bool, notes_only: bool },
    /// To the start or the end of the list, table or other container around the caret.
    Container { to_end: bool },
}

/// The menu entries that do nothing while no document is open.
pub open spec fn is_for_document(command: MenuCommand) -> bool {
    match command {
        MenuCommand::GoToLine => true,
        MenuCommand::GoToPage => true,
        MenuCommand::GoToPercent => true,
        MenuCommand::ExportToPlainText => true,
        MenuCommand::ExportToHtml => true,
        MenuCommand::ExportToMarkdown => true,
        MenuCommand::ExportDocumentData => true,
        MenuCommand::ImportDocumentData => true,
        MenuCommand::WordCount => true,
        MenuCommand::DocumentInfo => true,
        MenuCommand::TableOfContents => true,
        MenuCommand::ElementsList => true,
        MenuCommand::OpenInWebView => true,
        MenuCommand::ViewSource => true,
        _ => false,
    }
}

/// Whether a menu entry is passed over because no document is open.
pub fn is_passed_over(command: MenuCommand, has_active_document: bool) -> (r: bool)
    ensures
        r == (is_for_document(command) && !has_active_document),
{
    let for_document = match command {
        MenuCommand::GoToLine
        | MenuCommand::GoToPage
        | MenuCommand::GoToPercent
        | MenuCommand::ExportToPlainText
        | MenuCommand::ExportToHtml
        | MenuCommand::ExportToMarkdown
        | MenuCommand::ExportDocumentData
        | MenuCommand::ImportDocumentData
        | MenuCommand::WordCount
        | MenuCommand::DocumentInfo
        | MenuCommand::TableOfContents
        | MenuCommand::ElementsList
        | MenuCommand::OpenInWebView
        | MenuCommand::ViewSource => true,
        _ => false,
    };
    for_document && !has_active_document
}

/// The movement that a menu entry asks for.
pub open spec fn movement_of(command: MenuCommand) -> Option<Movement> {
    match command {
        MenuCommand::GoBack => Some(Movement::History { forward: false }),
        MenuCommand::GoForward => Some(Movement::History { forward: true }),
        MenuCommand::PreviousBookmark => Some(
            Movement::Bookmark { forward: false, notes_only: false },
        ),
        MenuCommand::NextBookmark => Some(Movement::Bookmark { forward: true, notes_only: false }),
        MenuCommand::PreviousNote => Some(Movement::Bookmark { forward: false, notes_only: true }),
        MenuCommand::NextNote => Some(Movement::Bookmark { forward: true, notes_only: true }),
        MenuCommand::ContainerStart => Some(Movement::Container { to_end: false }),
        MenuCommand::ContainerEnd => Some(Movement::Container { to_end: true }),
        _ => match marker_of(command) {
            Some((target, forward)) => Some(Movement::Marker { target, forward }),
            None => None,
        },
    }
}

/// The marker that a menu entry moves to, and whether it moves forward.
pub open spec fn marker_of(command: MenuCommand) -> Option<(MarkerNavTarget, bool)> {
    match command {
        MenuCommand::PreviousSection => Some((MarkerNavTarget::Section, false)),
        MenuCommand::NextSection => Some((MarkerNavTarget::Section, true)),
        MenuCommand::PreviousHeading => Some((MarkerNavTarget::Heading(0), false)),
        MenuCommand::NextHeading => Some((MarkerNavTarget::Heading(0), true)),
        MenuCommand::PreviousHeading1 => Some((MarkerNavTarget::Heading(1), false)),
        MenuCommand::NextHeading1 => Some((MarkerNavTarget::Heading(1), true)),
        MenuCommand::PreviousHeading2 => Some((MarkerNavTarget::Heading(2), false)),
        MenuCommand::NextHeading2 => Some((MarkerNavTarget::Heading(2), true)),
        MenuCommand::PreviousHeading3 => Some((MarkerNavTarget::Heading(3), false)),
        MenuCommand::NextHeading3 => Some((MarkerNavTarget::Heading(3), true)),
        MenuCommand::PreviousHeading4 => Some((MarkerNavTarget::Heading(4), false)),
        MenuCommand::NextHeading4 => Some((MarkerNavTarget::Heading(4), true)),
        MenuCommand::PreviousHeading5 => Some((MarkerNavTarget::Heading(5), false)),
        MenuCommand::NextHeading5 => Some((MarkerNavTarget::Heading(5), true)),
        MenuCommand::PreviousHeading6 => Some((MarkerNavTarget::Heading(6), false)),
        MenuCommand::NextHeading6 => Some((MarkerNavTarget::Heading(6), true)),
        MenuCommand::PreviousPage => Some((MarkerNavTarget::Page, false)),
        MenuCommand::NextPage => Some((MarkerNavTarget::Page, true)),
        MenuCommand::PreviousLink => Some((MarkerNavTarget::Link, false)),
        MenuCommand::NextLink => Some((MarkerNavTarget::Link, true)),
        MenuCommand::PreviousImage => Some((MarkerNavTarget::Image, false)),
        MenuCommand::NextImage => Some((MarkerNavTarget::Image, true)),
        MenuCommand::PreviousFigure => Some((MarkerNavTarget::Figure, false)),
        MenuCommand::NextFigure => Some((MarkerNavTarget::Figure, true)),
        MenuCommand::PreviousTable => Some((MarkerNavTarget::Table, false)),
        MenuCommand::NextTable => Some((MarkerNavTarget::Table, true)),
        MenuCommand::PreviousSeparator => Some((MarkerNavTarget::Separator, false)),
        MenuCommand::NextSeparator => Some((MarkerNavTarget::Separator, true)),
        MenuCommand::PreviousList => Some((MarkerNavTarget::List, false)),
        MenuCommand::NextList => Some((MarkerNavTarget::List, true)),
        MenuCommand::PreviousListItem => Some((MarkerNavTarget::ListItem, false)),
        MenuCommand::NextListItem => Some((MarkerNavTarget::ListItem, true)),
        _ => None,
    }
}

/// The marker that a menu entry moves to, and whether it moves forward.
fn marker_for(command: MenuCommand) -> (r: Option<(MarkerNavTarget, bool)>)
    ensures
        r == marker_of(command),
{
    let (target, forward) = match command {
        MenuCommand::PreviousSection => (MarkerNavTarget::Section, false),
        MenuCommand::NextSection => (MarkerNavTarget::Section, true),
        MenuCommand::PreviousHeading => (MarkerNavTarget::Heading(0), false),
        MenuCommand::NextHeading => (MarkerNavTarget::Heading(0), true),
        MenuCommand::PreviousHeading1 => (MarkerNavTarget::Heading(1), false),
        MenuCommand::NextHeading1 => (MarkerNavTarget::Heading(1), true),
        MenuCommand::PreviousHeading2 => (MarkerNavTarget::Heading(2), false),
        MenuCommand::NextHeading2 => (MarkerNavTarget::Heading(2), true),
        MenuCommand::PreviousHeading3 => (MarkerNavTarget::Heading(3), false),
        MenuCommand::NextHeading3 => (MarkerNavTarget::Heading(3), true),
        MenuCommand::PreviousHeading4 => (MarkerNavTarget::Heading(4), false),
        MenuCommand::NextHeading4 => (MarkerNavTarget::Heading(4), true),
        MenuCommand::PreviousHeading5 => (MarkerNavTarget::Heading(5), false),
        MenuCommand::NextHeading5 => (MarkerNavTarget::Heading(5), true),
        MenuCommand::PreviousHeading6 => (MarkerNavTarget::Heading(6), false),
        MenuCommand::NextHeading6 => (MarkerNavTarget::Heading(6), true),
        MenuCommand::PreviousPage => (MarkerNavTarget::Page, false),
        MenuCommand::NextPage => (MarkerNavTarget::Page, true),
        MenuCommand::PreviousLink => (MarkerNavTarget::Link, false),
        MenuCommand::NextLink => (MarkerNavTarget::Link, true),
        MenuCommand::PreviousImage => (MarkerNavTarget::Image, false),
        MenuCommand::NextImage => (MarkerNavTarget::Image, true),
        MenuCommand::PreviousFigure => (MarkerNavTarget::Figure, false),
        MenuCommand::NextFigure => (MarkerNavTarget::Figure, true),
        MenuCommand::PreviousTable => (MarkerNavTarget::Table, false),
        MenuCommand::NextTable => (MarkerNavTarget::Table, true),
        MenuCommand::PreviousSeparator => (MarkerNavTarget::Separator, false),
        MenuCommand::NextSeparator => (MarkerNavTarget::Separator, true),
        MenuCommand::PreviousList => (MarkerNavTarget::List, false),
        MenuCommand::NextList => (MarkerNavTarget::List, true),
        MenuCommand::PreviousListItem => (MarkerNavTarget::ListItem, false),
        MenuCommand::NextListItem => (MarkerNavTarget::ListItem, true),
        _ => {
            return None;
        },
    };
    Some((target, forward))
}

/// The movement that a menu entry asks for, if it asks for one.
pub fn movement(command: MenuCommand) -> (r: Option<Movement>)
    ensures
        r == movement_of(command),
{
    match command {
        MenuCommand::GoBack => Some(Movement::History { forward: false }),
        MenuCommand::GoForward => Some(Movement::History { forward: true }),
        MenuCommand::PreviousBookmark => Some(
            Movement::Bookmark { forward: false, notes_only: false },
        ),
        MenuCommand::NextBookmark => Some(Movement::Bookmark { forward: true, notes_only: false }),
        MenuCommand::PreviousNote => Some(Movement::Bookmark { forward: false, notes_only: true }),
        MenuCommand::NextNote => Some(Movement::Bookmark { forward: true, notes_only: true }),
        MenuCommand::ContainerStart => Some(Movement::Container { to_end: false }),
        MenuCommand::ContainerEnd => Some(Movement::Container { to_end: true }),
        _ => match marker_for(command) {
            Some((target, forward)) => Some(Movement::Marker { target, forward }),
            None => None,
        },
    }
}

/// The movement the other way.
pub open spec fn reversed(movement: Movement) -> Movement {
    match movement {
        Movement::History { forward } => Movement::History { forward: !forward },
        Movement::Marker { target, forward } => Movement::Marker { target, forward: !forward },
        Movement::Bookmark { forward, notes_only } => Movement::Bookmark {
            forward: !forward,
            notes_only,
        },
        Movement::Container { to_end } => Movement::Container { to_end: !to_end },
    }
}

/// Every movement that a menu entry asks for has another entry for the way back, and no two entries
/// ask for the same movement.
pub proof fn law_movements_come_in_pairs(command: MenuCommand, other: MenuCommand)
    requires
        movement_of(command) is Some,
    ensures
        exists|back: MenuCommand| #[trigger]
            movement_of(back) == Some(reversed(movement_of(command)->0)),
        movement_of(other) == movement_of(command) ==> other == command,
{
    let back = match command {
        MenuCommand::GoBack => MenuCommand::GoForward,
        MenuCommand::GoForward => MenuCommand::GoBack,
        MenuCommand::PreviousSection => MenuCommand::NextSection,
        MenuCommand::NextSection => MenuCommand::PreviousSection,
        MenuCommand::PreviousHeading => MenuCommand::NextHeading,
        MenuCommand::NextHeading => MenuCommand::PreviousHeading,
        MenuCommand::PreviousHeading1 => MenuCommand::NextHeading1,
        MenuCommand::NextHeading1 => MenuCommand::PreviousHeading1,
        MenuCommand::PreviousHeading2 => MenuCommand::NextHeading2,
        MenuCommand::NextHeading2 => MenuCommand::PreviousHeading2,
        MenuCommand::PreviousHeading3 => MenuCommand::NextHeading3,
        MenuCommand::NextHeading3 => MenuCommand::PreviousHeading3,
        MenuCommand::PreviousHeading4 => MenuCommand::NextHeading4,
        MenuCommand::NextHeading4 => MenuCommand::PreviousHeading4,
        MenuCommand::PreviousHeading5 => MenuCommand::NextHeading5,
        MenuCommand::NextHeading5 => MenuCommand::PreviousHeading5,
        MenuCommand::PreviousHeading6 => MenuCommand::NextHeading6,
        MenuCommand::NextHeading6 => MenuCommand::PreviousHeading6,
        MenuCommand::PreviousPage => MenuCommand::NextPage,
        MenuCommand::NextPage => MenuCommand::PreviousPage,
        MenuCommand::PreviousBookmark => MenuCommand::NextBookmark,
        MenuCommand::NextBookmark => MenuCommand::PreviousBookmark,
        MenuCommand::PreviousNote => MenuCommand::NextNote,
        MenuCommand::NextNote => MenuCommand::PreviousNote,
        MenuCommand::PreviousLink => MenuCommand::NextLink,
        MenuCommand::NextLink => MenuCommand::PreviousLink,
        MenuCommand::PreviousImage => MenuCommand::NextImage,
        MenuCommand::NextImage => MenuCommand::PreviousImage,
        MenuCommand::PreviousFigure => MenuCommand::NextFigure,
        MenuCommand::NextFigure => MenuCommand::PreviousFigure,
        MenuCommand::PreviousTable => MenuCommand::NextTable,
        MenuCommand::NextTable => MenuCommand::PreviousTable,
        MenuCommand::PreviousSeparator => MenuCommand::NextSeparator,
        MenuCommand::NextSeparator => MenuCommand::PreviousSeparator,
        MenuCommand::PreviousList => MenuCommand::NextList,
        MenuCommand::NextList => MenuCommand::PreviousList,
        MenuCommand::PreviousListItem => MenuCommand::NextListItem,
        MenuCommand::NextListItem => MenuCommand::PreviousListItem,
        MenuCommand::ContainerStart => MenuCommand::ContainerEnd,
        _ => MenuCommand::ContainerStart,
    };
    assert(movement_of(back) == Some(reversed(movement_of(command)->0)));
}

/// The bookmarks that a menu entry lists, if it lists them.
pub fn bookmark_list(command: MenuCommand) -> (r: Option<BookmarkFilterType>)
    ensures
        r == (match command {
            MenuCommand::JumpToAllBookmarks => Some(BookmarkFilterType::All),
            MenuCommand::JumpToBookmarksOnly => Some(BookmarkFilterType::BookmarksOnly),
            MenuCommand::JumpToNotesOnly => Some(BookmarkFilterType::NotesOnly),
            _ => None,
        }),
{
    match command {
        MenuCommand::JumpToAllBookmarks => Some(BookmarkFilterType::All),
        MenuCommand::JumpToBookmarksOnly => Some(BookmarkFilterType::BookmarksOnly),
        MenuCommand::JumpToNotesOnly => Some(BookmarkFilterType::NotesOnly),
        _ => None,
    }
}

/// The recent document that the menu entry `id` opens, where the entries for recent documents have the
/// identifiers from `base` to `last` and `listed` of them are shown.
pub fn recent_document(id: i32, base: i32, last: i32, listed: usize) -> (r: Option<usize>)
    requires
        base <= id <= last ==> id - base <= i32::MAX,
    ensures
        match r {
            Some(index) => base <= id <= last && index == id - base && index < listed,
            None => !(base <= id <= last) || id - base >= listed,
        },
{
    if id < base || id > last {
        return None;
    }
    let index: usize = (id - base) as usize;
    if index < listed {
        Some(index)
    } else {
        None
    }
}

/// The movement goes to the next or previous marker of this kind.
pub open spec fn goes_to_marker(
    movement: Option<Movement>,
    target: MarkerNavTarget,
    forward: bool,
) -> bool {
    movement == Some(Movement::Marker { target, forward })
}

/// Every "Next" entry moves forward and every "Previous" entry moves backward, to the marker, bookmark
/// or note that the entry is named after, and no other entry does. "Back" and "Forward" go through the
/// places that were visited, and the container entries go to the start and the end of the container.
pub proof fn law_entries_move_as_they_are_named(command: MenuCommand, r: Option<Movement>)
    requires
        call_ensures(movement, (command,), r),
    ensures
        goes_to_marker(r, MarkerNavTarget::Section, true) <==> command == MenuCommand::NextSection,
        goes_to_marker(r, MarkerNavTarget::Section, false) <==> command == MenuCommand::PreviousSection,
        goes_to_marker(r, MarkerNavTarget::Heading(0), true) <==> command == MenuCommand::NextHeading,
        goes_to_marker(r, MarkerNavTarget::Heading(0), false) <==> command == MenuCommand::PreviousHeading,
        goes_to_marker(r, MarkerNavTarget::Heading(1), true) <==> command == MenuCommand::NextHeading1,
        goes_to_marker(r, MarkerNavTarget::Heading(1), false) <==> command == MenuCommand::PreviousHeading1,
        goes_to_marker(r, MarkerNavTarget::Heading(2), true) <==> command == MenuCommand::NextHeading2,
        goes_to_marker(r, MarkerNavTarget::Heading(2), false) <==> command == MenuCommand::PreviousHeading2,
        goes_to_marker(r, MarkerNavTarget::Heading(3), true) <==> command == MenuCommand::NextHeading3,
        goes_to_marker(r, MarkerNavTarget::Heading(3), false) <==> command == MenuCommand::PreviousHeading3,
        goes_to_marker(r, MarkerNavTarget::Heading(4), true) <==> command == MenuCommand::NextHeading4,
        goes_to_marker(r, MarkerNavTarget::Heading(4), false) <==> command == MenuCommand::PreviousHeading4,
        goes_to_marker(r, MarkerNavTarget::Heading(5), true) <==> command == MenuCommand::NextHeading5,
        goes_to_marker(r, MarkerNavTarget::Heading(5), false) <==> command == MenuCommand::PreviousHeading5,
        goes_to_marker(r, MarkerNavTarget::Heading(6), true) <==> command == MenuCommand::NextHeading6,
        goes_to_marker(r, MarkerNavTarget::Heading(6), false) <==> command == MenuCommand::PreviousHeading6,
        goes_to_marker(r, MarkerNavTarget::Page, true) <==> command == MenuCommand::NextPage,
        goes_to_marker(r, MarkerNavTarget::Page, false) <==> command == MenuCommand::PreviousPage,
        goes_to_marker(r, MarkerNavTarget::Link, true) <==> command == MenuCommand::NextLink,
        goes_to_marker(r, MarkerNavTarget::Link, false) <==> command == MenuCommand::PreviousLink,
        goes_to_marker(r, MarkerNavTarget::Image, true) <==> command == MenuCommand::NextImage,
        goes_to_marker(r, MarkerNavTarget::Image, false) <==> command == MenuCommand::PreviousImage,
        goes_to_marker(r, MarkerNavTarget::Figure, true) <==> command == MenuCommand::NextFigure,
        goes_to_marker(r, MarkerNavTarget::Figure, false) <==> command == MenuCommand::PreviousFigure,
        goes_to_marker(r, MarkerNavTarget::Table, true) <==> command == MenuCommand::NextTable,
        goes_to_marker(r, MarkerNavTarget::Table, false) <==> command == MenuCommand::PreviousTable,
        goes_to_marker(r, MarkerNavTarget::Separator, true) <==> command == MenuCommand::NextSeparator,
        goes_to_marker(r, MarkerNavTarget::Separator, false) <==> command == MenuCommand::PreviousSeparator,
        goes_to_marker(r, MarkerNavTarget::List, true) <==> command == MenuCommand::NextList,
        goes_to_marker(r, MarkerNavTarget::List, false) <==> command == MenuCommand::PreviousList,
        goes_to_marker(r, MarkerNavTarget::ListItem, true) <==> command == MenuCommand::NextListItem,
        goes_to_marker(r, MarkerNavTarget::ListItem, false) <==> command == MenuCommand::PreviousListItem,
        r == Some(Movement::Bookmark { forward: true, notes_only: false }) <==> command
            == MenuCommand::NextBookmark,
        r == Some(Movement::Bookmark { forward: false, notes_only: false }) <==> command
            == MenuCommand::PreviousBookmark,
        r == Some(Movement::Bookmark { forward: true, notes_only: true }) <==> command
            == MenuCommand::NextNote,
        r == Some(Movement::Bookmark { forward: false, notes_only: true }) <==> command
            == MenuCommand::PreviousNote,
        r == Some(Movement::History { forward: true }) <==> command == MenuCommand::GoForward,
        r == Some(Movement::History { forward: false }) <==> command == MenuCommand::GoBack,
        r == Some(Movement::Container { to_end: true }) <==> command == MenuCommand::ContainerEnd,
        r == Some(Movement::Container { to_end: false }) <==> command
            == MenuCommand::ContainerStart,
        r matches Some(Movement::Marker { target: MarkerNavTarget::Heading(level), .. }) ==> 0
            <= level <= 6,
{
}

/// Each of the three entries for jumping lists the bookmarks that it is named after; no other entry
/// lists bookmarks.
pub proof fn law_entries_list_what_they_are_named_after(
    command: MenuCommand,
    r: Option<BookmarkFilterType>,
)
    requires
        call_ensures(bookmark_list, (command,), r),
    ensures
        r == Some(BookmarkFilterType::All) <==> command == MenuCommand::JumpToAllBookmarks,
        r == Some(BookmarkFilterType::BookmarksOnly) <==> command
            == MenuCommand::JumpToBookmarksOnly,
        r == Some(BookmarkFilterType::NotesOnly) <==> command == MenuCommand::JumpToNotesOnly,
{
}

/// The entries for recent documents open the documents in the order in which they are listed: the entry
/// at distance `k` from the first opens document `k`, and entries outside their range open none.
pub proof fn law_recent_documents_are_numbered(
    id: i32,
    base: i32,
    last: i32,
    listed: usize,
    k: usize,
    r: Option<usize>,
)
    requires
        call_ensures(recent_document, (id, base, last, listed), r),
    ensures
        id == base + k && id <= last && k < listed ==> r == Some(k),
        id < base || id > last || id - base >= listed ==> r is None,
{
}

/// With a document open, no entry is passed over. Without one, the entries that work on a document are,
/// and those that open, list or set something are not.
pub proof fn law_entries_need_a_document(
    command: MenuCommand,
    has_active_document: bool,
    r: bool,
)
    requires
        call_ensures(is_passed_over, (command, has_active_document), r),
    ensures
        has_active_document ==> !r,
        !has_active_document ==> (r <==> {
            ||| command == MenuCommand::GoToLine
            ||| command == MenuCommand::GoToPage
            ||| command == MenuCommand::GoToPercent
            ||| command == MenuCommand::ExportToPlainText
            ||| command == MenuCommand::ExportToHtml
            ||| command == MenuCommand::ExportToMarkdown
            ||| command == MenuCommand::ExportDocumentData
            ||| command == MenuCommand::ImportDocumentData
            ||| command == MenuCommand::WordCount
            ||| command == MenuCommand::DocumentInfo
            ||| command == MenuCommand::TableOfContents
            ||| command == MenuCommand::ElementsList
            ||| command == MenuCommand::OpenInWebView
            ||| command == MenuCommand::ViewSource
        }),
{
}

} // verus!
