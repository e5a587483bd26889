//! The window: activation, events, menus, options, timers and titles.

use paperback::window::activation::{
    is_window_active, plan_ipc_command, HiddenPopup, IpcCommand, IpcPlan, Toggle,
};
use paperback::window::all_documents::{empty_list_message, plan_list, ListStep};
use paperback::window::commands::{
    bookmark_list, is_passed_over, movement, recent_document, BookmarkFilterType, MarkerNavTarget, MenuCommand,
    Movement,
};
use paperback::window::events::{
    announced_tab, close_action, close_active, closes_document, delivers_completion,
    focus_after_close, polls_reminder, CloseAction, CloseStep, DeferredQueue, Focus,
};
use paperback::window::export::{
    counts_selection, default_file, opens_in_browser, source_title, view_source, web_view_url,
    ExportKind, SourceOutcome, SourceStep, SourceView,
};
use paperback::window::go_to::{
    caret_after_import, dialog_offset, document_offset, last_page, line_range, start_percent,
};
use paperback::window::hotkey::{quits_listener, virtual_key, HotkeyConfig};
use paperback::window::options::{
    plan_options, toggle_word_wrap, FontChange, ReadingOptions, Restyling,
};
use paperback::window::sleep_timer::{delay_ms, SleepChoice, SleepTimer};
use paperback::window::title::{shows_sleep_timer, status_text, window_title};

#[test]
fn commands_wait_for_the_web_view() {
    let open = || IpcCommand::OpenFile("a.epub".to_string());
    assert!(matches!(plan_ipc_command(open(), true), IpcPlan::WarnWebView));
    assert!(matches!(plan_ipc_command(open(), false), IpcPlan::ActivateAndOpen(path) if path == "a.epub"));
    assert!(matches!(plan_ipc_command(IpcCommand::Activate, false), IpcPlan::Activate));
    assert!(matches!(plan_ipc_command(IpcCommand::ToggleVisibility, false), IpcPlan::ToggleVisibility));
}

#[test]
fn document_commands_need_a_document() {
    for command in [
        MenuCommand::GoToLine,
        MenuCommand::WordCount,
        MenuCommand::TableOfContents,
        MenuCommand::OpenInWebView,
        MenuCommand::ExportToHtml,
    ] {
        assert!(is_passed_over(command, false));
        assert!(!is_passed_over(command, true));
    }
    assert!(!is_passed_over(MenuCommand::Open, false));
    assert!(!is_passed_over(MenuCommand::ToggleWordWrap, false));
}

#[test]
fn active_window_is_the_frame_or_its_popup() {
    assert!(is_window_active(Some(1), false, 1, 2));
    assert!(is_window_active(Some(1), false, 2, 2));
    assert!(!is_window_active(Some(1), true, 3, 2));
    assert!(is_window_active(None, true, 0, 0));
}

#[test]
fn hidden_popup_comes_back() {
    let mut popup = HiddenPopup { handle: 0 };
    assert_eq!(popup.toggle(true, false, Some(1), 2), Toggle::Activate);
    assert_eq!(popup.toggle(false, true, Some(1), 2), Toggle::Activate);
    assert_eq!(popup.toggle(true, true, Some(1), 1), Toggle::Iconize);
    assert_eq!(popup.toggle(true, true, None, 2), Toggle::Iconize);
    assert_eq!(popup.toggle(true, true, Some(1), 2), Toggle::HideWithPopup(2));
    assert_eq!(popup.handle, 2);
    let none = popup.activate(None, 5);
    assert!(none.show.is_none() && none.foreground.is_none() && !none.has_popup);
    let first = popup.activate(Some(1), 5);
    assert_eq!((first.show, first.foreground, first.has_popup), (Some(2), Some(2), true));
    let second = popup.activate(Some(1), 5);
    assert_eq!((second.show, second.foreground, second.has_popup), (None, Some(5), true));
    let third = popup.activate(Some(1), 1);
    assert_eq!((third.show, third.foreground, third.has_popup), (None, Some(1), false));
}

#[test]
fn delete_closes_the_document() {
    assert!(closes_document(127) && closes_document(330) && !closes_document(8));
    assert_eq!(focus_after_close(1), Focus::Document);
    assert_eq!(focus_after_close(0), Focus::Tabs);
}

#[test]
fn next_document_is_announced_before_closing() {
    assert!(matches!(close_active(None, Some("x".to_string())), CloseStep::Nothing));
    assert!(matches!(
        close_active(Some(2), Some("Next".to_string())),
        CloseStep::Close { index: 2, announce: Some(title) } if title == "Next"
    ));
    assert!(matches!(close_active(Some(0), None), CloseStep::Close { index: 0, announce: None }));
}

#[test]
fn switched_tab_is_announced() {
    assert_eq!(announced_tab(false, Some(1), 2), Some(1));
    assert_eq!(announced_tab(false, Some(2), 2), None);
    assert_eq!(announced_tab(false, Some(-1), 2), None);
    assert_eq!(announced_tab(false, None, 2), None);
    assert_eq!(announced_tab(true, Some(1), 2), None);
}

#[test]
fn close_hides_only_in_the_dock() {
    assert_eq!(close_action(true, true), CloseAction::Hide);
    assert_eq!(close_action(true, false), CloseAction::ShutDown);
    assert_eq!(close_action(false, true), CloseAction::ShutDown);
}

#[test]
fn completions_wait_for_locks() {
    let mut queue: DeferredQueue<u32> = DeferredQueue::new();
    assert!(queue.is_empty());
    assert_eq!(queue.submit(1, false, true), None);
    assert_eq!(queue.submit(2, true, false), None);
    assert_eq!(queue.submit(3, true, true), Some(3));
    assert_eq!(queue.tick(false, true), Vec::<u32>::new());
    assert_eq!(queue.tick(true, true), vec![1, 2]);
    assert!(queue.is_empty());
    assert_eq!(queue.tick(true, true), Vec::<u32>::new());
}

#[test]
fn nothing_runs_after_shutdown() {
    assert!(polls_reminder(false, true, true));
    assert!(!polls_reminder(true, true, true));
    assert!(!polls_reminder(false, false, true));
    assert!(!polls_reminder(false, true, false));
    assert!(delivers_completion(false, true));
    assert!(!delivers_completion(true, true) && !delivers_completion(false, false));
}

#[test]
fn menu_entries_move() {
    let marker = |target, forward| Some(Movement::Marker { target, forward });
    assert_eq!(movement(MenuCommand::NextHeading), marker(MarkerNavTarget::Heading(0), true));
    assert_eq!(movement(MenuCommand::PreviousHeading6), marker(MarkerNavTarget::Heading(6), false));
    assert_eq!(movement(MenuCommand::NextListItem), marker(MarkerNavTarget::ListItem, true));
    assert_eq!(movement(MenuCommand::GoBack), Some(Movement::History { forward: false }));
    assert_eq!(
        movement(MenuCommand::NextNote),
        Some(Movement::Bookmark { forward: true, notes_only: true })
    );
    assert_eq!(movement(MenuCommand::ContainerEnd), Some(Movement::Container { to_end: true }));
    assert_eq!(movement(MenuCommand::Open), None);
}

#[test]
fn menu_entries_list_bookmarks() {
    assert_eq!(bookmark_list(MenuCommand::JumpToAllBookmarks), Some(BookmarkFilterType::All));
    assert_eq!(bookmark_list(MenuCommand::JumpToBookmarksOnly), Some(BookmarkFilterType::BookmarksOnly));
    assert_eq!(bookmark_list(MenuCommand::JumpToNotesOnly), Some(BookmarkFilterType::NotesOnly));
    assert_eq!(bookmark_list(MenuCommand::Find), None);
}

#[test]
fn recent_documents_have_a_range() {
    assert_eq!(recent_document(1000, 1000, 1099, 3), Some(0));
    assert_eq!(recent_document(1002, 1000, 1099, 3), Some(2));
    assert_eq!(recent_document(1003, 1000, 1099, 3), None);
    assert_eq!(recent_document(999, 1000, 1099, 3), None);
    assert_eq!(recent_document(1100, 1000, 1099, 300), None);
}

#[test]
fn lines_pages_and_percentages_are_clamped() {
    let range = |line, count| {
        let r = line_range(line, count);
        (r.current, r.last)
    };
    assert_eq!(range(3, 10), (3, 10));
    assert_eq!(range(0, 0), (1, 1));
    assert_eq!(range(99, 10), (10, 10));
    assert_eq!(range(i64::MAX, i64::MAX), (i32::MAX, i32::MAX));
    assert_eq!(last_page(0), None);
    assert_eq!(last_page(12), Some(12));
    assert_eq!(start_percent(-1), 0);
    assert_eq!(start_percent(42), 42);
    assert_eq!(start_percent(101), 100);
    assert_eq!(dialog_offset(7), 7);
    assert_eq!(document_offset(-1), 0);
    assert_eq!(document_offset(12), 12);
    assert_eq!(caret_after_import(-1), None);
    assert_eq!(caret_after_import(0), Some(0));
}

#[test]
fn sleep_timer_starts_fires_and_is_cancelled() {
    let mut timer = SleepTimer::default();
    assert!(matches!(timer.choose_entry(), SleepChoice::Ask));
    let start = timer.start(30, 77);
    assert_eq!(start.delay_ms, 1_800_000);
    assert_eq!(start.announcement, "Sleep timer set for 30 minutes.");
    assert_eq!((timer.running, timer.start_ms, timer.duration_minutes), (true, 77, 30));
    assert!(!timer.tick(true));
    assert!(timer.tick(false));
    assert!(!timer.tick(false));
    assert_eq!((timer.running, timer.start_ms, timer.duration_minutes), (false, 0, 0));
    assert_eq!(timer.start(1, 5).announcement, "Sleep timer set for 1 minute.");
    match timer.choose_entry() {
        SleepChoice::Cancelled { announcement } => assert_eq!(announcement, "Sleep timer cancelled."),
        SleepChoice::Ask => panic!("the timer was not cancelled"),
    }
    assert!(!timer.running);
    assert_eq!(delay_ms(-5), 0);
    assert_eq!(delay_ms(35_791), 2_147_460_000);
    assert_eq!(delay_ms(35_792), i32::MAX);
}

fn options() -> ReadingOptions {
    ReadingOptions {
        word_wrap: false,
        render_tables_inline: true,
        compact_go_menu: true,
        line_spacing: 1,
        bg_color: 5,
        text_alignment: 0,
        letter_spacing: 0,
        paragraph_spacing: 0,
    }
}

#[test]
fn same_options_change_nothing() {
    let font = FontChange { changed: false, chosen: false, color: -1 };
    let plan = plan_options(&options(), &options(), &font, false);
    assert!(matches!(
        plan.restyling,
        Restyling::Adjust {
            font: false,
            color: None,
            bg_color: None,
            line_spacing: None,
            text_alignment: None,
            letter_spacing: None,
            paragraph_spacing: None,
        }
    ));
    assert_eq!(plan.reparse, None);
    assert!(!plan.switch_language && !plan.update_title);
}

#[test]
fn changed_options_are_applied() {
    let font = FontChange { changed: true, chosen: true, color: 3 };
    let after = ReadingOptions {
        render_tables_inline: false,
        compact_go_menu: false,
        bg_color: 6,
        line_spacing: 2,
        ..options()
    };
    let plan = plan_options(&options(), &after, &font, false);
    assert!(matches!(
        plan.restyling,
        Restyling::Adjust {
            font: true,
            color: Some(3),
            bg_color: Some(6),
            line_spacing: Some(2),
            text_alignment: None,
            letter_spacing: None,
            paragraph_spacing: None,
        }
    ));
    assert_eq!(plan.reparse, Some(false));
    assert!(plan.update_title && !plan.switch_language);
    assert!(plan_options(&options(), &options(), &font, true).update_title);
}

#[test]
fn system_choices_rebuild() {
    let kept = FontChange { changed: false, chosen: false, color: -1 };
    let wrapped = ReadingOptions { word_wrap: true, ..options() };
    assert!(matches!(
        plan_options(&options(), &wrapped, &kept, false).restyling,
        Restyling::Rebuild { word_wrap: true }
    ));
    let system_color = ReadingOptions { bg_color: -1, ..options() };
    assert!(matches!(
        plan_options(&options(), &system_color, &kept, false).restyling,
        Restyling::Rebuild { word_wrap: false }
    ));
    for font in [
        FontChange { changed: true, chosen: false, color: 1 },
        FontChange { changed: true, chosen: true, color: -1 },
    ] {
        assert!(matches!(
            plan_options(&options(), &options(), &font, false).restyling,
            Restyling::Rebuild { word_wrap: false }
        ));
    }
}

#[test]
fn word_wrap_is_toggled() {
    let on = toggle_word_wrap(false);
    assert_eq!((on.on, on.announcement.as_str()), (true, "Word wrap on."));
    let off = toggle_word_wrap(true);
    assert_eq!((off.on, off.announcement.as_str()), (false, "Word wrap off."));
}

#[test]
fn exports_have_names() {
    assert_eq!(default_file("/books/a.b.epub", ExportKind::PlainText), "a.b.txt");
    assert_eq!(default_file("notes", ExportKind::Html), "notes.html");
    assert_eq!(default_file("x.pdf", ExportKind::Markdown), "x.md");
    assert_eq!(default_file("..", ExportKind::DocumentData), "document.paperback");
    assert_eq!(ExportKind::Html.title(), "Export document to HTML");
    assert_eq!(ExportKind::DocumentData.wildcard(), "Paperback files (*.paperback)|*.paperback");
}

#[test]
fn web_view_addresses() {
    let text = |s: &str| Some(s.to_string());
    assert_eq!(web_view_url("C:\\t\\a.html", text("p1"), text("p2")), "file:///C:/t/a.html#p1");
    assert_eq!(web_view_url("/t/a.html", None, text("p2")), "file:////t/a.html#p2");
    assert_eq!(web_view_url("/t/a.html", None, None), "file:////t/a.html");
}

#[test]
fn outside_links_open_in_the_browser() {
    for url in ["http://x", "HTTPS://X", "MailTo:a@b", "https://"] {
        assert!(opens_in_browser(url), "{url}");
    }
    for url in ["file:///a", "http:/x", "", "ftp://x", "#http://"] {
        assert!(!opens_in_browser(url), "{url}");
    }
}

#[test]
fn source_views_are_titled() {
    assert_eq!(source_title("/books/book.epub"), "Source: book.epub");
    assert_eq!(source_title(".."), "Source: document");
    assert_eq!(
        SourceOutcome::Unavailable.message(),
        "Source view is not available for this document format."
    );
    assert_eq!(SourceOutcome::Failed.message(), "Could not load the document source.");
}

#[test]
fn source_is_opened_or_the_reason_is_told() {
    assert!(matches!(
        view_source("book.epub", None),
        SourceStep::Report(SourceOutcome::Unavailable)
    ));
    assert!(matches!(
        view_source("book.epub", Some(None)),
        SourceStep::Report(SourceOutcome::Failed)
    ));
    let view = SourceView { path: "/tmp/source.xhtml".to_string(), caret: 7 };
    match view_source("/books/book.epub", Some(Some(view))) {
        SourceStep::Open { path, request } => {
            assert_eq!(path, "/tmp/source.xhtml");
            assert!(!request.track);
            assert!(!request.is_restore);
            assert_eq!(request.title_override.as_deref(), Some("Source: book.epub"));
            assert_eq!(request.initial_caret, Some(7));
        }
        SourceStep::Report(_) => panic!("the source is there"),
    }
}

fn described(steps: Vec<ListStep>) -> Vec<String> {
    steps
        .into_iter()
        .map(|step| match step {
            ListStep::Close(path) => format!("close {path}"),
            ListStep::Forget(paths) => format!("forget {}", paths.join(" ")),
            ListStep::Refresh => "refresh".to_string(),
            ListStep::Open(path) => format!("open {path}"),
            ListStep::RebuildMenu => "rebuild".to_string(),
        })
        .collect()
}

#[test]
fn removed_documents_are_forgotten_after_they_were_closed() {
    let steps = plan_list(
        vec!["a".to_string(), "b".to_string()],
        vec!["b".to_string(), "c".to_string()],
        Some("d".to_string()),
    );
    assert_eq!(
        described(steps),
        ["close a", "close b", "forget b c", "refresh", "open d", "rebuild"]
    );
}

#[test]
fn list_without_changes_rebuilds_the_menu_only() {
    assert_eq!(described(plan_list(vec![], vec![], None)), ["forget ", "rebuild"]);
    assert_eq!(empty_list_message(true), None);
    assert_eq!(empty_list_message(false).as_deref(), Some("No recent documents."));
}

#[test]
fn blank_selection_counts_the_document() {
    assert!(counts_selection(" a "));
    assert!(!counts_selection(" \n\u{a0}"));
    assert!(!counts_selection(""));
}

#[test]
fn titles_and_status() {
    assert_eq!(window_title(Some("Book")), "Paperback - Book");
    assert_eq!(window_title(None), "Paperback");
    let text = |s: &str| Some(s.to_string());
    assert_eq!(status_text(text("Loading"), text("Line 1")), "Loading");
    assert_eq!(status_text(None, text("Line 1")), "Line 1");
    assert_eq!(status_text(None, None), "Ready");
    assert!(shows_sleep_timer(1, 1) && !shows_sleep_timer(0, 1) && !shows_sleep_timer(1, 0));
}

fn hotkey(key: char) -> HotkeyConfig {
    HotkeyConfig { ctrl: true, alt: false, shift: true, win: false, key }
}

#[test]
fn hotkeys_are_encoded() {
    assert_eq!(hotkey('p').modifiers(), 6);
    let all = HotkeyConfig { ctrl: true, alt: true, shift: true, win: true, key: 'p' };
    assert_eq!(all.modifiers(), 15);
    assert_eq!(hotkey('p').key_code(), Some(0x70));
    assert_eq!(hotkey('\0').key_code(), None);
    assert_eq!(hotkey('😀').key_code(), None);
    assert_eq!(virtual_key(0x0150), Some(0x50));
    assert_eq!(virtual_key(-1), None);
    assert_eq!(virtual_key(-256), Some(0));
    assert!(quits_listener(7) && !quits_listener(0));
}
