//! Opening documents: requests, completions, re-parses and the startup restore.

use paperback::parse_registry::{ParseRegistry, PendingParse};
use paperback::window::completion::{
    accept_parse, group_message, join_announcements, password_message, reject_parse, Failing,
    FailureEvent, Loading,
};
use paperback::window::opening::{OpenEvent, OpenRequest, Opening, ParseJob};
use paperback::window::reparse::{begin_reparse, finish_reparse, reloaded_message, Reparse, Reparsed};
use paperback::window::restore::{
    remember_active_document, RestoreRun, RestoreState, RestoreStep,
};

fn placed(path: &str, request: OpenRequest, tab: Option<usize>, registry: &mut ParseRegistry) -> Opening {
    Opening::start(path.to_string(), request)
        .step(OpenEvent::Answer(true), registry)
        .step(OpenEvent::Answer(false), registry)
        .step(OpenEvent::Answer(true), registry)
        .step(OpenEvent::Place { key: path.to_string(), tab }, registry)
}

fn settings(render_tables_inline: bool) -> OpenEvent {
    OpenEvent::Settings {
        password: "pw".to_string(),
        forced_extension: "txt".to_string(),
        render_tables_inline,
    }
}

/// Registers an open and starts its parse.
fn opened(path: &str, request: OpenRequest, registry: &mut ParseRegistry) -> ParseJob {
    let state = placed(path, request, None, registry);
    let state = match state {
        Opening::CheckSidecar { .. } => state.step(OpenEvent::Answer(false), registry),
        _ => state,
    };
    match state.step(settings(true), registry) {
        Opening::StartParse { job, .. } => job,
        _ => panic!("the parse did not start"),
    }
}

#[test]
fn default_request_is_tracked_and_user_initiated() {
    let request = OpenRequest::default();
    assert!(request.track && !request.is_restore);
    assert!(request.title_override.is_none() && request.initial_caret.is_none());
    let source = OpenRequest::synthetic("Source: x".to_string(), 4);
    assert!(!source.track && !source.is_restore);
    assert_eq!(source.title_override.as_deref(), Some("Source: x"));
    assert_eq!(source.initial_caret, Some(4));
    assert!(OpenRequest::restoring().is_restore);
}

#[test]
fn unreadable_and_missing_documents_are_refused() {
    let mut registry = ParseRegistry::default();
    let start = || Opening::start("a.epub".to_string(), OpenRequest::default());
    let state = start().step(OpenEvent::Answer(false), &mut registry);
    assert!(matches!(state, Opening::Finished(false)));
    let state = start()
        .step(OpenEvent::Answer(true), &mut registry)
        .step(OpenEvent::Answer(false), &mut registry)
        .step(OpenEvent::Answer(false), &mut registry);
    assert!(matches!(&state, Opening::ReportMissing { message } if message == "File not found: a.epub"));
    assert!(matches!(state.step(OpenEvent::Done, &mut registry), Opening::Finished(false)));
    assert!(!registry.has_pending());
}

#[test]
fn closing_the_window_during_a_prompt_ends_the_request() {
    let mut registry = ParseRegistry::default();
    let state = Opening::start("a.epub".to_string(), OpenRequest::default())
        .step(OpenEvent::Answer(true), &mut registry)
        .step(OpenEvent::Answer(true), &mut registry);
    assert!(matches!(state, Opening::Finished(true)));
    let state = placed("a.epub", OpenRequest::default(), None, &mut registry)
        .step(OpenEvent::Answer(true), &mut registry)
        .step(OpenEvent::Answer(true), &mut registry)
        .step(OpenEvent::Done, &mut registry)
        .step(OpenEvent::Answer(true), &mut registry);
    assert!(matches!(state, Opening::Finished(true)));
}

#[test]
fn open_document_is_shown_again() {
    let mut registry = ParseRegistry::default();
    registry.set_restore_active_key(Some("other".to_string()));
    let restoring = placed("a.epub", OpenRequest::restoring(), Some(2), &mut registry);
    assert!(matches!(restoring, Opening::ShowTab { index: 2, caret: None }));
    assert_eq!(registry.restore_active_key(), Some("other"));

    let request = OpenRequest { initial_caret: Some(9), ..OpenRequest::default() };
    let state = placed("a.epub", request, Some(1), &mut registry);
    assert!(matches!(state, Opening::ShowTab { index: 1, caret: Some(9) }));
    assert!(matches!(state.step(OpenEvent::Done, &mut registry), Opening::Finished(true)));
    assert_eq!(registry.restore_active_key(), None);
    assert!(!registry.has_pending());
}

#[test]
fn pending_document_is_joined() {
    let mut registry = ParseRegistry::default();
    let job = opened("a.epub", OpenRequest::restoring(), &mut registry);
    let request = OpenRequest { initial_caret: Some(5), ..OpenRequest::default() };
    let state = placed("a.epub", request, None, &mut registry);
    assert!(matches!(state, Opening::Finished(true)));
    let entry = registry.by_seq(job.seq).unwrap();
    assert!(entry.focus_when_done);
    assert_eq!(entry.initial_caret, Some(5));
    assert_eq!(registry.busy_status_text().as_deref(), Some("Loading a.epub…"));
    // Without a caret of its own, a request leaves the caret as it is.
    placed("a.epub", OpenRequest::restoring(), None, &mut registry);
    assert_eq!(registry.by_seq(job.seq).unwrap().initial_caret, Some(5));
}

#[test]
fn user_open_is_announced_and_may_import() {
    let mut registry = ParseRegistry::default();
    let state = placed("a.epub", OpenRequest::default(), None, &mut registry);
    assert!(matches!(&state, Opening::CheckSidecar { sidecar, .. } if sidecar == "a.paperback"));
    let state = state.step(OpenEvent::Answer(true), &mut registry);
    assert!(matches!(state, Opening::OfferImport { .. }));
    let state = state.step(OpenEvent::Answer(false), &mut registry);
    assert!(matches!(state, Opening::CheckShutdownAgain { .. }));
    let state = state.step(OpenEvent::Answer(false), &mut registry).step(settings(false), &mut registry);
    match state {
        Opening::StartParse { job, announcement, status } => {
            assert_eq!(job.path, "a.epub");
            assert_eq!(job.password, "pw");
            assert_eq!(job.forced_extension, "txt");
            assert!(!job.render_tables_inline);
            assert_eq!(announcement.as_deref(), Some("Loading a.epub…"));
            assert_eq!(status.as_deref(), Some("Loading a.epub…"));
            assert!(!registry.by_seq(job.seq).unwrap().render_tables_inline);
        }
        _ => panic!("the parse did not start"),
    }
}

#[test]
fn restored_open_is_quiet() {
    let mut registry = ParseRegistry::default();
    let state = placed("a.epub", OpenRequest::restoring(), None, &mut registry);
    assert!(matches!(state, Opening::ReadSettings { .. }));
    let state = state.step(settings(true), &mut registry);
    assert!(matches!(state, Opening::StartParse { announcement: None, .. }));
}

#[test]
fn cancelled_open_does_not_start() {
    let mut registry = ParseRegistry::default();
    let state = placed("a.epub", OpenRequest::restoring(), None, &mut registry);
    registry.cancel_all();
    assert!(matches!(state.step(settings(true), &mut registry), Opening::Finished(true)));
}

fn loaded(seq: u64, registry: &mut ParseRegistry) -> paperback::window::completion::LoadedParse {
    match accept_parse(seq, true, registry) {
        Loading::Loaded(loaded) => loaded,
        _ => panic!("the document was not loaded"),
    }
}

#[test]
fn loaded_user_document_is_selected_and_announced() {
    let mut registry = ParseRegistry::default();
    let job = opened("a.epub", OpenRequest::default(), &mut registry);
    let loaded = loaded(job.seq, &mut registry);
    assert!(loaded.select && loaded.takes_focus() && loaded.rebuilds_recent_documents());
    assert_eq!(loaded.restore_finished, None);
    assert_eq!(loaded.announcement("Book").as_deref(), Some("Document loaded: Book."));
    assert!(!registry.has_pending());
    assert!(matches!(accept_parse(job.seq, true, &mut registry), Loading::Discarded));
}

#[test]
fn changed_table_setting_parses_again() {
    let mut registry = ParseRegistry::default();
    let job = opened("a.epub", OpenRequest::default(), &mut registry);
    match accept_parse(job.seq, false, &mut registry) {
        Loading::ParseAgain(again) => {
            assert_eq!(again.seq, job.seq);
            assert_eq!(again.path, "a.epub");
            assert!(!again.render_tables_inline);
        }
        _ => panic!("the document was not parsed again"),
    }
    assert!(matches!(accept_parse(job.seq, false, &mut registry), Loading::Loaded(_)));
}

#[test]
fn restore_group_is_announced_at_its_end() {
    let mut registry = ParseRegistry::default();
    registry.set_restore_active_key(Some("b.epub".to_string()));
    let first = opened("a.epub", OpenRequest::restoring(), &mut registry);
    let second = opened("b.epub", OpenRequest::restoring(), &mut registry);
    let one = loaded(first.seq, &mut registry);
    assert!(!one.select && !one.takes_focus() && !one.rebuilds_recent_documents());
    assert!(!one.announces_title());
    assert_eq!(one.announcement("A"), None);
    let two = loaded(second.seq, &mut registry);
    assert!(two.select && two.takes_focus() && two.rebuilds_recent_documents());
    assert_eq!(two.announcement("B").as_deref(), Some("All documents loaded."));
}

#[test]
fn requested_restore_is_announced_with_its_group() {
    let mut registry = ParseRegistry::default();
    let job = opened("a.epub", OpenRequest::restoring(), &mut registry);
    placed("a.epub", OpenRequest::default(), None, &mut registry);
    let loaded = loaded(job.seq, &mut registry);
    assert_eq!(loaded.announcement("A").as_deref(), Some("Document loaded: A. All documents loaded."));
}

#[test]
fn announcements_are_joined() {
    let text = |s: &str| Some(s.to_string());
    assert_eq!(join_announcements(text("a"), text("b")), text("a b"));
    assert_eq!(join_announcements(text("a"), None), text("a"));
    assert_eq!(join_announcements(None, text("b")), text("b"));
    assert_eq!(join_announcements(None, None), None);
    assert_eq!(group_message(0), "All documents loaded.");
    assert_eq!(group_message(1), "Document loading complete.");
}

const PREFIX: &str = "PASSWORD_REQUIRED:";

#[test]
fn password_is_asked_for_once() {
    let mut registry = ParseRegistry::default();
    let job = opened("a.pdf", OpenRequest::default(), &mut registry);
    let state = reject_parse(job.seq, "PASSWORD_REQUIRED: a.pdf", PREFIX, &mut registry);
    assert!(matches!(&state, Failing::AskPassword { path, .. } if path == "a.pdf"));
    let given = FailureEvent::Password { shutting_down: false, password: Some("secret".to_string()) };
    match state.step(given, &mut registry) {
        Failing::ParseAgain(again) => {
            assert_eq!(again.password, "secret");
            assert_eq!(again.forced_extension, "txt");
        }
        _ => panic!("the document was not parsed again"),
    }
    let state = reject_parse(job.seq, "PASSWORD_REQUIRED: a.pdf", PREFIX, &mut registry);
    assert!(matches!(state, Failing::Report { password_refused: false, restore_finished: None, .. }));
    assert!(!registry.has_pending());
}

#[test]
fn refused_password_is_reported() {
    let mut registry = ParseRegistry::default();
    let job = opened("a.pdf", OpenRequest::restoring(), &mut registry);
    let state = reject_parse(job.seq, "PASSWORD_REQUIRED", "PASSWORD", &mut registry);
    let refused = FailureEvent::Password { shutting_down: false, password: None };
    let state = state.step(refused, &mut registry);
    assert!(matches!(state, Failing::Report { password_refused: true, restore_finished: Some(1), .. }));
    assert_eq!(password_message(), "Password is required.");
    match state.step(FailureEvent::Reported { shutting_down: false }, &mut registry) {
        Failing::Conclude { restore_over, announcement } => {
            assert!(restore_over);
            assert_eq!(announcement.as_deref(), Some("Document loading complete."));
        }
        _ => panic!("the failure was not concluded"),
    }
}

#[test]
fn failures_end_with_the_window_or_the_open() {
    let mut registry = ParseRegistry::default();
    let job = opened("a.pdf", OpenRequest::default(), &mut registry);
    let state = reject_parse(job.seq, "PASSWORD_REQUIRED", "PASSWORD", &mut registry);
    let closed = FailureEvent::Password { shutting_down: true, password: Some("x".to_string()) };
    assert!(matches!(state.step(closed, &mut registry), Failing::Dropped));
    let state = reject_parse(job.seq, "PASSWORD_REQUIRED", "PASSWORD", &mut registry);
    registry.cancel_all();
    let given = FailureEvent::Password { shutting_down: false, password: Some("x".to_string()) };
    assert!(matches!(state.step(given, &mut registry), Failing::Dropped));
    assert!(matches!(reject_parse(job.seq, "broken", "PASSWORD", &mut registry), Failing::Dropped));
    let other = opened("b.pdf", OpenRequest::default(), &mut registry);
    let state = reject_parse(other.seq, "broken", "PASSWORD", &mut registry);
    let state = state.step(FailureEvent::Reported { shutting_down: true }, &mut registry);
    assert!(matches!(state, Failing::Dropped));
}

#[test]
fn failed_user_open_concludes_without_announcement() {
    let mut registry = ParseRegistry::default();
    let job = opened("a.pdf", OpenRequest::default(), &mut registry);
    let state = reject_parse(job.seq, "broken", PREFIX, &mut registry)
        .step(FailureEvent::Reported { shutting_down: false }, &mut registry);
    assert!(matches!(state, Failing::Conclude { restore_over: false, announcement: None }));
}

#[test]
fn reparse_is_announced_and_counted() {
    let mut registry = ParseRegistry::default();
    assert!(matches!(begin_reparse(0, &mut registry), Reparse::NothingOpen));
    let generation = match begin_reparse(2, &mut registry) {
        Reparse::Started { generation, message } => {
            assert_eq!(message, "Reloading documents…");
            generation
        }
        Reparse::NothingOpen => panic!("nothing was started"),
    };
    assert!(matches!(finish_reparse(generation - 1, false, &mut registry), Reparsed::Discarded));
    assert!(matches!(
        finish_reparse(generation, false, &mut registry),
        Reparsed::Recorded { replace: true, announcement: None }
    ));
    match finish_reparse(generation, true, &mut registry) {
        Reparsed::Recorded { replace, announcement } => {
            assert!(!replace);
            assert_eq!(announcement.as_deref(), Some("Document reload complete."));
        }
        Reparsed::Discarded => panic!("the result was discarded"),
    }
    assert_eq!(reloaded_message(0), "Documents reloaded.");
}

#[test]
fn restore_follows_the_setting_at_the_start() {
    assert!(RestoreState::for_setting(true).idle());
    let mut off = RestoreState::for_setting(false);
    assert!(!off.idle());
    assert!(!off.idle());
}

#[test]
fn restore_begins_once_and_not_while_closing() {
    let mut state = RestoreState::default();
    assert!(state.idle());
    assert!(!state.idle());
    let mut closing = RestoreState::default();
    closing.close();
    assert!(!closing.idle());
}

#[test]
fn earlier_open_keeps_its_selection() {
    let mut registry = ParseRegistry::default();
    remember_active_document(0, "/a.epub", "a".to_string(), &mut registry);
    assert_eq!(registry.restore_active_key(), Some("a"));
    let mut with_tab = ParseRegistry::default();
    remember_active_document(1, "/a.epub", "a".to_string(), &mut with_tab);
    assert_eq!(with_tab.restore_active_key(), None);
    let mut without_path = ParseRegistry::default();
    remember_active_document(0, "", "a".to_string(), &mut without_path);
    assert_eq!(without_path.restore_active_key(), None);
    let mut with_open = ParseRegistry::default();
    opened("b.epub", OpenRequest::default(), &mut with_open);
    remember_active_document(0, "/a.epub", "a".to_string(), &mut with_open);
    assert_eq!(with_open.restore_active_key(), None);
}

#[test]
fn restore_resolves_every_document_first() {
    let mut run = RestoreRun::new(vec!["a".to_string(), "b".to_string(), "c".to_string()]);
    for (path, ready) in [("a", true), ("b", false), ("c", true)] {
        assert!(matches!(run.next_step(true), RestoreStep::Stop));
        assert!(matches!(run.next_step(false), RestoreStep::Resolve(asked) if asked == path));
        run.record(ready);
    }
    match run.next_step(false) {
        RestoreStep::Submit(ready) => assert_eq!(ready, vec!["a".to_string(), "c".to_string()]),
        _ => panic!("the documents were not submitted"),
    }
}

#[test]
fn parse_job_serves_its_entry() {
    let entry = PendingParse {
        seq: 3,
        path: "p".to_string(),
        key: "k".to_string(),
        track: true,
        is_restore: false,
        title_override: None,
        initial_caret: None,
        focus_when_done: false,
        password: "w".to_string(),
        password_attempted: false,
        forced_extension: "x".to_string(),
        render_tables_inline: false,
    };
    let job = ParseJob::for_entry(&entry);
    assert_eq!((job.seq, job.path.as_str(), job.password.as_str()), (3, "p", "w"));
    assert_eq!((job.forced_extension.as_str(), job.render_tables_inline), ("x", false));
}

#[test]
fn user_open_of_a_pending_document_takes_the_selection() {
    let mut registry = ParseRegistry::default();
    registry.set_restore_active_key(Some("b.epub".to_string()));
    opened("a.epub", OpenRequest::restoring(), &mut registry);
    let second = opened("b.epub", OpenRequest::restoring(), &mut registry);
    placed("a.epub", OpenRequest::restoring(), None, &mut registry);
    assert_eq!(registry.restore_active_key(), Some("b.epub"));
    placed("a.epub", OpenRequest::default(), None, &mut registry);
    assert_eq!(registry.restore_active_key(), None);
    assert!(!loaded(second.seq, &mut registry).select);
}
