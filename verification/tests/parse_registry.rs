//! The registry of background work.

use paperback::parse_registry::{BusyStatus, ParseRegistry, PendingParse, Reminder, ReparseJobOutcome};

/// Some moment, in nanoseconds.
fn now() -> u64 {
    1_000_000_000
}

fn secs(count: u64) -> u64 {
    count * 1_000_000_000
}

fn entry(path: &str, is_restore: bool) -> PendingParse {
    PendingParse {
        seq: 0,
        path: path.to_string(),
        key: path.to_string(),
        track: true,
        is_restore,
        title_override: None,
        initial_caret: None,
        focus_when_done: false,
        password: String::new(),
        password_attempted: false,
        forced_extension: String::new(),
        render_tables_inline: true,
    }
}

#[test]
fn register_assigns_increasing_seqs_and_finds_entries_by_key_and_seq() {
    let mut registry = ParseRegistry::default();
    let first = registry.register(entry("a.epub", false));
    let second = registry.register(entry("b.epub", false));

    assert!(first < second);
    assert_eq!(registry.by_key_mut("b.epub").unwrap().seq, second);
    assert_eq!(registry.by_seq_mut(first).unwrap().key, "a.epub");
    assert!(registry.by_key_mut("missing.epub").is_none());
}

#[test]
fn user_open_cancels_restore_selection_but_restore_opens_keep_it() {
    let mut registry = ParseRegistry::default();
    registry.set_restore_active_key(Some("a.epub".to_string()));
    registry.register(entry("b.epub", true));
    assert_eq!(registry.restore_active_key(), Some("a.epub"));

    registry.register(entry("c.epub", false));
    assert_eq!(registry.restore_active_key(), None);
}

#[test]
fn restore_group_finishes_when_its_last_entry_is_taken_and_counts_failures() {
    let mut registry = ParseRegistry::default();
    let first = registry.register(entry("a.epub", true));
    let second = registry.register(entry("b.epub", true));
    let user = registry.register(entry("c.epub", false));

    assert_eq!(registry.take(first, true).unwrap().1, None);
    // A failed user open does not count against startup restore.
    assert_eq!(registry.take(user, true).unwrap().1, None);
    assert_eq!(registry.take(second, false).unwrap().1, Some(1));
}

#[test]
fn cancel_all_discards_pending_entries_and_restore_selection() {
    let mut registry = ParseRegistry::default();
    registry.set_restore_active_key(Some("a.epub".to_string()));
    let first = registry.register(entry("a.epub", true));
    let second = registry.register(entry("b.epub", false));

    registry.cancel_all();

    assert!(!registry.has_pending());
    assert_eq!(registry.restore_active_key(), None);
    assert!(registry.by_seq_mut(first).is_none());
    assert!(registry.take(second, false).is_none());
}

#[test]
fn busy_status_text_reflects_what_is_in_flight() {
    let mut registry = ParseRegistry::default();
    assert_eq!(registry.busy_status_text(), None);

    let first = registry.register(entry("a.epub", false));
    assert_eq!(registry.busy_status_text(), Some("Loading a.epub…".to_string()));

    let second = registry.register(entry("b.epub", false));
    assert_eq!(registry.busy_status_text(), Some("Loading 2 documents…".to_string()));

    registry.take(first, false).unwrap();
    assert_eq!(registry.busy_status_text(), Some("Loading b.epub…".to_string()));

    // A synthetic document (e.g. View Source) is named by its tab title, not its temp file.
    registry.take(second, false).unwrap();
    registry.register(PendingParse {
        title_override: Some("Source: book.epub".to_string()),
        ..entry("book.epub.source.txt", false)
    });
    assert_eq!(registry.busy_status_text(), Some("Loading Source: book.epub…".to_string()));
}

#[test]
fn reparse_only_batch_shows_reloading_status() {
    let mut registry = ParseRegistry::default();
    registry.begin_reparse_batch(2);
    assert_eq!(registry.busy_status_text(), Some("Reloading documents…".to_string()));
}

#[test]
fn reminders_fire_every_interval_while_busy_and_reset_when_idle() {
    let mut registry = ParseRegistry::default();
    let base = now();
    assert_eq!(registry.due_reminder(base), None);

    let seq = registry.register(entry("a.epub", false));
    // The first busy poll starts the clock without announcing.
    assert_eq!(registry.due_reminder(base), None);
    assert_eq!(registry.due_reminder(base + secs(14)), None);
    assert_eq!(registry.due_reminder(base + secs(15)), Some("Still loading…".to_string()));
    assert_eq!(registry.due_reminder(base + secs(16)), None);
    assert_eq!(registry.due_reminder(base + secs(30)), Some("Still loading…".to_string()));

    // The next busy period starts a new interval after becoming idle.
    registry.take(seq, false).unwrap();
    assert_eq!(registry.due_reminder(base + secs(60)), None);
    registry.register(entry("b.epub", false));
    assert_eq!(registry.due_reminder(base + secs(61)), None);
    assert_eq!(registry.due_reminder(base + secs(75)), None);
    assert_eq!(registry.due_reminder(base + secs(76)), Some("Still loading…".to_string()));
}

#[test]
fn busy_period_starting_between_polls_gets_a_fresh_reminder_clock() {
    let mut registry = ParseRegistry::default();
    let base = now();
    let seq = registry.register(entry("a.epub", false));
    assert_eq!(registry.due_reminder(base), None);

    // The registry goes idle and busy again without a poll observing the idle gap.
    registry.take(seq, false).unwrap();
    registry.register(entry("b.epub", false));

    assert_eq!(registry.due_reminder(base + secs(20)), None);
    assert_eq!(registry.due_reminder(base + secs(35)), Some("Still loading…".to_string()));
}

#[test]
fn reminder_wording_distinguishes_reparse_batches() {
    let mut registry = ParseRegistry::default();
    registry.begin_reparse_batch(1);
    let base = now();
    assert_eq!(registry.due_reminder(base), None);
    assert_eq!(registry.due_reminder(base + secs(15)), Some("Still reloading…".to_string()));
}

#[test]
fn reparse_batch_counts_jobs_and_failures() {
    let mut registry = ParseRegistry::default();
    let generation = registry.begin_reparse_batch(2);

    assert_eq!(registry.reparse_job_done(generation, false), ReparseJobOutcome::BatchInFlight);
    assert_eq!(registry.reparse_job_done(generation, true), ReparseJobOutcome::BatchFinished { failed: 1 });
}

#[test]
fn superseded_reparse_batch_is_discarded() {
    let mut registry = ParseRegistry::default();
    let stale = registry.begin_reparse_batch(2);
    let current = registry.begin_reparse_batch(1);

    assert_eq!(registry.reparse_job_done(stale, false), ReparseJobOutcome::Superseded);
    assert_eq!(registry.reparse_job_done(current, false), ReparseJobOutcome::BatchFinished { failed: 0 });
}

#[test]
fn reminder_needs_the_whole_interval() {
    let mut registry = ParseRegistry::default();
    registry.register(entry("a.epub", false));
    assert_eq!(registry.poll_reminder(secs(5)), None);
    assert_eq!(registry.poll_reminder(secs(20) - 1), None);
    // A clock that went back gives no reminder.
    assert_eq!(registry.poll_reminder(0), None);
    assert_eq!(registry.poll_reminder(secs(20)), Some(Reminder::StillLoading));
}

#[test]
fn taken_entry_is_gone_and_others_stay() {
    let mut registry = ParseRegistry::default();
    let first = registry.register(entry("a.epub", false));
    let second = registry.register(entry("b.epub", false));
    let (taken, finished) = registry.take(first, true).unwrap();
    assert_eq!(taken.key, "a.epub");
    assert_eq!(finished, None);
    assert!(registry.by_seq(first).is_none());
    assert_eq!(registry.by_seq(second).unwrap().key, "b.epub");
    assert!(registry.take(first, false).is_none());
    assert!(registry.has_pending());
}

#[test]
fn entries_can_be_changed_in_place() {
    let mut registry = ParseRegistry::default();
    let seq = registry.register(entry("a.epub", false));
    registry.by_key_mut("a.epub").unwrap().focus_when_done = true;
    registry.by_seq_mut(seq).unwrap().initial_caret = Some(7);
    let entry = registry.by_seq(seq).unwrap();
    assert!(entry.focus_when_done);
    assert_eq!(entry.initial_caret, Some(7));
}

#[test]
fn restore_selection_is_taken_once() {
    let mut registry = ParseRegistry::default();
    registry.set_restore_active_key(Some("a".to_string()));
    assert_eq!(registry.take_restore_active_key(), Some("a".to_string()));
    assert_eq!(registry.take_restore_active_key(), None);
}

#[test]
fn next_restore_counts_from_zero() {
    let mut registry = ParseRegistry::default();
    let first = registry.register(entry("a.epub", true));
    assert_eq!(registry.take(first, true).unwrap().1, Some(1));
    let second = registry.register(entry("b.epub", true));
    assert_eq!(registry.take(second, false).unwrap().1, Some(0));
}

#[test]
fn cancelled_restore_leaves_no_failures_behind() {
    let mut registry = ParseRegistry::default();
    let first = registry.register(entry("a.epub", true));
    let cancelled = registry.register(entry("b.epub", true));
    assert_eq!(registry.take(first, true).unwrap().1, None);
    registry.cancel_all();
    assert!(registry.take(cancelled, true).is_none());
    let again = registry.register(entry("c.epub", true));
    let user = registry.register(entry("d.epub", false));
    let last = registry.register(entry("e.epub", true));
    assert_eq!(registry.take(again, true).unwrap().1, None);
    assert_eq!(registry.take(user, true).unwrap().1, None);
    assert_eq!(registry.take(last, false).unwrap().1, Some(1));
}

#[test]
fn results_are_expected_only_while_jobs_are_left() {
    let mut registry = ParseRegistry::default();
    assert!(registry.within_limits());
    let generation = registry.begin_reparse_batch(1);
    assert!(registry.expects_result(generation));
    registry.reparse_job_done(generation, false);
    assert!(!registry.expects_result(generation));
    assert!(registry.expects_result(generation + 1));
}

#[test]
fn busy_status_is_filled_in() {
    let status = BusyStatus::Loading("Buch".to_string());
    assert_eq!(status.message(), "Loading {}…");
    assert_eq!(status.fill("{} wird geladen…".to_string()), "Buch wird geladen…");
    assert_eq!(BusyStatus::LoadingMany(12).fill("{} Dokumente".to_string()), "12 Dokumente");
    assert_eq!(BusyStatus::Reloading.fill("Neu {}".to_string()), "Neu {}");
}
