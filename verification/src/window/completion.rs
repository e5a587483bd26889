//! What a finished parse leads to: a tab, another parse, a question for the password, or an error.

use vstd::prelude::*;
use crate::locale;
use crate::locale::{fill_message, t};
use crate::parse_registry;
use crate::parse_registry::{ParseRegistry, PendingParse, RegistryView};
use crate::text;
use crate::text::{same_text, starts_with};
use crate::window::opening::ParseJob;

verus! {

/// A document whose parse succeeded.
pub struct LoadedParse {
    pub entry: PendingParse,
    /// Whether its tab is selected.
    pub select: bool,
    /// The number of failed documents, if this was the last of the startup restore.
    pub restore_finished: Option<usize>,
}

/// What a successful parse leads to.
pub enum Loading {
    /// The open was cancelled; its result is discarded.
    Discarded,
    /// The table setting changed while the document was being parsed: parse it again.
    ParseAgain(ParseJob),
    /// Show the document.
    Loaded(LoadedParse),
}

/// A loaded document's tab is selected unless it was restored in the background: an open of the user
/// is, and one that the user asked for again, and the tab that was active in the previous session.
pub open spec fn selects(entry: PendingParse, restore_active_key: Option<Seq<char>>) -> bool {
    !entry.is_restore || entry.focus_when_done || restore_active_key == Some(entry.key@)
}

/// The successful parse of the open `seq` leads to `next`, and the registry from `before` to `after`,
/// where the current setting for tables is `render_tables_inline`.
pub open spec fn accepts(
    seq: u64,
    render_tables_inline: bool,
    before: RegistryView,
    next: Loading,
    after: RegistryView,
) -> bool {
    match parse_registry::find_seq(before.pending, seq) {
        None => next is Discarded && after == before,
        Some(i) => if before.pending[i].render_tables_inline != render_tables_inline {
            let entry = PendingParse { render_tables_inline, ..before.pending[i] };
            &&& after == (RegistryView { pending: before.pending.update(i, entry), ..before })
            &&& next matches Loading::ParseAgain(job)
            &&& job.serves(entry)
        } else {
            &&& after == before.taken(i, false)
            &&& next matches Loading::Loaded(loaded)
            &&& loaded.entry == before.pending[i]
            &&& loaded.select == selects(before.pending[i], before.restore_active_key)
            &&& loaded.restore_finished == (if before.completes_restore(i) {
                Some(before.failures_after(i, false))
            } else {
                None
            })
        },
    }
}

/// Takes in the successful parse of the open `seq`, where the current setting for tables is
/// `render_tables_inline`.
pub fn accept_parse(
    seq: u64,
    render_tables_inline: bool,
    registry: &mut ParseRegistry,
) -> (next: Loading)
    requires
        old(registry).wf(),
    ensures
        final(registry).wf(),
        accepts(seq, render_tables_inline, old(registry)@, next, final(registry)@),
{
    let job = match registry.by_seq_mut(seq) {
        Some(entry) => {
            if entry.render_tables_inline != render_tables_inline {
                // The table setting changed while this session was being built.
                entry.render_tables_inline = render_tables_inline;
                Some(ParseJob::for_entry(entry))
            } else {
                None
            }
        },
        None => {
            return Loading::Discarded;
        },
    };
    if let Some(job) = job {
        return Loading::ParseAgain(job);
    }
    proof {
        let i = parse_registry::find_seq(old(registry)@.pending, seq)->0;
        assert(registry@.pending =~= old(registry)@.pending);
        assert(registry@ == old(registry)@);
    }
    match registry.take(seq, false) {
        Some((entry, restore_finished)) => {
            let active = match registry.restore_active_key() {
                Some(key) => same_text(key, entry.key.as_str()),
                None => false,
            };
            let select = !entry.is_restore || entry.focus_when_done || active;
            Loading::Loaded(LoadedParse { entry, select, restore_finished })
        },
        None => Loading::Discarded,
    }
}

impl LoadedParse {
    /// The document is announced by its title: a restored one only if the user requested it again
    /// while it was pending.
    pub open spec fn announced(self) -> bool {
        !self.entry.is_restore || self.entry.focus_when_done
    }

    /// Whether the document is announced by its title: a restored one only if the user requested it
    /// again while it was pending.
    pub fn announces_title(&self) -> (r: bool)
        ensures
            r == self.announced(),
    {
        !self.entry.is_restore || self.entry.focus_when_done
    }

    /// Whether the document's tab or the restored session gets the focus.
    pub fn takes_focus(&self) -> (r: bool)
        ensures
            r == (self.restore_finished is Some || self.select),
    {
        self.restore_finished.is_some() || self.select
    }

    /// Whether the recent documents are listed anew: once per user open or restore group, not per
    /// restored tab.
    pub fn rebuilds_recent_documents(&self) -> (r: bool)
        ensures
            r == (!self.entry.is_restore || self.restore_finished is Some),
    {
        !self.entry.is_restore || self.restore_finished.is_some()
    }

    /// What is announced for the document, whose tab shows `title`.
    pub fn announcement(&self, title: &str) -> (r: Option<String>)
        ensures
            announces(
                if self.announced() {
                    Some(title@)
                } else {
                    None
                },
                self.restore_finished,
                text::text_view(r),
            ),
    {
        let loaded = if self.announces_title() {
            Some(fill_message("Document loaded: {}.", title))
        } else {
            None
        };
        let group = match self.restore_finished {
            Some(failed) => Some(t(group_message(failed))),
            None => None,
        };
        join_announcements(loaded, group)
    }
}

/// The message at the end of the startup restore.
pub open spec fn group_text(failed: usize) -> Seq<char> {
    if failed == 0 {
        "All documents loaded."@
    } else {
        "Document loading complete."@
    }
}

/// The message at the end of a startup restore in which `failed` documents failed to load.
pub fn group_message(failed: usize) -> (r: &'static str)
    ensures
        r@ == group_text(failed),
{
    if failed == 0 {
        "All documents loaded."
    } else {
        "Document loading complete."
    }
}

/// Two announcements in one.
pub open spec fn joined_announcements(
    loaded: Option<Seq<char>>,
    group: Option<Seq<char>>,
) -> Option<Seq<char>> {
    match (loaded, group) {
        (Some(first), Some(second)) => Some(first + seq![' '] + second),
        (Some(first), None) => Some(first),
        (None, second) => second,
    }
}

/// Makes one announcement out of two: the second call of two in a row may interrupt the first.
pub fn join_announcements(loaded: Option<String>, group: Option<String>) -> (r: Option<String>)
    ensures
        text::text_view(r) == joined_announcements(
            text::text_view(loaded),
            text::text_view(group),
        ),
{
    match (loaded, group) {
        (Some(first), Some(second)) => {
            let mut both = first;
            both.push(' ');
            both.append(second.as_str());
            Some(both)
        },
        (Some(first), None) => Some(first),
        (None, second) => second,
    }
}

/// `content` announces, in some language, the document with this title and the end of a startup
/// restore with this many failures.
pub open spec fn announces(
    title: Option<Seq<char>>,
    restore_finished: Option<usize>,
    content: Option<Seq<char>>,
) -> bool {
    exists|loaded: Option<Seq<char>>, group: Option<Seq<char>>|
        #![trigger joined_announcements(loaded, group)]
        {
            &&& content == joined_announcements(loaded, group)
            &&& match (title, loaded) {
                (Some(shown), Some(message)) => locale::fills(
                    "Document loaded: {}."@,
                    shown,
                    message,
                ),
                (None, None) => true,
                _ => false,
            }
            &&& match (restore_finished, group) {
                (Some(failed), Some(message)) => locale::translation_answer(
                    group_text(failed),
                    message,
                ),
                (None, None) => true,
                _ => false,
            }
        }
}

/// Where a failed parse stands: what has to be done next, or how it ended.
pub enum Failing {
    /// Nothing is left to do: the open was cancelled, or the window is shutting down.
    Dropped,
    /// Forget the document's password and ask for it.
    AskPassword { seq: u64, path: String },
    /// Parse the document again, with the password that the user gave.
    ParseAgain(ParseJob),
    /// Tell the user that the document could not be opened: because the password that it needs was
    /// not given, or because of the parser's error.
    Report { path: String, password_refused: bool, restore_finished: Option<usize> },
    /// Update the window. If the startup restore is over, give it the focus and announce its end.
    Conclude { restore_over: bool, announcement: Option<String> },
}

/// What was found out or done.
pub enum FailureEvent {
    /// The user gave a password or cancelled; the question may have shut the window down.
    Password { shutting_down: bool, password: Option<String> },
    /// The user was told, which may have shut the window down.
    Reported { shutting_down: bool },
}

/// A failure with this error is met by asking for the password: once per open.
pub open spec fn asks_password(
    entry: PendingParse,
    error: Seq<char>,
    password_prefix: Seq<char>,
) -> bool {
    text::occurs_at(error, password_prefix, 0) && !entry.password_attempted
}

/// The open `seq` has failed for good.
pub open spec fn fails(
    seq: u64,
    password_refused: bool,
    before: RegistryView,
    next: Failing,
    after: RegistryView,
) -> bool {
    match parse_registry::find_seq(before.pending, seq) {
        None => next is Dropped && after == before,
        Some(i) => {
            &&& after == before.taken(i, true)
            &&& next matches Failing::Report { path, password_refused: refused, restore_finished }
            &&& path@ == before.pending[i].path@
            &&& refused == password_refused
            &&& restore_finished == (if before.completes_restore(i) {
                Some(before.failures_after(i, true))
            } else {
                None
            })
        },
    }
}

/// The failed parse of the open `seq` leads to `next`, and the registry from `before` to `after`.
pub open spec fn failure_leads_to(
    seq: u64,
    error: Seq<char>,
    password_prefix: Seq<char>,
    before: RegistryView,
    next: Failing,
    after: RegistryView,
) -> bool {
    match parse_registry::find_seq(before.pending, seq) {
        None => next is Dropped && after == before,
        Some(i) => if asks_password(before.pending[i], error, password_prefix) {
            &&& after == before
            &&& next matches Failing::AskPassword { seq: asked, path }
            &&& asked == seq
            &&& path@ == before.pending[i].path@
        } else {
            fails(seq, false, before, next, after)
        },
    }
}

/// `entry` with the password that the user gave.
pub open spec fn with_password(entry: PendingParse, password: String) -> PendingParse {
    PendingParse { password, password_attempted: true, ..entry }
}

/// The failure of the open `seq` can be counted.
pub open spec fn can_count(seq: u64, registry: RegistryView) -> bool {
    parse_registry::find_seq(registry.pending, seq) matches Some(i)
        && registry.pending[i].is_restore ==> registry.restore_failed < usize::MAX
}

/// Takes the open `seq` out of the registry for good.
fn fail(seq: u64, password_refused: bool, registry: &mut ParseRegistry) -> (next: Failing)
    requires
        old(registry).wf(),
        can_count(seq, old(registry)@),
    ensures
        final(registry).wf(),
        fails(seq, password_refused, old(registry)@, next, final(registry)@),
{
    match registry.take(seq, true) {
        Some((entry, restore_finished)) => Failing::Report {
            path: entry.path,
            password_refused,
            restore_finished,
        },
        None => Failing::Dropped,
    }
}

/// Takes in the failed parse of the open `seq`. An error that starts with `password_prefix` says that
/// the document needs a password.
pub fn reject_parse(
    seq: u64,
    error: &str,
    password_prefix: &str,
    registry: &mut ParseRegistry,
) -> (next: Failing)
    requires
        old(registry).wf(),
        parse_registry::find_seq(old(registry)@.pending, seq) matches Some(i) && !asks_password(
            old(registry)@.pending[i],
            error@,
            password_prefix@,
        ) ==> can_count(seq, old(registry)@),
    ensures
        final(registry).wf(),
        failure_leads_to(seq, error@, password_prefix@, old(registry)@, next, final(registry)@),
{
    let asked = match registry.by_seq(seq) {
        Some(entry) => if starts_with(error, password_prefix) && !entry.password_attempted {
            Some(entry.path.clone())
        } else {
            None
        },
        None => {
            return Failing::Dropped;
        },
    };
    match asked {
        Some(path) => Failing::AskPassword { seq, path },
        None => fail(seq, false, registry),
    }
}

impl Failing {
    /// `event` leads from this state to `next`, and the registry from `before` to `after`. An event
    /// that does not answer the state changes nothing.
    pub open spec fn leads_to(
        self,
        event: FailureEvent,
        before: RegistryView,
        next: Failing,
        after: RegistryView,
    ) -> bool {
        match (self, event) {
            (
                Failing::AskPassword { seq, .. },
                FailureEvent::Password { shutting_down, password },
            ) => if shutting_down {
                next is Dropped && after == before
            } else {
                match (password, parse_registry::find_seq(before.pending, seq)) {
                    (None, _) => fails(seq, true, before, next, after),
                    (Some(_), None) => next is Dropped && after == before,
                    (Some(given), Some(i)) => {
                        let entry = with_password(before.pending[i], given);
                        &&& after == (RegistryView {
                            pending: before.pending.update(i, entry),
                            ..before
                        })
                        &&& next matches Failing::ParseAgain(job)
                        &&& job.serves(entry)
                    },
                }
            },
            (
                Failing::Report { restore_finished, .. },
                FailureEvent::Reported { shutting_down },
            ) => {
                &&& after == before
                &&& if shutting_down {
                    next is Dropped
                } else {
                    &&& next matches Failing::Conclude { restore_over, announcement }
                    &&& restore_over == (restore_finished is Some)
                    &&& announces(None, restore_finished, text::text_view(announcement))
                }
            },
            (state, _) => next == state && after == before,
        }
    }

    /// Goes on with what was found out or done.
    pub fn step(self, event: FailureEvent, registry: &mut ParseRegistry) -> (next: Failing)
        requires
            old(registry).wf(),
            self matches Failing::AskPassword { seq, .. } ==> (event == (FailureEvent::Password {
                shutting_down: false,
                password: None,
            }) ==> can_count(seq, old(registry)@)),
        ensures
            final(registry).wf(),
            self.leads_to(event, old(registry)@, next, final(registry)@),
    {
        match (self, event) {
            (
                Failing::AskPassword { seq, .. },
                FailureEvent::Password { shutting_down, password },
            ) => {
                if shutting_down {
                    return Failing::Dropped;
                }
                match password {
                    Some(given) => match registry.by_seq_mut(seq) {
                        Some(entry) => {
                            entry.password = given;
                            entry.password_attempted = true;
                            Failing::ParseAgain(ParseJob::for_entry(entry))
                        },
                        None => Failing::Dropped,
                    },
                    None => fail(seq, true, registry),
                }
            },
            (
                Failing::Report { restore_finished, .. },
                FailureEvent::Reported { shutting_down },
            ) => {
                if shutting_down {
                    return Failing::Dropped;
                }
                let announcement = match restore_finished {
                    Some(failed) => Some(t(group_message(failed))),
                    None => None,
                };
                let ghost none: Option<Seq<char>> = None;
                proof {
                    assert(text::text_view(announcement) == joined_announcements(
                        none,
                        text::text_view(announcement),
                    ));
                }
                Failing::Conclude { restore_over: restore_finished.is_some(), announcement }
            },
            (state, _) => state,
        }
    }
}

/// The message for a document whose password was not given.
pub fn password_message() -> (r: String)
    ensures
        locale::translation_answer("Password is required."@, r@),
{
    t("Password is required.")
}

/// The result of a parse whose open was cancelled is discarded, whether it succeeded or failed.
pub proof fn law_cancelled_result_is_discarded(
    seq: u64,
    render_tables_inline: bool,
    error: Seq<char>,
    password_prefix: Seq<char>,
    before: RegistryView,
    loading: Loading,
    failing: Failing,
    after: RegistryView,
)
    requires
        parse_registry::find_seq(before.pending, seq) is None,
        accepts(seq, render_tables_inline, before, loading, after) || failure_leads_to(
            seq,
            error,
            password_prefix,
            before,
            failing,
            after,
        ),
    ensures
        after == before,
        accepts(seq, render_tables_inline, before, loading, after) ==> loading is Discarded,
        failure_leads_to(seq, error, password_prefix, before, failing, after) ==> failing
            is Dropped,
{
}

/// A document is shown only if it was parsed under the current setting for tables.
pub proof fn law_shown_document_has_the_current_setting(
    seq: u64,
    render_tables_inline: bool,
    before: RegistryView,
    next: Loading,
    after: RegistryView,
)
    requires
        accepts(seq, render_tables_inline, before, next, after),
    ensures
        next matches Loading::Loaded(loaded) ==> loaded.entry.render_tables_inline
            == render_tables_inline,
        next matches Loading::ParseAgain(job) ==> job.render_tables_inline == render_tables_inline
            && job.seq == seq,
{
    parse_registry::lemma_find_seq(before.pending, seq);
}

/// The password of a document is asked for once: after a parse with the password that the user gave,
/// the next failure of the same open is final.
pub proof fn law_password_is_asked_once(
    seq: u64,
    path: String,
    password: String,
    before: RegistryView,
    job: ParseJob,
    between: RegistryView,
    error: Seq<char>,
    password_prefix: Seq<char>,
    next: Failing,
    after: RegistryView,
)
    requires
        (Failing::AskPassword { seq, path }).leads_to(
            FailureEvent::Password { shutting_down: false, password: Some(password) },
            before,
            Failing::ParseAgain(job),
            between,
        ),
        failure_leads_to(seq, error, password_prefix, between, next, after),
    ensures
        !(next is AskPassword),
        next is Report,
        job.password@ == password@,
{
    parse_registry::lemma_find_seq(before.pending, seq);
    let i: int = parse_registry::find_seq(before.pending, seq)->0;
    parse_registry::lemma_find_seq(between.pending, seq);
    assert(between.pending[i].seq == seq);
    let k: int = parse_registry::find_seq(between.pending, seq)->0;
    if k < i {
        assert(between.pending[k] == before.pending[k]);
    }
}

/// A restored document is selected exactly if it was the active one, as long as the user did not ask
/// for it again, and a document of the user always is.
pub proof fn law_active_document_is_selected_again(
    entry: PendingParse,
    restore_active_key: Option<Seq<char>>,
)
    ensures
        entry.is_restore && !entry.focus_when_done ==> (selects(entry, restore_active_key)
            <==> restore_active_key == Some(entry.key@)),
        !entry.is_restore || entry.focus_when_done ==> selects(entry, restore_active_key),
{
}

/// Whatever a parse leads to, no document is being opened twice.
pub proof fn law_completions_keep_documents_apart(
    seq: u64,
    render_tables_inline: bool,
    error: Seq<char>,
    password_prefix: Seq<char>,
    before: RegistryView,
    loading: Loading,
    failing: Failing,
    event: FailureEvent,
    next: Failing,
    after: RegistryView,
)
    requires
        before.keys_unique(),
        accepts(seq, render_tables_inline, before, loading, after) || failure_leads_to(
            seq,
            error,
            password_prefix,
            before,
            next,
            after,
        ) || failing.leads_to(event, before, next, after),
    ensures
        after.keys_unique(),
{
    lemma_found_opens_stay_apart(seq, before);
    if let Failing::AskPassword { seq: asked, .. } = failing {
        lemma_found_opens_stay_apart(asked, before);
    }
}

proof fn lemma_found_opens_stay_apart(seq: u64, before: RegistryView)
    requires
        before.keys_unique(),
    ensures
        parse_registry::find_seq(before.pending, seq) matches Some(i) ==> {
            &&& before.taken(i, false).keys_unique()
            &&& before.taken(i, true).keys_unique()
            &&& forall|entry: PendingParse|
                entry.key@ == before.pending[i].key@ ==> (RegistryView {
                    pending: #[trigger] before.pending.update(i, entry),
                    ..before
                }).keys_unique()
        },
{
    parse_registry::lemma_find_seq(before.pending, seq);
    if let Some(i) = parse_registry::find_seq(before.pending, seq) {
        parse_registry::law_keys_stay_unique(before, i, false);
        parse_registry::law_keys_stay_unique(before, i, true);
    }
}

proof fn lemma_open_at(registry: RegistryView, seq: u64, i: int)
    requires
        registry.wf(),
    ensures
        0 <= i < registry.pending.len() && registry.pending[i].seq == seq
            ==> parse_registry::find_seq(registry.pending, seq) == Some(i),
        (forall|j: int|
            0 <= j < registry.pending.len() ==> (#[trigger] registry.pending[j]).seq != seq)
            ==> parse_registry::find_seq(registry.pending, seq) is None,
{
    parse_registry::lemma_find_seq(registry.pending, seq);
    if 0 <= i < registry.pending.len() && registry.pending[i].seq == seq {
        let k: int = parse_registry::find_seq(registry.pending, seq)->0;
        if k < i {
            assert(registry.pending[k].seq < registry.pending[i].seq);
        }
        if i < k {
            assert(registry.pending[i].seq < registry.pending[k].seq);
        }
    }
}

proof fn lemma_restore_is_over(registry: RegistryView, i: int)
    requires
        0 <= i < registry.pending.len(),
    ensures
        registry.completes_restore(i) <==> registry.pending[i].is_restore && forall|j: int|
            0 <= j < registry.pending.len() && j != i ==> !(
            #[trigger] registry.pending[j]).is_restore,
{
    let rest = registry.pending.remove(i);
    if parse_registry::restore_pending(rest) {
        let j = choose|j: int| 0 <= j < rest.len() && (#[trigger] rest[j]).is_restore;
        let from: int = if j < i {
            j
        } else {
            j + 1
        };
        assert(registry.pending[from].is_restore);
    } else {
        assert forall|j: int| 0 <= j < registry.pending.len() && j != i implies !(
        #[trigger] registry.pending[j]).is_restore by {
            let to: int = if j < i {
                j
            } else {
                j - 1
            };
            assert(rest[to] == registry.pending[j]);
            assert(!rest[to].is_restore);
        }
    }
}

/// A document that was parsed under the current table setting is shown: its open leaves the registry, and
/// the others stay. One that was parsed under another setting is parsed again under the current one, with
/// everything else as before. A cancelled open is discarded.
pub proof fn law_parsed_document_is_shown(
    seq: u64,
    render_tables_inline: bool,
    registry: &mut ParseRegistry,
    next: Loading,
    i: int,
)
    requires
        old(registry).wf(),
        call_ensures(accept_parse, (seq, render_tables_inline, registry), next),
    ensures
        0 <= i < old(registry)@.pending.len() && old(registry)@.pending[i].seq == seq ==> {
            let before = old(registry)@;
            let after = final(registry)@;
            let entry = before.pending[i];
            &&& entry.render_tables_inline == render_tables_inline ==> {
                &&& next matches Loading::Loaded(loaded)
                &&& loaded.entry == entry
                &&& !entry.is_restore ==> loaded.select
                &&& entry.focus_when_done ==> loaded.select
                &&& entry.is_restore && !entry.focus_when_done ==> (loaded.select
                    <==> before.restore_active_key == Some(entry.key@))
                &&& loaded.restore_finished is Some <==> entry.is_restore && forall|j: int|
                    0 <= j < before.pending.len() && j != i ==> !(
                    #[trigger] before.pending[j]).is_restore
                &&& loaded.restore_finished matches Some(failed) ==> failed == before.restore_failed
                &&& after.pending == before.pending.remove(i)
                &&& after.restore_active_key == before.restore_active_key
                &&& after.next_seq == before.next_seq
            }
            &&& entry.render_tables_inline != render_tables_inline ==> {
                &&& next matches Loading::ParseAgain(job)
                &&& job.seq == seq
                &&& job.path@ == entry.path@
                &&& job.password@ == entry.password@
                &&& job.forced_extension@ == entry.forced_extension@
                &&& job.render_tables_inline == render_tables_inline
                &&& after == (RegistryView {
                    pending: before.pending.update(
                        i,
                        PendingParse { render_tables_inline, ..entry },
                    ),
                    ..before
                })
            }
        },
        (forall|j: int|
            0 <= j < old(registry)@.pending.len() ==> (#[trigger] old(registry)@.pending[j]).seq
                != seq) ==> next is Discarded && final(registry)@ == old(registry)@,
{
    lemma_open_at(old(registry)@, seq, i);
    if 0 <= i < old(registry)@.pending.len() {
        lemma_restore_is_over(old(registry)@, i);
    }
}

/// A parse that fails because the document needs a password leads to the question for it, the first time,
/// and leaves the open pending. Any other failure is final: the open leaves the registry and is reported
/// by its path, and at the end of a restore all its failures are given out.
pub proof fn law_failed_document_is_reported(
    seq: u64,
    error: &str,
    password_prefix: &str,
    registry: &mut ParseRegistry,
    next: Failing,
    i: int,
)
    requires
        old(registry).wf(),
        old(registry)@.restore_failed < usize::MAX,
        call_ensures(reject_parse, (seq, error, password_prefix, registry), next),
    ensures
        0 <= i < old(registry)@.pending.len() && old(registry)@.pending[i].seq == seq ==> {
            let before = old(registry)@;
            let after = final(registry)@;
            let entry = before.pending[i];
            let needs_password = password_prefix@.len() <= error@.len() && error@.take(
                password_prefix@.len() as int,
            ) == password_prefix@;
            &&& needs_password && !entry.password_attempted ==> {
                &&& next matches Failing::AskPassword { seq: asked, path }
                &&& asked == seq
                &&& path@ == entry.path@
                &&& after == before
            }
            &&& !needs_password || entry.password_attempted ==> {
                &&& next matches Failing::Report { path, password_refused, restore_finished }
                &&& path@ == entry.path@
                &&& !password_refused
                &&& after.pending == before.pending.remove(i)
                &&& restore_finished is Some <==> entry.is_restore && forall|j: int|
                    0 <= j < before.pending.len() && j != i ==> !(
                    #[trigger] before.pending[j]).is_restore
                &&& restore_finished matches Some(failed) ==> failed == before.restore_failed + 1
                    && after.restore_failed == 0
                &&& restore_finished is None ==> after.restore_failed == before.restore_failed
                    + if entry.is_restore {
                    1int
                } else {
                    0
                }
            }
        },
        (forall|j: int|
            0 <= j < old(registry)@.pending.len() ==> (#[trigger] old(registry)@.pending[j]).seq
                != seq) ==> next is Dropped && final(registry)@ == old(registry)@,
{
    lemma_open_at(old(registry)@, seq, i);
    if 0 <= i < old(registry)@.pending.len() {
        lemma_restore_is_over(old(registry)@, i);
    }
    if password_prefix@.len() <= error@.len() {
        assert(error@.take(password_prefix@.len() as int) =~= error@.subrange(
            0,
            password_prefix@.len() as int,
        ));
    }
}

/// The password that the user gives is used for the next parse of the same open, which otherwise stays as
/// it is. A user who gives none ends the open, which is reported as lacking its password. A window that
/// shut down while the question was open, and an open that was cancelled then, are left alone.
pub proof fn law_given_password_is_used(
    seq: u64,
    path: String,
    shutting_down: bool,
    password: Option<String>,
    registry: &mut ParseRegistry,
    next: Failing,
    i: int,
)
    requires
        old(registry).wf(),
        old(registry)@.restore_failed < usize::MAX,
        call_ensures(
            Failing::step,
            (
                Failing::AskPassword { seq, path },
                FailureEvent::Password { shutting_down, password },
                registry,
            ),
            next,
        ),
    ensures
        shutting_down ==> next is Dropped && final(registry)@ == old(registry)@,
        !shutting_down && 0 <= i < old(registry)@.pending.len() && old(registry)@.pending[i].seq
            == seq ==> {
            let before = old(registry)@;
            let after = final(registry)@;
            let entry = before.pending[i];
            &&& password matches Some(given) ==> {
                &&& next matches Failing::ParseAgain(job)
                &&& job.seq == seq
                &&& job.path@ == entry.path@
                &&& job.password@ == given@
                &&& job.forced_extension@ == entry.forced_extension@
                &&& job.render_tables_inline == entry.render_tables_inline
                &&& after == (RegistryView {
                    pending: before.pending.update(
                        i,
                        PendingParse { password: given, password_attempted: true, ..entry },
                    ),
                    ..before
                })
            }
            &&& password is None ==> {
                &&& next matches Failing::Report {
                    path: reported,
                    password_refused,
                    restore_finished,
                }
                &&& reported@ == entry.path@
                &&& password_refused
                &&& after.pending == before.pending.remove(i)
                &&& restore_finished is Some <==> entry.is_restore && forall|j: int|
                    0 <= j < before.pending.len() && j != i ==> !(
                    #[trigger] before.pending[j]).is_restore
                &&& restore_finished matches Some(failed) ==> failed == before.restore_failed + 1
            }
        },
        !shutting_down && (forall|j: int|
            0 <= j < old(registry)@.pending.len() ==> (#[trigger] old(registry)@.pending[j]).seq
                != seq) ==> next is Dropped && final(registry)@ == old(registry)@,
{
    lemma_open_at(old(registry)@, seq, i);
    if 0 <= i < old(registry)@.pending.len() {
        lemma_restore_is_over(old(registry)@, i);
    }
}

/// Once a failure was reported, the window is updated, unless it shut down. The end of a restore is
/// announced as complete success only if nothing failed.
pub proof fn law_failure_is_concluded(
    state: Failing,
    event: FailureEvent,
    registry: &mut ParseRegistry,
    next: Failing,
)
    requires
        call_ensures(Failing::step, (state, event, registry), next),
    ensures
        state matches Failing::Report { restore_finished, .. } ==> (
        event matches FailureEvent::Reported { shutting_down } ==> {
            &&& final(registry)@ == old(registry)@
            &&& shutting_down ==> next is Dropped
            &&& !shutting_down ==> {
                &&& next matches Failing::Conclude { restore_over, announcement }
                &&& restore_over <==> restore_finished is Some
                &&& restore_finished is None ==> announcement is None
                &&& restore_finished matches Some(failed) ==> (announcement matches Some(message)
                    && (failed == 0 ==> locale::translation_answer(
                    "All documents loaded."@,
                    message@,
                )) && (failed > 0 ==> locale::translation_answer(
                    "Document loading complete."@,
                    message@,
                )))
            }
        }),
        state is Dropped || state is ParseAgain || state is Conclude ==> next == state && final(
            registry)@ == old(registry)@,
        state is AskPassword && event is Reported ==> next == state && final(registry)@ == old(
            registry)@,
        state is Report && event is Password ==> next == state && final(registry)@ == old(
            registry)@,
{
    if let Failing::Report { restore_finished, .. } = state {
        if let Failing::Conclude { announcement, .. } = next {
            let content = text::text_view(announcement);
            if event is Reported {
                let (loaded, group) = choose|loaded: Option<Seq<char>>, group: Option<Seq<char>>|
                    #![trigger joined_announcements(loaded, group)]
                    {
                        &&& content == joined_announcements(loaded, group)
                        &&& loaded is None
                        &&& match (restore_finished, group) {
                            (Some(failed), Some(message)) => locale::translation_answer(
                                group_text(failed),
                                message,
                            ),
                            (None, None) => true,
                            _ => false,
                        }
                    };
                assert(content == group);
            }
        }
    }
}

/// A loaded document is announced by its title if the user asked for it; a restored one only if the user
/// asked for it again. The end of the restore is announced with it, in one announcement, as complete
/// success only if nothing failed.
pub proof fn law_loaded_document_is_announced(loaded: LoadedParse, title: &str, r: Option<String>)
    requires
        call_ensures(LoadedParse::announcement, (&loaded, title), r),
    ensures
        ({
            let named = !loaded.entry.is_restore || loaded.entry.focus_when_done;
            &&& !named && loaded.restore_finished is None ==> r is None
            &&& named && loaded.restore_finished is None ==> (r matches Some(message)
                && locale::fills("Document loaded: {}."@, title@, message@))
            &&& !named ==> (loaded.restore_finished matches Some(failed) ==> (
            r matches Some(message) && ends_restore(failed, message@)))
            &&& named ==> (loaded.restore_finished matches Some(failed) ==> (
            r matches Some(message) && exists|first: Seq<char>, second: Seq<char>| #[trigger]
                locale::fills("Document loaded: {}."@, title@, first) && #[trigger] ends_restore(
                    failed,
                    second,
                ) && message@ == first + seq![' '] + second))
        }),
{
    let shown = if loaded.announced() {
        Some(title@)
    } else {
        None
    };
    let content = text::text_view(r);
    let (first, group) = choose|first: Option<Seq<char>>, group: Option<Seq<char>>|
        #![trigger joined_announcements(first, group)]
        {
            &&& content == joined_announcements(first, group)
            &&& match (shown, first) {
                (Some(name), Some(message)) => locale::fills(
                    "Document loaded: {}."@,
                    name,
                    message,
                ),
                (None, None) => true,
                _ => false,
            }
            &&& match (loaded.restore_finished, group) {
                (Some(failed), Some(message)) => locale::translation_answer(
                    group_text(failed),
                    message,
                ),
                (None, None) => true,
                _ => false,
            }
        };
    assert(content == joined_announcements(first, group));
    if let Some(failed) = loaded.restore_finished {
        assert(ends_restore(failed, group->0));
    }
}

/// `message` announces, in some language, the end of a restore with this many failures.
pub open spec fn ends_restore(failed: usize, message: Seq<char>) -> bool {
    &&& failed == 0 ==> locale::translation_answer("All documents loaded."@, message)
    &&& failed > 0 ==> locale::translation_answer("Document loading complete."@, message)
}

/// Who gets the focus, whose title is announced, and when the recent documents are listed anew: for opens
/// of the user always, for restored ones at the end of the restore.
pub proof fn law_loaded_document_and_the_window(
    loaded: LoadedParse,
    titled: bool,
    focused: bool,
    listed: bool,
    message: &'static str,
    failed: usize,
)
    requires
        call_ensures(LoadedParse::announces_title, (&loaded,), titled),
        call_ensures(LoadedParse::takes_focus, (&loaded,), focused),
        call_ensures(LoadedParse::rebuilds_recent_documents, (&loaded,), listed),
        call_ensures(group_message, (failed,), message),
    ensures
        titled <==> !(loaded.entry.is_restore && !loaded.entry.focus_when_done),
        focused <==> loaded.select || loaded.restore_finished is Some,
        !loaded.entry.is_restore ==> listed,
        loaded.entry.is_restore ==> (listed <==> loaded.restore_finished is Some),
        failed == 0 ==> message@ == "All documents loaded."@,
        failed > 0 ==> message@ == "Document loading complete."@,
{
}

/// Two announcements become one, in order, with a space between them; one alone stays as it is.
pub proof fn law_announcements_are_joined(
    loaded: Option<String>,
    group: Option<String>,
    r: Option<String>,
    refused: String,
)
    requires
        call_ensures(join_announcements, (loaded, group), r),
        call_ensures(password_message, (), refused),
    ensures
        loaded is None && group is None ==> r is None,
        loaded matches Some(a) ==> (group matches Some(b) ==> (r matches Some(both) && both@ == a@
            + seq![' '] + b@)),
        loaded matches Some(a) ==> (group is None ==> (r matches Some(one) && one@ == a@)),
        loaded is None ==> (group matches Some(b) ==> (r matches Some(one) && one@ == b@)),
        locale::translation_answer("Password is required."@, refused@),
{
}

} // verus!
