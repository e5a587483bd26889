//! Opening a document, from the request to the parse that is started for it.

use vstd::prelude::*;
use crate::locale;
use crate::locale::fill_message;
use crate::names;
use crate::names::{sidecar_path, title_or_filename};
use crate::parse_registry;
use crate::parse_registry::{ParseRegistry, PendingParse, RegistryView};
use crate::paths;
use crate::text;

verus! {

/// How a document open should present itself. The default is a tracked, user-initiated open with
/// no title or caret override.
pub struct OpenRequest {
    /// Whether to remember the document in recent files, saved positions, and the restore list.
    /// Help and source views are untracked.
    pub track: bool,
    /// Set for opens replaying a previous session, which must not prompt about sidecar files the
    /// user already answered for.
    pub is_restore: bool,
    /// Tab title to use instead of the document's own, for synthetic documents like source views.
    pub title_override: Option<String>,
    /// Caret position to jump to once the tab exists.
    pub initial_caret: Option<i64>,
}

impl Default for OpenRequest {
    fn default() -> (r: Self)
        ensures
            r.track,
            !r.is_restore,
            r.title_override is None,
            r.initial_caret is None,
    {
        OpenRequest { track: true, is_restore: false, title_override: None, initial_caret: None }
    }
}

impl OpenRequest {
    /// The request that replays a document of the previous session.
    pub fn restoring() -> (r: Self)
        ensures
            r.track,
            r.is_restore,
            r.title_override is None,
            r.initial_caret is None,
    {
        OpenRequest { track: true, is_restore: true, title_override: None, initial_caret: None }
    }

    /// The request for a document that is shown under `title`, with the caret at `caret`, and is not
    /// remembered.
    pub fn synthetic(title: String, caret: i64) -> (r: Self)
        ensures
            !r.track,
            !r.is_restore,
            r.title_override == Some(title),
            r.initial_caret == Some(caret),
    {
        OpenRequest {
            track: false,
            is_restore: false,
            title_override: Some(title),
            initial_caret: Some(caret),
        }
    }
}

/// A parse to run in the background.
pub struct ParseJob {
    pub seq: u64,
    pub path: String,
    pub password: String,
    pub forced_extension: String,
    pub render_tables_inline: bool,
}

impl ParseJob {
    /// This job parses what `entry` asks for.
    pub open spec fn serves(self, entry: PendingParse) -> bool {
        &&& self.seq == entry.seq
        &&& self.path@ == entry.path@
        &&& self.password@ == entry.password@
        &&& self.forced_extension@ == entry.forced_extension@
        &&& self.render_tables_inline == entry.render_tables_inline
    }

    /// The job that parses what `entry` asks for.
    pub fn for_entry(entry: &PendingParse) -> (r: ParseJob)
        ensures
            r.serves(*entry),
    {
        ParseJob {
            seq: entry.seq,
            path: entry.path.clone(),
            password: entry.password.clone(),
            forced_extension: entry.forced_extension.clone(),
            render_tables_inline: entry.render_tables_inline,
        }
    }
}

/// `entry` was registered for a request to open the document at `path`, whose key is `key`.
pub open spec fn is_entry_for(
    entry: PendingParse,
    path: Seq<char>,
    key: Seq<char>,
    request: OpenRequest,
) -> bool {
    &&& entry.path@ == path
    &&& entry.key@ == key
    &&& entry.track == request.track
    &&& entry.is_restore == request.is_restore
    &&& entry.title_override == request.title_override
    &&& entry.initial_caret == request.initial_caret
    &&& !entry.focus_when_done
    &&& entry.password@.len() == 0
    &&& !entry.password_attempted
    &&& entry.forced_extension@.len() == 0
    &&& entry.render_tables_inline
}

/// `entry` once another request for the same document joined it: it takes the focus if the user
/// asked for it, and goes to the latest caret position.
pub open spec fn joined(entry: PendingParse, request: OpenRequest) -> PendingParse {
    PendingParse {
        focus_when_done: entry.focus_when_done || !request.is_restore,
        initial_caret: if request.initial_caret is Some {
            request.initial_caret
        } else {
            entry.initial_caret
        },
        ..entry
    }
}

/// `entry` with the settings that its parse will use.
pub open spec fn prepared(
    entry: PendingParse,
    password: String,
    forced_extension: String,
    render_tables_inline: bool,
) -> PendingParse {
    PendingParse { password, forced_extension, render_tables_inline, ..entry }
}

/// An open that was registered.
pub struct RegisteredOpen {
    pub seq: u64,
    pub path: String,
    pub is_restore: bool,
    /// What the document is called while it loads; synthetic documents go by their tab title, not
    /// their temporary file.
    pub name: String,
}

/// Where a request to open a document stands: what has to be found out or done next, or how it ended.
pub enum Opening {
    /// Make sure that some parser can read the document, which may ask the user.
    EnsureParser { path: String, request: OpenRequest },
    /// Find out whether the window is shutting down; the question to the user may have closed it.
    CheckShutdown { path: String, request: OpenRequest },
    /// Find out whether the file exists.
    CheckFile { path: String, request: OpenRequest },
    /// Show this message.
    ReportMissing { message: String },
    /// Find the key of the path and the tab that already shows the document.
    Place { path: String, request: OpenRequest },
    /// Bring this tab forward, and its caret to this position if there is one.
    ShowTab { index: usize, caret: Option<i64> },
    /// Find out whether this file exists.
    CheckSidecar { open: RegisteredOpen, sidecar: String },
    /// Ask whether this file shall be imported.
    OfferImport { open: RegisteredOpen, sidecar: String },
    /// Import this file.
    Import { open: RegisteredOpen, sidecar: String },
    /// Find out whether the window is shutting down; the question about the import may have closed
    /// it.
    CheckShutdownAgain { open: RegisteredOpen },
    /// Read the settings that the parse will use.
    ReadSettings { open: RegisteredOpen },
    /// Announce, show the status and start the parse.
    StartParse { job: ParseJob, announcement: Option<String>, status: Option<String> },
    /// The request is dealt with; `false` only for a file that cannot be opened at all, since a parse
    /// failure is not known yet.
    Finished(bool),
}

/// What was found out or done.
pub enum OpenEvent {
    /// Yes or no.
    Answer(bool),
    /// The key of the path and the tab that already shows the document.
    Place { key: String, tab: Option<usize> },
    /// The settings that the parse will use.
    Settings { password: String, forced_extension: String, render_tables_inline: bool },
    /// It was done.
    Done,
}

/// The registry once a request found its document open or pending: startup restore must not override
/// the user's selection.
pub open spec fn without_restore_selection(
    registry: RegistryView,
    request: OpenRequest,
) -> RegistryView {
    if request.is_restore {
        registry
    } else {
        RegistryView { restore_active_key: None, ..registry }
    }
}

/// The state that follows the registration of `open`: only the user is offered an import.
pub open spec fn follows_registration(
    entry: PendingParse,
    path: String,
    request: OpenRequest,
    next: Opening,
) -> bool {
    match next {
        Opening::CheckSidecar { open, sidecar } => !request.is_restore && is_open_for(
            open,
            entry,
            path,
            request,
        ) && names::is_sidecar(path@, sidecar@),
        Opening::ReadSettings { open } => request.is_restore && is_open_for(
            open,
            entry,
            path,
            request,
        ),
        _ => false,
    }
}

/// `open` stands for `entry`, which was registered for `request`.
pub open spec fn is_open_for(
    open: RegisteredOpen,
    entry: PendingParse,
    path: String,
    request: OpenRequest,
) -> bool {
    &&& open.seq == entry.seq
    &&& open.path == path
    &&& open.is_restore == request.is_restore
    &&& names::names_document(
        text::or_empty(text::text_view(request.title_override)),
        path@,
        open.name@,
    )
}

/// The document is neither shown in a tab nor being opened.
pub open spec fn is_new(key: Seq<char>, tab: Option<usize>, registry: RegistryView) -> bool {
    tab is None && parse_registry::find_key(registry.pending, key) is None
}

/// The request to open the document at `path` was placed: an open tab is shown, a pending open is
/// joined, and anything else is registered.
pub open spec fn placed(
    path: String,
    request: OpenRequest,
    key: Seq<char>,
    tab: Option<usize>,
    before: RegistryView,
    next: Opening,
    after: RegistryView,
) -> bool {
    match (tab, parse_registry::find_key(before.pending, key)) {
        (Some(index), _) => {
            &&& next == (Opening::ShowTab { index, caret: request.initial_caret })
            &&& after == without_restore_selection(before, request)
        },
        (None, Some(i)) => {
            &&& next == Opening::Finished(true)
            &&& after == (RegistryView {
                pending: before.pending.update(i, joined(before.pending[i], request)),
                ..without_restore_selection(before, request)
            })
        },
        (None, None) => {
            &&& after.pending.len() == before.pending.len() + 1
            &&& after == before.registered(after.pending.last())
            &&& is_entry_for(after.pending.last(), path@, key, request)
            &&& follows_registration(after.pending.last(), path, request, next)
        },
    }
}

/// The open named `open` starts its parse, unless it was cancelled in the meantime.
pub open spec fn parse_starts(
    open: RegisteredOpen,
    password: String,
    forced_extension: String,
    render_tables_inline: bool,
    before: RegistryView,
    next: Opening,
    after: RegistryView,
) -> bool {
    match parse_registry::find_seq(before.pending, open.seq) {
        Some(i) => {
            &&& after == (RegistryView {
                pending: before.pending.update(
                    i,
                    prepared(before.pending[i], password, forced_extension, render_tables_inline),
                ),
                ..before
            })
            &&& next matches Opening::StartParse { job, announcement, status }
            &&& job.serves(after.pending[i])
            &&& after.busy_text_is(text::text_view(status))
            &&& match announcement {
                Some(message) => !open.is_restore && locale::fills(
                    "Loading {}…"@,
                    open.name@,
                    message@,
                ),
                None => open.is_restore,
            }
        },
        None => next == Opening::Finished(true) && after == before,
    }
}

impl Opening {
    /// `event` leads from this state to `next`, and the registry from `before` to `after`. An event
    /// that does not answer the state changes nothing.
    pub open spec fn leads_to(
        self,
        event: OpenEvent,
        before: RegistryView,
        next: Opening,
        after: RegistryView,
    ) -> bool {
        match (self, event) {
            (Opening::Place { path, request }, OpenEvent::Place { key, tab }) => placed(
                path,
                request,
                key@,
                tab,
                before,
                next,
                after,
            ),
            (
                Opening::ReadSettings { open },
                OpenEvent::Settings { password, forced_extension, render_tables_inline },
            ) => parse_starts(
                open,
                password,
                forced_extension,
                render_tables_inline,
                before,
                next,
                after,
            ),
            (Opening::EnsureParser { path, request }, OpenEvent::Answer(ready)) => {
                &&& after == before
                &&& next == (if ready {
                    Opening::CheckShutdown { path, request }
                } else {
                    Opening::Finished(false)
                })
            },
            (Opening::CheckShutdown { path, request }, OpenEvent::Answer(shutting_down)) => {
                &&& after == before
                &&& next == (if shutting_down {
                    Opening::Finished(true)
                } else {
                    Opening::CheckFile { path, request }
                })
            },
            (Opening::CheckFile { path, request }, OpenEvent::Answer(exists)) => {
                &&& after == before
                &&& if exists {
                    next == (Opening::Place { path, request })
                } else {
                    next matches Opening::ReportMissing { message } && locale::fills(
                        "File not found: {}"@,
                        path@,
                        message@,
                    )
                }
            },
            (Opening::ReportMissing { .. }, OpenEvent::Done) => {
                &&& after == before
                &&& next == Opening::Finished(false)
            },
            (Opening::ShowTab { .. }, OpenEvent::Done) => {
                &&& after == before
                &&& next == Opening::Finished(true)
            },
            (Opening::CheckSidecar { open, sidecar }, OpenEvent::Answer(exists)) => {
                &&& after == before
                &&& next == (if exists {
                    Opening::OfferImport { open, sidecar }
                } else {
                    Opening::ReadSettings { open }
                })
            },
            (Opening::OfferImport { open, sidecar }, OpenEvent::Answer(accepted)) => {
                &&& after == before
                &&& next == (if accepted {
                    Opening::Import { open, sidecar }
                } else {
                    Opening::CheckShutdownAgain { open }
                })
            },
            (Opening::Import { open, .. }, OpenEvent::Done) => {
                &&& after == before
                &&& next == (Opening::CheckShutdownAgain { open })
            },
            (Opening::CheckShutdownAgain { open }, OpenEvent::Answer(shutting_down)) => {
                &&& after == before
                &&& next == (if shutting_down {
                    Opening::Finished(true)
                } else {
                    Opening::ReadSettings { open }
                })
            },
            (Opening::StartParse { .. }, OpenEvent::Done) => {
                &&& after == before
                &&& next == Opening::Finished(true)
            },
            (state, _) => next == state && after == before,
        }
    }

    /// `event` registers the request.
    pub open spec fn registers(self, event: OpenEvent, registry: RegistryView) -> bool {
        &&& self is Place
        &&& event matches OpenEvent::Place { key, tab }
        &&& is_new(key@, tab, registry)
    }

    /// Starts a request to open the document at `path`. Resolving the format comes first, since it is
    /// one of the settings that the parse will use.
    pub fn start(path: String, request: OpenRequest) -> (r: Opening)
        ensures
            r == (Opening::EnsureParser { path, request }),
    {
        Opening::EnsureParser { path, request }
    }

    /// Goes on with what was found out or done.
    pub fn step(self, event: OpenEvent, registry: &mut ParseRegistry) -> (next: Opening)
        requires
            old(registry).wf(),
            self.registers(event, old(registry)@) ==> old(registry)@.next_seq < u64::MAX,
        ensures
            final(registry).wf(),
            self.leads_to(event, old(registry)@, next, final(registry)@),
    {
        match (self, event) {
            (Opening::EnsureParser { path, request }, OpenEvent::Answer(ready)) => if ready {
                Opening::CheckShutdown { path, request }
            } else {
                Opening::Finished(false)
            },
            (Opening::CheckShutdown { path, request }, OpenEvent::Answer(shutting_down)) => if shutting_down {
                Opening::Finished(true)
            } else {
                Opening::CheckFile { path, request }
            },
            (Opening::CheckFile { path, request }, OpenEvent::Answer(exists)) => if exists {
                Opening::Place { path, request }
            } else {
                Opening::ReportMissing { message: fill_message("File not found: {}", path.as_str()) }
            },
            (Opening::ReportMissing { .. }, OpenEvent::Done) => Opening::Finished(false),
            (Opening::Place { path, request }, OpenEvent::Place { key, tab }) => place(
                path,
                request,
                key,
                tab,
                registry,
            ),
            (Opening::ShowTab { .. }, OpenEvent::Done) => Opening::Finished(true),
            (Opening::CheckSidecar { open, sidecar }, OpenEvent::Answer(exists)) => if exists {
                Opening::OfferImport { open, sidecar }
            } else {
                Opening::ReadSettings { open }
            },
            (Opening::OfferImport { open, sidecar }, OpenEvent::Answer(accepted)) => if accepted {
                Opening::Import { open, sidecar }
            } else {
                Opening::CheckShutdownAgain { open }
            },
            (Opening::Import { open, .. }, OpenEvent::Done) => Opening::CheckShutdownAgain { open },
            (Opening::CheckShutdownAgain { open }, OpenEvent::Answer(shutting_down)) => if shutting_down {
                Opening::Finished(true)
            } else {
                Opening::ReadSettings { open }
            },
            (
                Opening::ReadSettings { open },
                OpenEvent::Settings { password, forced_extension, render_tables_inline },
            ) => start_parse(open, password, forced_extension, render_tables_inline, registry),
            (Opening::StartParse { .. }, OpenEvent::Done) => Opening::Finished(true),
            (state, _) => state,
        }
    }
}

/// Shows an open tab, joins a pending open, or registers the request.
fn place(
    path: String,
    request: OpenRequest,
    key: String,
    tab: Option<usize>,
    registry: &mut ParseRegistry,
) -> (next: Opening)
    requires
        old(registry).wf(),
        is_new(key@, tab, old(registry)@) ==> old(registry)@.next_seq < u64::MAX,
    ensures
        final(registry).wf(),
        placed(path, request, key@, tab, old(registry)@, next, final(registry)@),
{
    if !request.is_restore {
        // Startup restore must not override the user's selection.
        registry.set_restore_active_key(None);
    }
    if let Some(index) = tab {
        // Bring the existing tab forward rather than opening the same document twice.
        return Opening::ShowTab { index, caret: request.initial_caret };
    }
    // Reuse the pending open and apply the latest focus and caret request when it finishes.
    match registry.by_key_mut(key.as_str()) {
        Some(entry) => {
            if !request.is_restore {
                entry.focus_when_done = true;
            }
            if request.initial_caret.is_some() {
                entry.initial_caret = request.initial_caret;
            }
            return Opening::Finished(true);
        },
        None => {},
    }
    let name = match &request.title_override {
        Some(title) => title_or_filename(title.as_str(), path.as_str()),
        None => title_or_filename("", path.as_str()),
    };
    proof {
        reveal_strlit("");
        assert(""@ =~= Seq::<char>::empty());
    }
    let is_restore = request.is_restore;
    // Register before opening a modal. Its nested event loop may submit the same path again. The
    // sidecar import may still change the settings of the parse.
    let seq = registry.register(
        PendingParse {
            seq: 0,
            path: path.clone(),
            key,
            track: request.track,
            is_restore,
            title_override: request.title_override,
            initial_caret: request.initial_caret,
            focus_when_done: false,
            password: String::new(),
            password_attempted: false,
            forced_extension: String::new(),
            render_tables_inline: true,
        },
    );
    if is_restore {
        Opening::ReadSettings { open: RegisteredOpen { seq, path, is_restore, name } }
    } else {
        let sidecar = sidecar_path(path.as_str());
        Opening::CheckSidecar { open: RegisteredOpen { seq, path, is_restore, name }, sidecar }
    }
}

/// Hands the settings to the open, unless it was cancelled in the meantime.
fn start_parse(
    open: RegisteredOpen,
    password: String,
    forced_extension: String,
    render_tables_inline: bool,
    registry: &mut ParseRegistry,
) -> (next: Opening)
    requires
        old(registry).wf(),
    ensures
        final(registry).wf(),
        parse_starts(
            open,
            password,
            forced_extension,
            render_tables_inline,
            old(registry)@,
            next,
            final(registry)@,
        ),
{
    let job = match registry.by_seq_mut(open.seq) {
        Some(entry) => {
            entry.password = password;
            entry.forced_extension = forced_extension;
            entry.render_tables_inline = render_tables_inline;
            ParseJob::for_entry(entry)
        },
        None => {
            return Opening::Finished(true);
        },
    };
    let status = registry.busy_status_text();
    // Announce direct opens by name. Startup restore stays quiet.
    let announcement = if open.is_restore {
        None
    } else {
        Some(fill_message("Loading {}…", open.name.as_str()))
    };
    Opening::StartParse { job, announcement, status }
}

/// No document is opened twice: whatever happens to a request, two pending opens never share a key.
pub proof fn law_documents_open_once(
    state: Opening,
    event: OpenEvent,
    before: RegistryView,
    next: Opening,
    after: RegistryView,
)
    requires
        state.leads_to(event, before, next, after),
        before.keys_unique(),
    ensures
        after.keys_unique(),
{
    match (state, event) {
        (Opening::Place { path, request }, OpenEvent::Place { key, tab }) => {
            parse_registry::lemma_find_key(before.pending, key@);
            if tab is None && parse_registry::find_key(before.pending, key@) is None {
                let added = after.pending.last();
                assert(after.pending =~= before.pending.push(
                    PendingParse { seq: before.next_seq, ..added },
                ));
            }
        },
        (Opening::ReadSettings { open }, OpenEvent::Settings { .. }) => {
            parse_registry::lemma_find_seq(before.pending, open.seq);
        },
        _ => {},
    }
}

/// A request is refused only if no parser can read the document or the file is missing.
pub proof fn law_refusal_means_unopenable(
    state: Opening,
    event: OpenEvent,
    before: RegistryView,
    next: Opening,
    after: RegistryView,
)
    requires
        state.leads_to(event, before, next, after),
        next == Opening::Finished(false),
        state != next,
    ensures
        (state is EnsureParser && event == OpenEvent::Answer(false)) || state is ReportMissing,
{
}

/// An open that the user asked for takes the tab selection away from the startup restore, whether its
/// document is open, pending or new. A pending document then takes the focus when it is loaded.
pub proof fn law_user_open_keeps_its_selection(
    path: String,
    request: OpenRequest,
    key: Seq<char>,
    tab: Option<usize>,
    before: RegistryView,
    next: Opening,
    after: RegistryView,
)
    requires
        placed(path, request, key, tab, before, next, after),
        !request.is_restore,
    ensures
        after.restore_active_key is None,
        tab is None ==> (parse_registry::find_key(before.pending, key) matches Some(i)
            ==> after.pending[i].focus_when_done),
{
    parse_registry::lemma_find_key(before.pending, key);
}

/// A document that is open or pending is not opened again: nothing is registered, no parse starts, and
/// the request succeeds. The pending open keeps all but its focus and caret.
pub proof fn law_known_document_is_not_registered(
    path: String,
    request: OpenRequest,
    key: Seq<char>,
    tab: Option<usize>,
    before: RegistryView,
    next: Opening,
    after: RegistryView,
)
    requires
        placed(path, request, key, tab, before, next, after),
        !is_new(key, tab, before),
    ensures
        after.next_seq == before.next_seq,
        after.pending.len() == before.pending.len(),
        next is ShowTab || next == Opening::Finished(true),
        tab is Some ==> after.pending == before.pending && (next matches Opening::ShowTab {
            index,
            caret,
        } && Some(index) == tab && caret == request.initial_caret),
        tab is None ==> (parse_registry::find_key(before.pending, key) matches Some(i) && next
            == Opening::Finished(true) && after.pending == before.pending.update(
            i,
            joined(before.pending[i], request),
        )),
{
    parse_registry::lemma_find_key(before.pending, key);
}

impl Opening {
    /// Questions about an import concern opens of the user only.
    pub open spec fn asks_only_the_user(self) -> bool {
        match self {
            Opening::CheckSidecar { open, .. } => !open.is_restore,
            Opening::OfferImport { open, .. } => !open.is_restore,
            Opening::Import { open, .. } => !open.is_restore,
            _ => true,
        }
    }
}

/// A restored document never leads to a question about an import.
pub proof fn law_restore_offers_no_import(
    state: Opening,
    event: OpenEvent,
    before: RegistryView,
    next: Opening,
    after: RegistryView,
)
    requires
        state.asks_only_the_user(),
        state.leads_to(event, before, next, after),
    ensures
        next.asks_only_the_user(),
{
}

impl Opening {
    /// This event answers this state.
    pub open spec fn expects(self, event: OpenEvent) -> bool {
        match self {
            Opening::EnsureParser { .. } => event is Answer,
            Opening::CheckShutdown { .. } => event is Answer,
            Opening::CheckFile { .. } => event is Answer,
            Opening::ReportMissing { .. } => event is Done,
            Opening::Place { .. } => event is Place,
            Opening::ShowTab { .. } => event is Done,
            Opening::CheckSidecar { .. } => event is Answer,
            Opening::OfferImport { .. } => event is Answer,
            Opening::Import { .. } => event is Done,
            Opening::CheckShutdownAgain { .. } => event is Answer,
            Opening::ReadSettings { .. } => event is Settings,
            Opening::StartParse { .. } => event is Done,
            Opening::Finished(_) => false,
        }
    }

    /// How many answers the request needs at most.
    pub open spec fn steps_left(self) -> nat {
        match self {
            Opening::EnsureParser { .. } => 10,
            Opening::CheckShutdown { .. } => 9,
            Opening::CheckFile { .. } => 8,
            Opening::Place { .. } => 7,
            Opening::CheckSidecar { .. } => 6,
            Opening::OfferImport { .. } => 5,
            Opening::Import { .. } => 4,
            Opening::CheckShutdownAgain { .. } => 3,
            Opening::ReadSettings { .. } => 2,
            Opening::ReportMissing { .. } => 1,
            Opening::ShowTab { .. } => 1,
            Opening::StartParse { .. } => 1,
            Opening::Finished(_) => 0,
        }
    }
}

/// Every request ends: each answer brings it closer to its end, and only the end needs no answer.
pub proof fn law_requests_end(
    state: Opening,
    event: OpenEvent,
    before: RegistryView,
    next: Opening,
    after: RegistryView,
)
    requires
        state.leads_to(event, before, next, after),
    ensures
        state.expects(event) ==> next.steps_left() < state.steps_left(),
        !state.expects(event) ==> next == state && after == before,
        state.steps_left() == 0 <==> state is Finished,
{
}

/// The sidecar that was offered is imported exactly if the user accepts: then the request goes through
/// the import of that very file, with the same open, before anything else. A refused offer goes on
/// without it, and nothing but an accepted offer leads to an import.
pub proof fn law_accepted_sidecar_is_imported(
    state: Opening,
    event: OpenEvent,
    registry: &mut ParseRegistry,
    next: Opening,
)
    requires
        call_ensures(Opening::step, (state, event, registry), next),
    ensures
        state matches Opening::OfferImport { open, sidecar } ==> {
            &&& event == OpenEvent::Answer(true) ==> next == (Opening::Import { open, sidecar })
            &&& event == OpenEvent::Answer(false) ==> next == (Opening::CheckShutdownAgain { open })
            &&& final(registry)@ == old(registry)@
        },
        next matches Opening::Import { open, sidecar } ==> state == next || (event
            == OpenEvent::Answer(true) && state == (Opening::OfferImport { open, sidecar })),
        state matches Opening::Import { open, .. } ==> (event is Done ==> next == (
        Opening::CheckShutdownAgain { open }) && final(registry)@ == old(registry)@),
{
}

/// An import is offered exactly if the sidecar exists: the offer names the file that was looked for, and
/// without the file the request goes straight on to its settings.
pub proof fn law_existing_sidecar_is_offered(
    state: Opening,
    event: OpenEvent,
    registry: &mut ParseRegistry,
    next: Opening,
)
    requires
        call_ensures(Opening::step, (state, event, registry), next),
    ensures
        state matches Opening::CheckSidecar { open, sidecar } ==> {
            &&& event == OpenEvent::Answer(true) ==> next == (Opening::OfferImport { open, sidecar })
            &&& event == OpenEvent::Answer(false) ==> next == (Opening::ReadSettings { open })
            &&& final(registry)@ == old(registry)@
        },
        next matches Opening::OfferImport { open, sidecar } ==> state == next || (event
            == OpenEvent::Answer(true) && state == (Opening::CheckSidecar { open, sidecar })),
        state matches Opening::CheckShutdownAgain { open } ==> {
            &&& event == OpenEvent::Answer(true) ==> next == Opening::Finished(true)
            &&& event == OpenEvent::Answer(false) ==> next == (Opening::ReadSettings { open })
            &&& final(registry)@ == old(registry)@
        },
{
}

/// A request is looked into step by step: a document that no parser can read is refused, a window that is
/// shutting down ends the request quietly, a file that is missing is reported by its path and then
/// refused, and any other request is placed, unchanged.
pub proof fn law_requests_are_looked_into(
    state: Opening,
    event: OpenEvent,
    registry: &mut ParseRegistry,
    next: Opening,
)
    requires
        call_ensures(Opening::step, (state, event, registry), next),
    ensures
        state matches Opening::EnsureParser { path, request } ==> {
            &&& event == OpenEvent::Answer(true) ==> next == (Opening::CheckShutdown {
                path,
                request,
            })
            &&& event == OpenEvent::Answer(false) ==> next == Opening::Finished(false)
        },
        state matches Opening::CheckShutdown { path, request } ==> {
            &&& event == OpenEvent::Answer(true) ==> next == Opening::Finished(true)
            &&& event == OpenEvent::Answer(false) ==> next == (Opening::CheckFile { path, request })
        },
        state matches Opening::CheckFile { path, request } ==> {
            &&& event == OpenEvent::Answer(true) ==> next == (Opening::Place { path, request })
            &&& event == OpenEvent::Answer(false) ==> (next matches Opening::ReportMissing {
                message,
            } && exists|template: Seq<char>| #[trigger]
                locale::translation_answer("File not found: {}"@, template) && message@
                    == text::replaced(template, "{}"@, path@))
        },
        state is ReportMissing && event is Done ==> next == Opening::Finished(false),
        state is ShowTab && event is Done ==> next == Opening::Finished(true),
        state is StartParse && event is Done ==> next == Opening::Finished(true),
        !(state is Place) && !(state is ReadSettings) ==> final(registry)@ == old(registry)@,
{
}

/// A request starts by making sure that some parser can read its document.
pub proof fn law_requests_start_with_the_parser(path: String, request: OpenRequest, r: Opening)
    requires
        call_ensures(Opening::start, (path, request), r),
    ensures
        r matches Opening::EnsureParser { path: asked, request: kept } && asked == path && kept
            == request,
{
}

/// The open under this number is the one at `i`.
pub proof fn lemma_numbered_open(registry: RegistryView, i: int)
    requires
        registry.wf(),
        0 <= i < registry.pending.len(),
    ensures
        parse_registry::find_seq(registry.pending, registry.pending[i].seq) == Some(i),
{
    let seq = registry.pending[i].seq;
    parse_registry::lemma_find_seq(registry.pending, seq);
    let k: int = parse_registry::find_seq(registry.pending, seq)->0;
    if k < i {
        assert(registry.pending[k].seq < registry.pending[i].seq);
    }
    if i < k {
        assert(registry.pending[i].seq < registry.pending[k].seq);
    }
}

/// The parse that is started is of the document that was registered, and carries the password, the format
/// and the table setting that were read, for every open, restored or not. The open keeps them, and
/// everything else about it and about the others stays. The open is announced by its name, unless it is
/// restored. An open that was cancelled starts nothing.
pub proof fn law_job_carries_the_settings(
    open: RegisteredOpen,
    password: String,
    forced_extension: String,
    render_tables_inline: bool,
    registry: &mut ParseRegistry,
    next: Opening,
    i: int,
)
    requires
        old(registry).wf(),
        call_ensures(
            Opening::step,
            (
                Opening::ReadSettings { open },
                OpenEvent::Settings { password, forced_extension, render_tables_inline },
                registry,
            ),
            next,
        ),
    ensures
        0 <= i < old(registry)@.pending.len() && old(registry)@.pending[i].seq == open.seq ==> {
            &&& next matches Opening::StartParse { job, announcement, status }
            &&& job.seq == open.seq
            &&& job.path@ == old(registry)@.pending[i].path@
            &&& job.password@ == password@
            &&& job.forced_extension@ == forced_extension@
            &&& job.render_tables_inline == render_tables_inline
            &&& announcement is None <==> open.is_restore
            &&& announcement matches Some(message) ==> exists|template: Seq<char>| #[trigger]
                locale::translation_answer("Loading {}…"@, template) && message@ == text::replaced(
                    template,
                    "{}"@,
                    open.name@,
                )
            &&& final(registry)@.busy_text_is(text::text_view(status))
            &&& final(registry)@.pending.len() == old(registry)@.pending.len()
            &&& final(registry)@.pending[i] == (PendingParse {
                password,
                forced_extension,
                render_tables_inline,
                ..old(registry)@.pending[i]
            })
            &&& forall|j: int|
                0 <= j < old(registry)@.pending.len() && j != i ==> #[trigger] final(registry)@.pending[j] == old(registry)@.pending[j]
        },
        (forall|j: int|
            0 <= j < old(registry)@.pending.len() ==> (#[trigger] old(registry)@.pending[j]).seq
                != open.seq) ==> next == Opening::Finished(true) && final(registry)@ == old(registry)@,
        final(registry)@.next_seq == old(registry)@.next_seq,
        final(registry)@.restore_active_key == old(registry)@.restore_active_key,
        final(registry)@.restore_failed == old(registry)@.restore_failed,
{
    let before = old(registry)@;
    parse_registry::lemma_find_seq(before.pending, open.seq);
    if 0 <= i < before.pending.len() && before.pending[i].seq == open.seq {
        lemma_numbered_open(before, i);
    }
}

/// A document that is neither open nor pending is registered under the next number, behind all others,
/// with all that the request says of it; nothing of its parse is settled yet. Only an open of the user
/// looks for a sidecar first.
pub proof fn law_new_document_is_registered_as_requested(
    path: String,
    request: OpenRequest,
    key: String,
    registry: &mut ParseRegistry,
    next: Opening,
)
    requires
        old(registry).wf(),
        old(registry)@.next_seq < u64::MAX,
        forall|j: int|
            0 <= j < old(registry)@.pending.len() ==> (#[trigger] old(registry)@.pending[j]).key@
                != key@,
        call_ensures(
            Opening::step,
            (Opening::Place { path, request }, OpenEvent::Place { key, tab: None }, registry),
            next,
        ),
    ensures
        ({
            let n = old(registry)@.pending.len() as int;
            let entry = final(registry)@.pending[n];
            &&& final(registry)@.pending.len() == n + 1
            &&& forall|j: int|
                0 <= j < n ==> #[trigger] final(registry)@.pending[j] == old(registry)@.pending[j]
            &&& entry.seq == old(registry)@.next_seq
            &&& final(registry)@.next_seq == old(registry)@.next_seq + 1
            &&& entry.path@ == path@
            &&& entry.key@ == key@
            &&& entry.track == request.track
            &&& entry.is_restore == request.is_restore
            &&& entry.title_override == request.title_override
            &&& entry.initial_caret == request.initial_caret
            &&& !entry.focus_when_done
            &&& entry.password@.len() == 0
            &&& !entry.password_attempted
            &&& entry.forced_extension@.len() == 0
            &&& !request.is_restore ==> (next matches Opening::CheckSidecar { open, sidecar }
                && open.seq == entry.seq && open.path == path && !open.is_restore
                && names::is_sidecar(path@, sidecar@))
            &&& request.is_restore ==> (next matches Opening::ReadSettings { open } && open.seq
                == entry.seq && open.path == path && open.is_restore)
        }),
{
    let before = old(registry)@;
    parse_registry::lemma_find_key(before.pending, key@);
    let added = final(registry)@.pending.last();
    assert(final(registry)@.pending =~= before.pending.push(
        PendingParse { seq: before.next_seq, ..added },
    ));
}

/// While it loads, an open goes by the title that the request gives it, or else by its file name.
pub proof fn law_loading_document_has_a_name(
    path: String,
    request: OpenRequest,
    key: String,
    registry: &mut ParseRegistry,
    next: Opening,
    open: RegisteredOpen,
)
    requires
        call_ensures(
            Opening::step,
            (Opening::Place { path, request }, OpenEvent::Place { key, tab: None }, registry),
            next,
        ),
        (next matches Opening::CheckSidecar { open: o, .. } && o == open) || (
        next matches Opening::ReadSettings { open: o } && o == open),
    ensures
        request.title_override matches Some(title) ==> (title@.len() > 0 ==> open.name@ == title@),
        (request.title_override matches Some(title) ==> title@.len() == 0) && paths::is_file_name(
            path@,
        ) ==> open.name@ == path@,
{
}

/// A document whose tab is open is shown there, with the caret where the request wants it; nothing is
/// registered.
pub proof fn law_open_document_is_shown(
    path: String,
    request: OpenRequest,
    key: String,
    index: usize,
    registry: &mut ParseRegistry,
    next: Opening,
)
    requires
        call_ensures(
            Opening::step,
            (
                Opening::Place { path, request },
                OpenEvent::Place { key, tab: Some(index) },
                registry,
            ),
            next,
        ),
    ensures
        next matches Opening::ShowTab { index: shown, caret } && shown == index && caret
            == request.initial_caret,
        final(registry)@.pending == old(registry)@.pending,
        !request.is_restore ==> final(registry)@.restore_active_key is None,
        request.is_restore ==> final(registry)@ == old(registry)@,
{
}

/// A request for a document that is pending joins it: the request ends, the open takes the focus if the
/// user asked, goes to the caret that was asked for last, and keeps everything else; the other opens stay
/// as they are.
pub proof fn law_pending_document_is_joined(
    path: String,
    request: OpenRequest,
    key: String,
    registry: &mut ParseRegistry,
    next: Opening,
    i: int,
    j: int,
)
    requires
        old(registry)@.keys_unique(),
        0 <= i < old(registry)@.pending.len(),
        old(registry)@.pending[i].key@ == key@,
        0 <= j < old(registry)@.pending.len(),
        call_ensures(
            Opening::step,
            (Opening::Place { path, request }, OpenEvent::Place { key, tab: None }, registry),
            next,
        ),
    ensures
        ({
            let was = old(registry)@.pending[i];
            let entry = final(registry)@.pending[i];
            &&& next == Opening::Finished(true)
            &&& final(registry)@.pending.len() == old(registry)@.pending.len()
            &&& j != i ==> final(registry)@.pending[j] == old(registry)@.pending[j]
            &&& !request.is_restore ==> entry.focus_when_done
            &&& request.is_restore ==> entry.focus_when_done == was.focus_when_done
            &&& request.initial_caret is Some ==> entry.initial_caret == request.initial_caret
            &&& request.initial_caret is None ==> entry.initial_caret == was.initial_caret
            &&& entry.seq == was.seq && entry.path == was.path && entry.key == was.key
            &&& entry.track == was.track && entry.is_restore == was.is_restore
            &&& entry.title_override == was.title_override && entry.password == was.password
            &&& entry.password_attempted == was.password_attempted
            &&& entry.forced_extension == was.forced_extension
            &&& entry.render_tables_inline == was.render_tables_inline
            &&& !request.is_restore ==> final(registry)@.restore_active_key is None
            &&& request.is_restore ==> final(registry)@.restore_active_key == old(registry)@.restore_active_key
            &&& final(registry)@.next_seq == old(registry)@.next_seq
        }),
{
    let before = old(registry)@;
    parse_registry::lemma_find_key(before.pending, key@);
    let k: int = parse_registry::find_key(before.pending, key@)->0;
    if k < i {
        assert(before.pending[k].key@ != before.pending[i].key@);
    }
    if i < k {
        assert(before.pending[i].key@ != before.pending[k].key@);
    }
}

/// An event that does not answer the state changes nothing, and a request that has ended stays as it is.
pub proof fn law_unasked_answers_change_nothing(
    state: Opening,
    event: OpenEvent,
    registry: &mut ParseRegistry,
    next: Opening,
)
    requires
        call_ensures(Opening::step, (state, event, registry), next),
    ensures
        state is Finished ==> next == state && final(registry)@ == old(registry)@,
        event is Answer && (state is Place || state is ReadSettings || state is ReportMissing || state
            is ShowTab || state is Import || state is StartParse) ==> next == state && final(registry)@ == old(registry)@,
        event is Done && !(state is ReportMissing || state is ShowTab || state is Import || state
            is StartParse) ==> next == state && final(registry)@ == old(registry)@,
        event is Place && !(state is Place) ==> next == state && final(registry)@ == old(registry)@,
        event is Settings && !(state is ReadSettings) ==> next == state && final(registry)@ == old(registry)@,
{
}

/// Opens of the user are remembered, and so are restored ones, which alone count as restored; source views
/// and the like are not, and come with their own title and caret.
pub proof fn law_kinds_of_requests(
    user: OpenRequest,
    restored: OpenRequest,
    title: String,
    caret: i64,
    synthetic: OpenRequest,
)
    requires
        call_ensures(<OpenRequest as Default>::default, (), user),
        call_ensures(OpenRequest::restoring, (), restored),
        call_ensures(OpenRequest::synthetic, (title, caret), synthetic),
    ensures
        user.track && !user.is_restore && user.title_override is None && user.initial_caret is None,
        restored.track && restored.is_restore && restored.title_override is None
            && restored.initial_caret is None,
        !synthetic.track && !synthetic.is_restore && synthetic.title_override == Some(title)
            && synthetic.initial_caret == Some(caret),
{
}

/// A job asks for exactly what its open asks for.
pub proof fn law_job_is_for_its_open(entry: PendingParse, job: ParseJob)
    requires
        call_ensures(ParseJob::for_entry, (&entry,), job),
    ensures
        job.seq == entry.seq,
        job.path@ == entry.path@,
        job.password@ == entry.password@,
        job.forced_extension@ == entry.forced_extension@,
        job.render_tables_inline == entry.render_tables_inline,
{
}

} // verus!
