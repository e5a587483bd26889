//! Restoring the documents of the previous session at startup.

use vstd::prelude::*;
use crate::parse_registry::{ParseRegistry, RegistryView};

verus! {

/// Whether the restore has run, and whether the window is closing.
pub struct RestoreState {
    pub restored: bool,
    pub closing: bool,
}

impl Default for RestoreState {
    fn default() -> (r: Self)
        ensures
            !r.restored,
            !r.closing,
    {
        RestoreState { restored: false, closing: false }
    }
}

/// What can happen to the window before the restore.
pub enum RestoreEvent {
    /// The window has nothing to do.
    Idle,
    /// The window closes.
    Closing,
}

impl RestoreState {
    /// The state at the start. The user may have switched the restore off, which counts as if it had
    /// run.
    pub fn for_setting(enabled: bool) -> (r: Self)
        ensures
            r.restored == !enabled,
            !r.closing,
    {
        RestoreState { restored: !enabled, closing: false }
    }

    /// The restore runs when the window is first idle, unless it is closing.
    pub open spec fn begins(self) -> bool {
        !self.restored && !self.closing
    }

    /// The state after `event`.
    pub open spec fn after(self, event: RestoreEvent) -> RestoreState {
        match event {
            RestoreEvent::Idle => RestoreState { restored: self.restored || self.begins(), ..self },
            RestoreEvent::Closing => RestoreState { closing: true, ..self },
        }
    }

    /// The state after these events.
    pub open spec fn after_all(self, events: Seq<RestoreEvent>) -> RestoreState
        decreases events.len(),
    {
        if events.len() == 0 {
            self
        } else {
            self.after_all(events.drop_last()).after(events.last())
        }
    }

    /// The window is idle. Gives whether the restore begins now.
    pub fn idle(&mut self) -> (r: bool)
        ensures
            r == old(self).begins(),
            *final(self) == old(self).after(RestoreEvent::Idle),
    {
        if self.restored || self.closing {
            return false;
        }
        self.restored = true;
        true
    }

    /// The window closes.
    pub fn close(&mut self)
        ensures
            *final(self) == old(self).after(RestoreEvent::Closing),
    {
        self.closing = true;
    }
}

/// Once the restore has begun or the window is closing, it never begins again.
pub proof fn law_restore_begins_once(state: RestoreState, events: Seq<RestoreEvent>)
    requires
        state.restored || state.closing,
    ensures
        !state.after_all(events).begins(),
    decreases events.len(),
{
    if events.len() > 0 {
        law_restore_begins_once(state, events.drop_last());
    }
}

/// A restore that is switched off at the start never begins. One that is switched on can begin before
/// anything happened and not after: the first idle moment uses it up, and so does the closing of the
/// window.
pub proof fn law_restore_follows_the_setting(
    enabled: bool,
    start: RestoreState,
    events: Seq<RestoreEvent>,
)
    requires
        start.restored == !enabled,
        !start.closing,
    ensures
        start.after_all(events).begins() <==> enabled && events.len() == 0,
    decreases events.len(),
{
    if events.len() > 0 {
        law_restore_follows_the_setting(enabled, start, events.drop_last());
    }
}

/// A document that was opened before the restore keeps its selection.
pub open spec fn restores_selection(
    registry: RegistryView,
    tabs: usize,
    active_path: Seq<char>,
) -> bool {
    tabs == 0 && registry.pending.len() == 0 && active_path.len() > 0
}

/// Before the restore: remembers that the tab for `key`, which belongs to `active_path`, is to be
/// selected, unless a document was opened already.
pub fn remember_active_document(
    tabs: usize,
    active_path: &str,
    key: String,
    registry: &mut ParseRegistry,
)
    ensures
        final(registry)@ == (RegistryView {
            restore_active_key: if restores_selection(old(registry)@, tabs, active_path@) {
                Some(key@)
            } else {
                old(registry)@.restore_active_key
            },
            ..old(registry)@
        }),
        old(registry).wf() ==> final(registry).wf(),
{
    if tabs == 0 && !registry.has_pending() && !active_path.is_empty() {
        registry.set_restore_active_key(Some(key));
    }
}

/// The paths that were found ready.
pub open spec fn ready_paths(paths: Seq<String>, answers: Seq<bool>) -> Seq<String>
    decreases answers.len(),
{
    if answers.len() == 0 {
        Seq::empty()
    } else if answers.last() {
        ready_paths(paths, answers.drop_last()).push(paths[answers.len() - 1])
    } else {
        ready_paths(paths, answers.drop_last())
    }
}

/// The next step of a restore.
pub enum RestoreStep {
    /// The window is shutting down.
    Stop,
    /// Make sure that some parser can read this document.
    Resolve(String),
    /// Open these documents.
    Submit(Vec<String>),
}

/// A restore under way. Whether some parser can read a document is found out for every one of them
/// before the first is opened: a question to the user could otherwise let an early parse finish and
/// appear to end the restore.
pub struct RestoreRun {
    paths: Vec<String>,
    answers: Vec<bool>,
}

impl RestoreRun {
    /// The documents of the previous session.
    pub closed spec fn paths(&self) -> Seq<String> {
        self.paths@
    }

    /// What was found out so far.
    pub closed spec fn answers(&self) -> Seq<bool> {
        self.answers@
    }

    /// No more was found out than was asked for.
    pub open spec fn wf(&self) -> bool {
        self.answers().len() <= self.paths().len()
    }

    /// Starts the restore of these documents.
    pub fn new(paths: Vec<String>) -> (r: RestoreRun)
        ensures
            r.wf(),
            r.paths() == paths@,
            r.answers().len() == 0,
    {
        RestoreRun { paths, answers: Vec::new() }
    }

    /// What to do next.
    pub fn next_step(&self, shutting_down: bool) -> (r: RestoreStep)
        requires
            self.wf(),
        ensures
            match r {
                RestoreStep::Stop => shutting_down,
                RestoreStep::Resolve(path) => {
                    &&& !shutting_down
                    &&& self.answers().len() < self.paths().len()
                    &&& path == self.paths()[self.answers().len() as int]
                },
                RestoreStep::Submit(ready) => {
                    &&& !shutting_down
                    &&& self.answers().len() == self.paths().len()
                    &&& ready@ == ready_paths(self.paths(), self.answers())
                },
            },
    {
        if shutting_down {
            return RestoreStep::Stop;
        }
        if self.answers.len() < self.paths.len() {
            return RestoreStep::Resolve(self.paths[self.answers.len()].clone());
        }
        let mut ready: Vec<String> = Vec::new();
        let mut i: usize = 0;
        while i < self.answers.len()
            invariant
                i <= self.answers.len() <= self.paths.len(),
                ready@ == ready_paths(self.paths@, self.answers@.take(i as int)),
            decreases self.answers.len() - i,
        {
            proof {
                assert(self.answers@.take(i + 1).drop_last() =~= self.answers@.take(i as int));
            }
            if self.answers[i] {
                ready.push(self.paths[i].clone());
            }
            i += 1;
        }
        proof {
            assert(self.answers@.take(i as int) =~= self.answers@);
        }
        RestoreStep::Submit(ready)
    }

    /// Takes in whether some parser can read the document that was asked for.
    pub fn record(&mut self, ready: bool)
        requires
            old(self).wf(),
            old(self).answers().len() < old(self).paths().len(),
        ensures
            final(self).wf(),
            final(self).paths() == old(self).paths(),
            final(self).answers() == old(self).answers().push(ready),
    {
        self.answers.push(ready);
    }
}

/// Every document that is opened by the restore was found ready, and each that was found ready is
/// opened.
pub proof fn law_restore_opens_what_is_ready(paths: Seq<String>, answers: Seq<bool>)
    requires
        answers.len() <= paths.len(),
    ensures
        forall|path: String|
            ready_paths(paths, answers).contains(path) <==> exists|i: int|
                0 <= i < answers.len() && answers[i] && #[trigger] paths[i] == path,
    decreases answers.len(),
{
    if answers.len() > 0 {
        let shorter = answers.drop_last();
        law_restore_opens_what_is_ready(paths, shorter);
        let before = ready_paths(paths, shorter);
        let all = ready_paths(paths, answers);
        assert forall|path: String| all.contains(path) <==> exists|i: int|
            0 <= i < answers.len() && answers[i] && #[trigger] paths[i] == path by {
            let last = answers.len() - 1;
            if all.contains(path) {
                if before.contains(path) {
                    let i = choose|i: int|
                        0 <= i < shorter.len() && shorter[i] && #[trigger] paths[i] == path;
                    assert(answers[i] && paths[i] == path);
                } else {
                    let k = choose|k: int| 0 <= k < all.len() && all[k] == path;
                    if k < before.len() {
                        assert(before[k] == path);
                    }
                    assert(answers[last] && paths[last] == path);
                }
            }
            if exists|i: int| 0 <= i < answers.len() && answers[i] && #[trigger] paths[i] == path {
                let i = choose|i: int|
                    0 <= i < answers.len() && answers[i] && #[trigger] paths[i] == path;
                if i < last {
                    assert(shorter[i] && paths[i] == path);
                    assert(before.contains(path));
                    let k = choose|k: int| 0 <= k < before.len() && before[k] == path;
                    assert(all[k] == path);
                } else {
                    assert(all[all.len() - 1] == path);
                }
            }
        }
    }
}

/// The restore begins at the first idle moment of a window that is not closing, and at no other; closing
/// never undoes that it has begun.
pub proof fn law_restore_begins_when_first_idle(
    state: &mut RestoreState,
    begins: bool,
    closed: &mut RestoreState,
    created: RestoreState,
    enabled: bool,
    started: RestoreState,
)
    requires
        call_ensures(RestoreState::idle, (state,), begins),
        call_ensures(RestoreState::close, (closed,), ()),
        call_ensures(<RestoreState as Default>::default, (), created),
        call_ensures(RestoreState::for_setting, (enabled,), started),
    ensures
        begins <==> !old(state).restored && !old(state).closing,
        begins ==> final(state).restored,
        !begins ==> final(state).restored == old(state).restored,
        final(state).closing == old(state).closing,
        final(closed).closing,
        final(closed).restored == old(closed).restored,
        !created.restored && !created.closing,
        started.restored == !enabled && !started.closing,
{
}

/// The tab that was active in the previous session is selected again only if no document was opened before
/// the restore, neither in a tab nor pending, and only if there was one.
pub proof fn law_active_document_is_remembered(
    tabs: usize,
    active_path: &str,
    key: String,
    registry: &mut ParseRegistry,
)
    requires
        call_ensures(remember_active_document, (tabs, active_path, key, registry), ()),
    ensures
        tabs == 0 && old(registry)@.pending.len() == 0 && active_path@.len() > 0 ==> final(
            registry)@.restore_active_key == Some(key@),
        tabs > 0 || old(registry)@.pending.len() > 0 || active_path@.len() == 0 ==> final(
            registry)@.restore_active_key == old(registry)@.restore_active_key,
        final(registry)@.pending == old(registry)@.pending,
        final(registry)@.next_seq == old(registry)@.next_seq,
        final(registry)@.restore_failed == old(registry)@.restore_failed,
        final(registry)@.generation == old(registry)@.generation,
        final(registry)@.jobs_left == old(registry)@.jobs_left,
        final(registry)@.jobs_failed == old(registry)@.jobs_failed,
        final(registry)@.reminder_anchor == old(registry)@.reminder_anchor,
{
}

/// How many of the first `n` answers are yes.
pub open spec fn yes_before(answers: Seq<bool>, n: int) -> nat
    decreases n,
{
    if n <= 0 {
        0
    } else {
        yes_before(answers, n - 1) + (if answers[n - 1] {
            1nat
        } else {
            0
        })
    }
}

proof fn lemma_ready_in_order(paths: Seq<String>, answers: Seq<bool>, i: int)
    requires
        answers.len() <= paths.len(),
        0 <= i < answers.len(),
        answers[i],
    ensures
        yes_before(answers, i) < ready_paths(paths, answers).len(),
        ready_paths(paths, answers)[yes_before(answers, i) as int] == paths[i],
    decreases answers.len(),
{
    let shorter = answers.drop_last();
    lemma_ready_count(paths, shorter);
    lemma_yes_of_shorter(answers, i);
    if i == answers.len() - 1 {
        lemma_yes_of_shorter(answers, shorter.len() as int);
    } else {
        assert(shorter[i]);
        lemma_ready_in_order(paths, shorter, i);
    }
}

proof fn lemma_yes_of_shorter(answers: Seq<bool>, n: int)
    requires
        0 <= n < answers.len(),
    ensures
        yes_before(answers.drop_last(), n) == yes_before(answers, n),
    decreases n,
{
    if n > 0 {
        lemma_yes_of_shorter(answers, n - 1);
    }
}

proof fn lemma_ready_count(paths: Seq<String>, answers: Seq<bool>)
    ensures
        ready_paths(paths, answers).len() == yes_before(answers, answers.len() as int),
    decreases answers.len(),
{
    if answers.len() > 0 {
        lemma_ready_count(paths, answers.drop_last());
        lemma_yes_of_shorter(answers, answers.len() - 1);
    }
}

/// Every document is asked about in turn, before the first is opened. Then those that were found ready are
/// opened, in the order of the previous session: a ready document stands behind exactly the ready ones
/// before it, and there are no others. A window that is shutting down stops the restore.
pub proof fn law_documents_are_restored_in_order(
    run: RestoreRun,
    shutting_down: bool,
    r: RestoreStep,
    i: int,
)
    requires
        run.wf(),
        call_ensures(RestoreRun::next_step, (&run, shutting_down), r),
    ensures
        shutting_down ==> r is Stop,
        !shutting_down && run.answers().len() < run.paths().len() ==> (r matches RestoreStep::Resolve(
            path,
        ) && path == run.paths()[run.answers().len() as int]),
        !shutting_down && run.answers().len() == run.paths().len() ==> {
            &&& r matches RestoreStep::Submit(ready)
            &&& ready@.len() == yes_before(run.answers(), run.answers().len() as int)
            &&& 0 <= i < run.answers().len() && run.answers()[i] ==> yes_before(run.answers(), i)
                < ready@.len() && ready@[yes_before(run.answers(), i) as int] == run.paths()[i]
        },
{
    lemma_ready_count(run.paths(), run.answers());
    if 0 <= i < run.answers().len() && run.answers()[i] {
        lemma_ready_in_order(run.paths(), run.answers(), i);
    }
}

/// A restore starts with all its documents and no answer, and each answer is kept for the document that
/// was asked about.
pub proof fn law_answers_are_kept(
    paths: Vec<String>,
    created: RestoreRun,
    run: &mut RestoreRun,
    ready: bool,
)
    requires
        call_ensures(RestoreRun::new, (paths,), created),
        call_ensures(RestoreRun::record, (run, ready), ()),
    ensures
        created.paths() == paths@,
        created.answers().len() == 0,
        final(run).paths() == old(run).paths(),
        final(run).answers().len() == old(run).answers().len() + 1,
        final(run).answers().last() == ready,
        forall|k: int|
            0 <= k < old(run).answers().len() ==> #[trigger] final(run).answers()[k] == old(
                run).answers()[k],
{
}

} // verus!
