//! What the window's own events and its timer lead to.

use vstd::prelude::*;
use vstd::seq_lib;
use crate::text;

verus! {

/// The delete key.
pub const KEY_DELETE: i32 = 127;

/// The delete key of the numeric keypad.
pub const KEY_NUMPAD_DELETE: i32 = 330;

/// Whether this key, pressed on the tabs, closes the active document.
pub fn closes_document(key: i32) -> (r: bool)
    ensures
        r == (key == KEY_DELETE || key == KEY_NUMPAD_DELETE),
{
    key == KEY_DELETE || key == KEY_NUMPAD_DELETE
}

/// The tab whose title is announced when the selection moves to `selection`. The tabs announce
/// themselves while they have the focus.
pub fn announced_tab(tabs_focused: bool, selection: Option<i32>, tabs: usize) -> (r: Option<usize>)
    ensures
        match r {
            Some(index) => !tabs_focused && (selection matches Some(selected) && selected == index)
                && index < tabs,
            None => tabs_focused || (selection matches Some(selected) ==> selected < 0 || selected
                >= tabs),
        },
{
    if tabs_focused {
        return None;
    }
    match selection {
        Some(selected) => {
            if selected < 0 {
                return None;
            }
            let index: usize = selected as usize;
            if index < tabs {
                Some(index)
            } else {
                None
            }
        },
        None => None,
    }
}

/// What closing the active document does.
pub enum CloseStep {
    /// No document is open.
    Nothing,
    /// Announce the title of the document that is shown next, if there is one, and close this tab. The
    /// announcement comes first, before the focus moves.
    Close { index: usize, announce: Option<String> },
}

/// What closing the active document does, where `next_title` is the title of the document that is
/// shown next.
pub fn close_active(active: Option<usize>, next_title: Option<String>) -> (r: CloseStep)
    ensures
        match active {
            None => r is Nothing,
            Some(i) => {
                &&& r matches CloseStep::Close { index, announce }
                &&& index == i
                &&& text::text_view(announce) == text::text_view(next_title)
            },
        },
{
    match active {
        None => CloseStep::Nothing,
        Some(index) => CloseStep::Close { index, announce: next_title },
    }
}

/// What has the focus.
#[derive(Debug, Clone, Copy, PartialEq, Eq, Structural)]
pub enum Focus {
    /// The text of the active document.
    Document,
    /// The tabs.
    Tabs,
}

/// What gets the focus once a document was closed and `tabs` are left.
pub fn focus_after_close(tabs: usize) -> (r: Focus)
    ensures
        r == (if tabs > 0 {
            Focus::Document
        } else {
            Focus::Tabs
        }),
{
    if tabs > 0 {
        Focus::Document
    } else {
        Focus::Tabs
    }
}

/// What closing the window does.
#[derive(Debug, Clone, Copy, PartialEq, Eq, Structural)]
pub enum CloseAction {
    /// Hide the window; the application stays in the dock.
    Hide,
    /// Remove the tray icon, stop the hotkey and shut down.
    ShutDown,
}

/// What closing the window does: where the application stays in the dock, a close that can be vetoed
/// only hides the window.
pub fn close_action(stays_in_dock: bool, can_veto: bool) -> (r: CloseAction)
    ensures
        r == (if stays_in_dock && can_veto {
            CloseAction::Hide
        } else {
            CloseAction::ShutDown
        }),
{
    if stays_in_dock && can_veto {
        CloseAction::Hide
    } else {
        CloseAction::ShutDown
    }
}

/// Completions that wait until no modal dialog below them holds a lock that they need.
pub struct DeferredQueue<T> {
    waiting: Vec<T>,
}

/// What happens to the queue.
pub enum QueueEvent<T> {
    /// A completion arrives; the locks that it needs may be free.
    Submitted { completion: T, locks_free: bool },
    /// The timer ticks; the locks may be free.
    Ticked { locks_free: bool },
}

impl<T> View for DeferredQueue<T> {
    type V = Seq<T>;

    closed spec fn view(&self) -> Seq<T> {
        self.waiting@
    }
}

impl<T> DeferredQueue<T> {
    /// An empty queue.
    pub fn new() -> (r: Self)
        ensures
            r@ == waiting(Seq::<QueueEvent<T>>::empty()),
    {
        DeferredQueue { waiting: Vec::new() }
    }

    /// Whether nothing waits.
    pub fn is_empty(&self) -> (r: bool)
        ensures
            r == (self@.len() == 0),
    {
        self.waiting.is_empty()
    }

    /// A completion arrives. It is given back to run at once if both locks are free, and waits
    /// otherwise.
    pub fn submit(&mut self, completion: T, manager_free: bool, config_free: bool) -> (r: Option<T>)
        ensures
            manager_free && config_free ==> r == Some(completion) && final(self)@ == old(self)@,
            !(manager_free && config_free) ==> r is None && final(self)@ == old(self)@.push(
                completion,
            ),
            forall|events: Seq<QueueEvent<T>>|
                old(self)@ == waiting(events) ==> #[trigger] happened(
                    events,
                    submission(completion, manager_free, config_free),
                    final(self)@,
                    given(r),
                ),
    {
        let ghost arrived = completion;
        let r = if manager_free && config_free {
            Some(completion)
        } else {
            self.waiting.push(completion);
            None
        };
        proof {
            assert forall|events: Seq<QueueEvent<T>>| old(self)@ == waiting(events) implies #[trigger] happened(
                events,
                submission(arrived, manager_free, config_free),
                self@,
                given(r),
            ) by {
                lemma_submission(events, arrived, manager_free, config_free);
            }
        }
        r
    }

    /// The timer ticks. If both locks are free, everything that waits is given out to run, in the
    /// order in which it arrived.
    pub fn tick(&mut self, manager_free: bool, config_free: bool) -> (r: Vec<T>)
        ensures
            manager_free && config_free ==> r@ == old(self)@ && final(self)@.len() == 0,
            !(manager_free && config_free) ==> r@.len() == 0 && final(self)@ == old(self)@,
            forall|events: Seq<QueueEvent<T>>|
                old(self)@ == waiting(events) ==> #[trigger] happened(
                    events,
                    timer_tick(manager_free, config_free),
                    final(self)@,
                    r@,
                ),
    {
        let mut ready: Vec<T> = Vec::new();
        if manager_free && config_free {
            ready.append(&mut self.waiting);
        }
        proof {
            assert forall|events: Seq<QueueEvent<T>>| old(self)@ == waiting(events) implies #[trigger] happened(
                events,
                timer_tick(manager_free, config_free),
                self@,
                ready@,
            ) by {
                lemma_timer_tick(events, manager_free, config_free);
            }
        }
        ready
    }
}

/// What waits after these events.
pub open spec fn waiting<T>(events: Seq<QueueEvent<T>>) -> Seq<T>
    decreases events.len(),
{
    if events.len() == 0 {
        Seq::empty()
    } else {
        let before = waiting(events.drop_last());
        match events.last() {
            QueueEvent::Submitted { completion, locks_free } => if locks_free {
                before
            } else {
                before.push(completion)
            },
            QueueEvent::Ticked { locks_free } => if locks_free {
                Seq::empty()
            } else {
                before
            },
        }
    }
}

/// What was run during these events, in order.
pub open spec fn run<T>(events: Seq<QueueEvent<T>>) -> Seq<T>
    decreases events.len(),
{
    if events.len() == 0 {
        Seq::empty()
    } else {
        let before = run(events.drop_last());
        match events.last() {
            QueueEvent::Submitted { completion, locks_free } => if locks_free {
                before.push(completion)
            } else {
                before
            },
            QueueEvent::Ticked { locks_free } => if locks_free {
                before + waiting(events.drop_last())
            } else {
                before
            },
        }
    }
}

/// A completion that is given back, as a sequence.
pub open spec fn given<T>(completion: Option<T>) -> Seq<T> {
    match completion {
        Some(completion) => seq![completion],
        None => Seq::empty(),
    }
}

/// `event` happened after `events`: then `left` waits, and `out` was run because of it.
pub open spec fn happened<T>(
    events: Seq<QueueEvent<T>>,
    event: QueueEvent<T>,
    left: Seq<T>,
    out: Seq<T>,
) -> bool {
    &&& left == waiting(events.push(event))
    &&& run(events.push(event)) == run(events) + out
}

/// `completion` arrives while the locks are free or taken.
pub open spec fn submission<T>(completion: T, manager_free: bool, config_free: bool) -> QueueEvent<T> {
    QueueEvent::Submitted { completion, locks_free: manager_free && config_free }
}

/// The timer ticks while the locks are free or taken.
pub open spec fn timer_tick<T>(manager_free: bool, config_free: bool) -> QueueEvent<T> {
    QueueEvent::Ticked { locks_free: manager_free && config_free }
}

proof fn lemma_submission<T>(
    events: Seq<QueueEvent<T>>,
    completion: T,
    manager_free: bool,
    config_free: bool,
)
    ensures
        ({
            let event = submission(completion, manager_free, config_free);
            if manager_free && config_free {
                happened(events, event, waiting(events), given(Some(completion)))
            } else {
                happened(events, event, waiting(events).push(completion), given(None))
            }
        }),
{
    let event = submission(completion, manager_free, config_free);
    assert(events.push(event).drop_last() =~= events);
    assert(run(events).push(completion) =~= run(events) + seq![completion]);
    assert(run(events) + Seq::<T>::empty() =~= run(events));
}

proof fn lemma_timer_tick<T>(events: Seq<QueueEvent<T>>, manager_free: bool, config_free: bool)
    ensures
        ({
            let event = timer_tick(manager_free, config_free);
            if manager_free && config_free {
                happened(events, event, Seq::empty(), waiting(events))
            } else {
                happened(events, event, waiting(events), Seq::empty())
            }
        }),
{
    let event = timer_tick::<T>(manager_free, config_free);
    assert(events.push(event).drop_last() =~= events);
    assert(run(events) + Seq::<T>::empty() =~= run(events));
}

/// What was submitted during these events, in order.
pub open spec fn submitted<T>(events: Seq<QueueEvent<T>>) -> Seq<T>
    decreases events.len(),
{
    if events.len() == 0 {
        Seq::empty()
    } else {
        match events.last() {
            QueueEvent::Submitted { completion, .. } => submitted(events.drop_last()).push(
                completion,
            ),
            QueueEvent::Ticked { .. } => submitted(events.drop_last()),
        }
    }
}

/// No completion is lost or run twice: what was run and what still waits are together what was
/// submitted.
pub proof fn law_completions_are_run_once<T>(events: Seq<QueueEvent<T>>)
    ensures
        run(events).to_multiset().add(waiting(events).to_multiset()) =~= submitted(
            events,
        ).to_multiset(),
    decreases events.len(),
{
    broadcast use vstd::seq_lib::group_to_multiset_ensures;

    if events.len() > 0 {
        let before = events.drop_last();
        law_completions_are_run_once(before);
        match events.last() {
            QueueEvent::Submitted { .. } => {},
            QueueEvent::Ticked { locks_free } => {
                if locks_free {
                    seq_lib::lemma_multiset_commutative(run(before), waiting(before));
                }
            },
        }
    }
}

/// Whether a tick of the window's timer polls for a reminder.
pub fn polls_reminder(shutting_down: bool, window_built: bool, manager_free: bool) -> (r: bool)
    ensures
        r == (!shutting_down && window_built && manager_free),
{
    !shutting_down && window_built && manager_free
}

/// Whether the result of a background parse is still delivered to the window.
pub fn delivers_completion(shutting_down: bool, window_built: bool) -> (r: bool)
    ensures
        r == (!shutting_down && window_built),
{
    !shutting_down && window_built
}

/// The two delete keys close the active document, and no other key does.
pub proof fn law_delete_closes_a_document(key: i32, r: bool)
    requires
        call_ensures(closes_document, (key,), r),
    ensures
        r <==> key == 127 || key == 330,
{
}

/// The selected tab is announced exactly if there is such a tab and the tabs do not have the focus.
pub proof fn law_selected_tab_is_announced(
    tabs_focused: bool,
    selection: Option<i32>,
    tabs: usize,
    r: Option<usize>,
)
    requires
        call_ensures(announced_tab, (tabs_focused, selection, tabs), r),
    ensures
        tabs_focused ==> r is None,
        selection is None ==> r is None,
        selection matches Some(selected) ==> {
            &&& !tabs_focused && 0 <= selected < tabs ==> r == Some(selected as usize)
            &&& selected < 0 || selected >= tabs ==> r is None
        },
{
}

/// Closing closes the active document, after announcing the one that is shown next, and does nothing
/// without an active document. The focus then goes to a document if one is left, and to the tabs
/// otherwise.
pub proof fn law_active_document_is_closed(
    active: Option<usize>,
    next_title: Option<String>,
    r: CloseStep,
    tabs: usize,
    focus: Focus,
)
    requires
        call_ensures(close_active, (active, next_title), r),
        call_ensures(focus_after_close, (tabs,), focus),
    ensures
        active is None ==> r is Nothing,
        active matches Some(i) ==> (r matches CloseStep::Close { index, announce } && index == i
            && text::text_view(announce) == text::text_view(next_title)),
        tabs > 0 ==> focus == Focus::Document,
        tabs == 0 ==> focus == Focus::Tabs,
{
}

/// Closing the window hides it only where the application stays in the dock and the close can be vetoed;
/// otherwise the application shuts down. A window that is shutting down, or is not built, gets neither
/// reminders nor results.
pub proof fn law_window_is_closed(
    stays_in_dock: bool,
    can_veto: bool,
    action: CloseAction,
    shutting_down: bool,
    window_built: bool,
    manager_free: bool,
    polls: bool,
    delivers: bool,
)
    requires
        call_ensures(close_action, (stays_in_dock, can_veto), action),
        call_ensures(polls_reminder, (shutting_down, window_built, manager_free), polls),
        call_ensures(delivers_completion, (shutting_down, window_built), delivers),
    ensures
        action == CloseAction::Hide <==> stays_in_dock && can_veto,
        action == CloseAction::ShutDown <==> !stays_in_dock || !can_veto,
        delivers <==> !shutting_down && window_built,
        polls <==> !shutting_down && window_built && manager_free,
{
}

/// A completion runs at once exactly if both locks are free, and otherwise waits behind the others. A tick
/// with both locks free gives out all that waits, in order, and leaves nothing; any other tick gives out
/// nothing.
pub proof fn law_completions_wait_for_the_locks<T>(
    submitted_to: &mut DeferredQueue<T>,
    completion: T,
    ticked: &mut DeferredQueue<T>,
    manager_free: bool,
    config_free: bool,
    now: Option<T>,
    ready: Vec<T>,
    created: DeferredQueue<T>,
    queue: DeferredQueue<T>,
    empty: bool,
)
    requires
        call_ensures(
            DeferredQueue::<T>::submit,
            (submitted_to, completion, manager_free, config_free),
            now,
        ),
        call_ensures(DeferredQueue::<T>::tick, (ticked, manager_free, config_free), ready),
        call_ensures(DeferredQueue::<T>::new, (), created),
        call_ensures(DeferredQueue::<T>::is_empty, (&queue,), empty),
    ensures
        manager_free && config_free ==> now == Some(completion) && final(submitted_to)@ == old(
            submitted_to)@,
        !manager_free || !config_free ==> now is None && final(submitted_to)@ == old(
            submitted_to)@.push(completion),
        manager_free && config_free ==> ready@ == old(ticked)@ && final(ticked)@.len() == 0,
        !manager_free || !config_free ==> ready@.len() == 0 && final(ticked)@ == old(ticked)@,
        created@.len() == 0,
        empty <==> queue@.len() == 0,
{
}

} // verus!
