//! Tracks background opens, startup restoration, re-parse batches, and their accessibility status.

use vstd::prelude::*;
use crate::locale;
use crate::locale::t;
use crate::names;
use crate::names::title_or_filename;
use crate::paths;
use crate::text;
use crate::text::{decimal_text, replace_all, same_text};

verus! {

/// A document open whose parse is running in the background. It remains registered until the final
/// result, including through password retries, to prevent concurrent opens of the same path. Closing
/// all documents cancels pending entries; a completion that no longer finds its entry must discard
/// the result.
pub struct PendingParse {
    pub seq: u64,
    pub path: String,
    pub key: String,
    pub track: bool,
    pub is_restore: bool,
    pub title_override: Option<String>,
    pub initial_caret: Option<i64>,
    pub focus_when_done: bool,
    pub password: String,
    pub password_attempted: bool,
    pub forced_extension: String,
    pub render_tables_inline: bool,
}

/// State of a re-parse batch after recording one result.
#[derive(Debug, Clone, Copy, PartialEq, Eq, Structural)]
pub enum ReparseJobOutcome {
    /// The result belongs to an older batch and must be discarded.
    Superseded,
    /// The current batch still has work in flight.
    BatchInFlight,
    /// The current batch has finished; `failed` tabs keep their old sessions.
    BatchFinished { failed: usize },
}

/// The time between two reminders, in nanoseconds.
pub const REMINDER_INTERVAL: u64 = 15000000000;

/// The open documents, restores and re-parses that are under way.
pub struct ParseRegistry {
    pending: Vec<PendingParse>,
    next_seq: u64,
    /// The startup restore's active tab. A user-initiated open (including re-selecting an
    /// already-open tab) clears it so restore cannot override the user's selection.
    restore_active_key: Option<String>,
    restore_failed: usize,
    /// Identifies the current re-parse batch so results from older batches can be discarded.
    reparse_generation: u64,
    reparse_jobs_left: usize,
    reparse_failed: usize,
    /// Start of the current reminder interval, or `None` while idle.
    reminder_anchor: Option<u64>,
}

/// What a registry holds.
pub struct RegistryView {
    pub pending: Seq<PendingParse>,
    pub next_seq: u64,
    pub restore_active_key: Option<Seq<char>>,
    pub restore_failed: usize,
    pub generation: u64,
    pub jobs_left: usize,
    pub jobs_failed: usize,
    pub reminder_anchor: Option<u64>,
}

impl View for ParseRegistry {
    type V = RegistryView;

    closed spec fn view(&self) -> RegistryView {
        RegistryView {
            pending: self.pending@,
            next_seq: self.next_seq,
            restore_active_key: text::text_view(self.restore_active_key),
            restore_failed: self.restore_failed,
            generation: self.reparse_generation,
            jobs_left: self.reparse_jobs_left,
            jobs_failed: self.reparse_failed,
            reminder_anchor: self.reminder_anchor,
        }
    }
}

/// The position of the first entry with `key`.
pub open spec fn find_key(pending: Seq<PendingParse>, key: Seq<char>) -> Option<int>
    decreases pending.len(),
{
    if pending.len() == 0 {
        None
    } else if find_key(pending.drop_last(), key) is Some {
        find_key(pending.drop_last(), key)
    } else if pending.last().key@ == key {
        Some(pending.len() - 1)
    } else {
        None
    }
}

/// The position of the first entry with sequence number `seq`.
pub open spec fn find_seq(pending: Seq<PendingParse>, seq: u64) -> Option<int>
    decreases pending.len(),
{
    if pending.len() == 0 {
        None
    } else if find_seq(pending.drop_last(), seq) is Some {
        find_seq(pending.drop_last(), seq)
    } else if pending.last().seq == seq {
        Some(pending.len() - 1)
    } else {
        None
    }
}

/// A startup restore has entries left.
pub open spec fn restore_pending(pending: Seq<PendingParse>) -> bool {
    exists|i: int| 0 <= i < pending.len() && (#[trigger] pending[i]).is_restore
}

impl RegistryView {
    /// No work is under way.
    pub open spec fn idle(self) -> bool {
        self.pending.len() == 0 && self.jobs_left == 0
    }

    /// The sequence numbers of the entries increase and were all handed out; the results that a
    /// batch still expects can be counted.
    pub open spec fn wf(self) -> bool {
        &&& forall|i: int|
            #![trigger self.pending[i]]
            0 <= i < self.pending.len() ==> self.pending[i].seq < self.next_seq
        &&& forall|i: int, j: int|
            #![trigger self.pending[i], self.pending[j]]
            0 <= i < j < self.pending.len() ==> self.pending[i].seq < self.pending[j].seq
        &&& self.jobs_failed + self.jobs_left <= usize::MAX
    }

    /// No document is being opened twice.
    pub open spec fn keys_unique(self) -> bool {
        forall|i: int, j: int|
            #![trigger self.pending[i], self.pending[j]]
            0 <= i < j < self.pending.len() ==> self.pending[i].key@ != self.pending[j].key@
    }

    /// A busy period that starts from idle gets a fresh reminder clock.
    pub open spec fn anchor_for_new_work(self) -> Option<u64> {
        if self.idle() {
            None
        } else {
            self.reminder_anchor
        }
    }

    /// After `entry` was registered.
    pub open spec fn registered(self, entry: PendingParse) -> RegistryView {
        RegistryView {
            pending: self.pending.push(PendingParse { seq: self.next_seq, ..entry }),
            next_seq: (self.next_seq + 1) as u64,
            restore_active_key: if entry.is_restore {
                self.restore_active_key
            } else {
                None
            },
            reminder_anchor: self.anchor_for_new_work(),
            ..self
        }
    }

    /// The failures of the startup restore once the entry at `i` ended.
    pub open spec fn failures_after(self, i: int, failed: bool) -> usize {
        if self.pending[i].is_restore && failed {
            (self.restore_failed + 1) as usize
        } else {
            self.restore_failed
        }
    }

    /// The entry at `i` is the last of the startup restore.
    pub open spec fn completes_restore(self, i: int) -> bool {
        self.pending[i].is_restore && !restore_pending(self.pending.remove(i))
    }

    /// After the entry at `i` was taken.
    pub open spec fn taken(self, i: int, failed: bool) -> RegistryView {
        RegistryView {
            pending: self.pending.remove(i),
            restore_failed: if self.completes_restore(i) {
                0
            } else {
                self.failures_after(i, failed)
            },
            ..self
        }
    }

    /// After every open was cancelled.
    pub open spec fn cancelled(self) -> RegistryView {
        RegistryView {
            pending: Seq::empty(),
            restore_active_key: None,
            restore_failed: 0,
            ..self
        }
    }

    /// After a batch of `jobs` was started.
    pub open spec fn batch_started(self, jobs: usize) -> RegistryView {
        RegistryView {
            generation: (self.generation + 1) as u64,
            jobs_left: jobs,
            jobs_failed: 0,
            reminder_anchor: self.anchor_for_new_work(),
            ..self
        }
    }

    /// After a result of batch `generation` was recorded.
    pub open spec fn job_done(self, generation: u64, failed: bool) -> RegistryView {
        if generation != self.generation {
            self
        } else {
            RegistryView {
                jobs_left: (self.jobs_left - 1) as usize,
                jobs_failed: if failed {
                    (self.jobs_failed + 1) as usize
                } else {
                    self.jobs_failed
                },
                ..self
            }
        }
    }

    /// What recording a result of batch `generation` reports.
    pub open spec fn job_outcome(self, generation: u64, failed: bool) -> ReparseJobOutcome {
        if generation != self.generation {
            ReparseJobOutcome::Superseded
        } else if self.job_done(generation, failed).jobs_left == 0 {
            ReparseJobOutcome::BatchFinished {
                failed: self.job_done(generation, failed).jobs_failed,
            }
        } else {
            ReparseJobOutcome::BatchInFlight
        }
    }

    /// A poll at `now` comes an interval or more after the clock started.
    pub open spec fn reminder_due(self, now: u64) -> bool {
        !self.idle() && (self.reminder_anchor matches Some(anchor) && now - anchor
            >= REMINDER_INTERVAL)
    }

    /// After a poll at `now`: the first busy poll starts the clock, a reminder restarts it, and an
    /// idle poll stops it.
    pub open spec fn polled(self, now: u64) -> RegistryView {
        RegistryView {
            reminder_anchor: if self.idle() {
                None
            } else if self.reminder_anchor is None || self.reminder_due(now) {
                Some(now)
            } else {
                self.reminder_anchor
            },
            ..self
        }
    }
}

impl ParseRegistry {
    /// See `RegistryView::wf`.
    pub open spec fn wf(&self) -> bool {
        self@.wf()
    }
}

impl Default for ParseRegistry {
    fn default() -> (r: Self)
        ensures
            r.wf(),
            r@.idle(),
            r@ == (RegistryView {
                pending: Seq::empty(),
                next_seq: 0,
                restore_active_key: None,
                restore_failed: 0,
                generation: 0,
                jobs_left: 0,
                jobs_failed: 0,
                reminder_anchor: None,
            }),
    {
        ParseRegistry {
            pending: Vec::new(),
            next_seq: 0,
            restore_active_key: None,
            restore_failed: 0,
            reparse_generation: 0,
            reparse_jobs_left: 0,
            reparse_failed: 0,
            reminder_anchor: None,
        }
    }
}

impl ParseRegistry {
    /// Registers `entry` with the next sequence number. A user open also cancels the startup
    /// restore's pending tab selection.
    pub fn register(&mut self, mut entry: PendingParse) -> (seq: u64)
        requires
            old(self).wf(),
            old(self)@.next_seq < u64::MAX,
        ensures
            final(self).wf(),
            seq == old(self)@.next_seq,
            final(self)@ == old(self)@.registered(entry),
    {
        let seq = self.next_seq;
        self.next_seq = self.next_seq + 1;
        entry.seq = seq;
        if !entry.is_restore {
            self.restore_active_key = None;
        }
        if self.pending.is_empty() && self.reparse_jobs_left == 0 {
            // A busy period starting between two polls must not inherit the previous one's clock.
            self.reminder_anchor = None;
        }
        self.pending.push(entry);
        seq
    }

    /// The position of the first entry with `key`.
    fn position_by_key(&self, key: &str) -> (r: Option<usize>)
        ensures
            match r {
                Some(i) => find_key(self@.pending, key@) == Some(i as int),
                None => find_key(self@.pending, key@) is None,
            },
            r matches Some(i) ==> i < self@.pending.len() && self@.pending[i as int].key@ == key@,
    {
        let mut i: usize = 0;
        while i < self.pending.len()
            invariant
                i <= self.pending.len(),
                find_key(self.pending@.take(i as int), key@) is None,
            decreases self.pending.len() - i,
        {
            proof {
                let upto = self.pending@.take(i + 1);
                assert(upto.drop_last() =~= self.pending@.take(i as int));
            }
            if same_text(self.pending[i].key.as_str(), key) {
                proof {
                    lemma_find_key_stays(self.pending@, key@, i + 1);
                }
                return Some(i);
            }
            i += 1;
        }
        proof {
            assert(self.pending@.take(i as int) =~= self.pending@);
        }
        None
    }

    /// The position of the first entry with sequence number `seq`.
    fn position_by_seq(&self, seq: u64) -> (r: Option<usize>)
        ensures
            match r {
                Some(i) => find_seq(self@.pending, seq) == Some(i as int),
                None => find_seq(self@.pending, seq) is None,
            },
            r matches Some(i) ==> i < self@.pending.len() && self@.pending[i as int].seq == seq,
    {
        let mut i: usize = 0;
        while i < self.pending.len()
            invariant
                i <= self.pending.len(),
                find_seq(self.pending@.take(i as int), seq) is None,
            decreases self.pending.len() - i,
        {
            proof {
                let upto = self.pending@.take(i + 1);
                assert(upto.drop_last() =~= self.pending@.take(i as int));
            }
            if self.pending[i].seq == seq {
                proof {
                    lemma_find_seq_stays(self.pending@, seq, i + 1);
                }
                return Some(i);
            }
            i += 1;
        }
        proof {
            assert(self.pending@.take(i as int) =~= self.pending@);
        }
        None
    }

    /// The entry with sequence number `seq`.
    pub fn by_seq(&self, seq: u64) -> (r: Option<&PendingParse>)
        ensures
            match r {
                Some(entry) => {
                    &&& find_seq(self@.pending, seq) matches Some(i)
                    &&& 0 <= i < self@.pending.len()
                    &&& *entry == self@.pending[i]
                    &&& entry.seq == seq
                },
                None => find_seq(self@.pending, seq) is None,
            },
    {
        match self.position_by_seq(seq) {
            Some(i) => Some(&self.pending[i]),
            None => None,
        }
    }

    /// The first entry with `key`, for changing.
    pub fn by_key_mut(&mut self, key: &str) -> (r: Option<&mut PendingParse>)
        ensures
            match r {
                Some(entry) => {
                    &&& find_key(old(self)@.pending, key@) matches Some(i)
                    &&& 0 <= i < old(self)@.pending.len()
                    &&& *entry == old(self)@.pending[i]
                    &&& entry.key@ == key@
                    &&& final(self)@ == (RegistryView {
                        pending: old(self)@.pending.update(i, *final(entry)),
                        ..old(self)@
                    })
                    &&& old(self).wf() && final(entry).seq == entry.seq ==> final(self).wf()
                },
                None => find_key(old(self)@.pending, key@) is None && final(self)@ == old(self)@,
            },
    {
        match self.position_by_key(key) {
            Some(i) => Some(&mut self.pending[i]),
            None => None,
        }
    }

    /// The entry with sequence number `seq`, for changing; `None` for an entry that was cancelled
    /// before its parse completed.
    pub fn by_seq_mut(&mut self, seq: u64) -> (r: Option<&mut PendingParse>)
        ensures
            match r {
                Some(entry) => {
                    &&& find_seq(old(self)@.pending, seq) matches Some(i)
                    &&& 0 <= i < old(self)@.pending.len()
                    &&& *entry == old(self)@.pending[i]
                    &&& entry.seq == seq
                    &&& final(self)@ == (RegistryView {
                        pending: old(self)@.pending.update(i, *final(entry)),
                        ..old(self)@
                    })
                    &&& old(self).wf() && final(entry).seq == entry.seq ==> final(self).wf()
                },
                None => find_seq(old(self)@.pending, seq) is None && final(self)@ == old(self)@,
            },
    {
        match self.position_by_seq(seq) {
            Some(i) => Some(&mut self.pending[i]),
            None => None,
        }
    }
}

impl ParseRegistry {
    /// Whether a startup restore has entries left.
    fn has_restore_pending(&self) -> (r: bool)
        ensures
            r == restore_pending(self@.pending),
    {
        let mut i: usize = 0;
        while i < self.pending.len()
            invariant
                i <= self.pending.len(),
                forall|j: int| 0 <= j < i ==> !(#[trigger] self.pending@[j]).is_restore,
            decreases self.pending.len() - i,
        {
            if self.pending[i].is_restore {
                return true;
            }
            i += 1;
        }
        false
    }

    /// Removes `seq`. If it completes startup restore, returns the group's failure count. Returns
    /// `None` for an entry that was cancelled before its parse completed.
    pub fn take(&mut self, seq: u64, failed: bool) -> (r: Option<(PendingParse, Option<usize>)>)
        requires
            old(self).wf(),
            find_seq(old(self)@.pending, seq) matches Some(i) && old(self)@.pending[i].is_restore
                && failed ==> old(self)@.restore_failed < usize::MAX,
        ensures
            final(self).wf(),
            match r {
                Some((entry, restore_finished)) => {
                    &&& find_seq(old(self)@.pending, seq) matches Some(i)
                    &&& 0 <= i < old(self)@.pending.len()
                    &&& entry == old(self)@.pending[i]
                    &&& entry.seq == seq
                    &&& restore_finished == (if old(self)@.completes_restore(i) {
                        Some(old(self)@.failures_after(i, failed))
                    } else {
                        None
                    })
                    &&& final(self)@ == old(self)@.taken(i, failed)
                },
                None => find_seq(old(self)@.pending, seq) is None && final(self)@ == old(self)@,
            },
    {
        let index = match self.position_by_seq(seq) {
            Some(index) => index,
            None => {
                return None;
            },
        };
        let entry = self.pending.remove(index);
        if entry.is_restore && failed {
            self.restore_failed = self.restore_failed + 1;
        }
        let restore_finished = if entry.is_restore && !self.has_restore_pending() {
            let failures = self.restore_failed;
            self.restore_failed = 0;
            Some(failures)
        } else {
            None
        };
        Some((entry, restore_finished))
    }

    /// Cancels every pending open, including any startup restore; their in-flight parse results
    /// are discarded when they complete.
    pub fn cancel_all(&mut self)
        requires
            old(self).wf(),
        ensures
            final(self).wf(),
            final(self)@ == old(self)@.cancelled(),
    {
        self.pending.clear();
        self.restore_active_key = None;
        self.restore_failed = 0;
    }

    /// Whether an open is pending.
    pub fn has_pending(&self) -> (r: bool)
        ensures
            r == (self@.pending.len() > 0),
    {
        !self.pending.is_empty()
    }

    /// Sets the tab that startup restore will select.
    pub fn set_restore_active_key(&mut self, key: Option<String>)
        ensures
            final(self)@ == (RegistryView {
                restore_active_key: text::text_view(key),
                ..old(self)@
            }),
            old(self).wf() ==> final(self).wf(),
    {
        self.restore_active_key = key;
    }

    /// The tab that startup restore will select.
    pub fn restore_active_key(&self) -> (r: Option<&str>)
        ensures
            text::str_view(r) == self@.restore_active_key,
    {
        match &self.restore_active_key {
            Some(key) => Some(key.as_str()),
            None => None,
        }
    }

    /// Gives the tab that startup restore will select, and forgets it.
    pub fn take_restore_active_key(&mut self) -> (r: Option<String>)
        ensures
            text::text_view(r) == old(self)@.restore_active_key,
            final(self)@ == (RegistryView { restore_active_key: None, ..old(self)@ }),
            old(self).wf() ==> final(self).wf(),
    {
        self.restore_active_key.take()
    }

    /// Starts a re-parse batch and supersedes any older batch still in flight.
    pub fn begin_reparse_batch(&mut self, jobs: usize) -> (generation: u64)
        requires
            old(self).wf(),
            old(self)@.generation < u64::MAX,
        ensures
            final(self).wf(),
            generation == old(self)@.generation + 1,
            final(self)@ == old(self)@.batch_started(jobs),
    {
        if self.pending.is_empty() && self.reparse_jobs_left == 0 {
            // A busy period starting between two polls must not inherit the previous one's clock.
            self.reminder_anchor = None;
        }
        self.reparse_generation = self.reparse_generation + 1;
        self.reparse_jobs_left = jobs;
        self.reparse_failed = 0;
        self.reparse_generation
    }

    /// Records a re-parse result and reports whether its batch is stale, active, or complete.
    pub fn reparse_job_done(&mut self, generation: u64, failed: bool) -> (r: ReparseJobOutcome)
        requires
            old(self).wf(),
            generation == old(self)@.generation ==> old(self)@.jobs_left > 0,
        ensures
            final(self).wf(),
            r == old(self)@.job_outcome(generation, failed),
            final(self)@ == old(self)@.job_done(generation, failed),
    {
        if generation != self.reparse_generation {
            return ReparseJobOutcome::Superseded;
        }
        self.reparse_jobs_left = self.reparse_jobs_left - 1;
        if failed {
            self.reparse_failed = self.reparse_failed + 1;
        }
        if self.reparse_jobs_left == 0 {
            ReparseJobOutcome::BatchFinished { failed: self.reparse_failed }
        } else {
            ReparseJobOutcome::BatchInFlight
        }
    }

    /// Whether another open can be registered, another batch begun and another failure counted.
    pub fn within_limits(&self) -> (r: bool)
        ensures
            r == (self@.next_seq < u64::MAX && self@.generation < u64::MAX && self@.restore_failed
                < usize::MAX),
    {
        self.next_seq < u64::MAX && self.reparse_generation < u64::MAX && self.restore_failed
            < usize::MAX
    }

    /// Whether the result of a job of batch `generation` can be recorded.
    pub fn expects_result(&self, generation: u64) -> (r: bool)
        ensures
            r == (generation == self@.generation ==> self@.jobs_left > 0),
    {
        generation != self.reparse_generation || self.reparse_jobs_left > 0
    }
}

/// What the application is busy with.
pub enum BusyStatus {
    /// Open documents are being parsed again.
    Reloading,
    /// One document, with this name, is being parsed.
    Loading(String),
    /// That many documents are being parsed.
    LoadingMany(usize),
}

impl BusyStatus {
    /// The message that describes the status; in it, `{}` stands for the name or the number.
    pub open spec fn message_text(self) -> Seq<char> {
        match self {
            BusyStatus::Reloading => "Reloading documents…"@,
            BusyStatus::Loading(_) => "Loading {}…"@,
            BusyStatus::LoadingMany(_) => "Loading {} documents…"@,
        }
    }

    /// `template` with its `{}` filled in.
    pub open spec fn filled(self, template: Seq<char>) -> Seq<char> {
        match self {
            BusyStatus::Reloading => template,
            BusyStatus::Loading(name) => text::replaced(template, "{}"@, name@),
            BusyStatus::LoadingMany(count) => text::replaced(
                template,
                "{}"@,
                text::decimal(count as nat),
            ),
        }
    }

    /// This status describes `registry`.
    pub open spec fn describes(self, registry: RegistryView) -> bool {
        match self {
            BusyStatus::Reloading => registry.pending.len() == 0 && registry.jobs_left > 0,
            BusyStatus::Loading(name) => {
                &&& registry.pending.len() == 1
                &&& names::names_document(
                    text::or_empty(text::text_view(registry.pending[0].title_override)),
                    registry.pending[0].path@,
                    name@,
                )
            },
            BusyStatus::LoadingMany(count) => registry.pending.len() == count && count > 1,
        }
    }

    /// The message that describes the status; in it, `{}` stands for the name or the number.
    pub fn message(&self) -> (r: &'static str)
        ensures
            r@ == self.message_text(),
    {
        match self {
            BusyStatus::Reloading => "Reloading documents…",
            BusyStatus::Loading(_) => "Loading {}…",
            BusyStatus::LoadingMany(_) => "Loading {} documents…",
        }
    }

    /// `template` with its `{}` filled in.
    pub fn fill(&self, template: String) -> (r: String)
        ensures
            r@ == self.filled(template@),
    {
        proof {
            reveal_strlit("{}");
        }
        match self {
            BusyStatus::Reloading => template,
            BusyStatus::Loading(name) => replace_all(template.as_str(), "{}", name.as_str()),
            BusyStatus::LoadingMany(count) => replace_all(
                template.as_str(),
                "{}",
                decimal_text(*count as u64).as_str(),
            ),
        }
    }
}

impl RegistryView {
    /// `content` tells, in some language, what the application is busy with.
    pub open spec fn busy_text_is(self, content: Option<Seq<char>>) -> bool {
        match content {
            Some(shown) => !self.idle() && exists|status: BusyStatus, template: Seq<char>|
                #![trigger status.filled(template)]
                status.describes(self) && locale::translation_answer(
                    status.message_text(),
                    template,
                ) && shown == status.filled(template),
            None => self.idle(),
        }
    }
}

/// A reminder that work is still under way.
#[derive(Debug, Clone, Copy, PartialEq, Eq, Structural)]
pub enum Reminder {
    /// Open documents are being parsed again.
    StillReloading,
    /// A document is being parsed.
    StillLoading,
}

impl Reminder {
    /// The reminder's message.
    pub open spec fn message_text(self) -> Seq<char> {
        match self {
            Reminder::StillReloading => "Still reloading…"@,
            Reminder::StillLoading => "Still loading…"@,
        }
    }

    /// The reminder's message.
    pub fn message(&self) -> (r: &'static str)
        ensures
            r@ == self.message_text(),
    {
        match self {
            Reminder::StillReloading => "Still reloading…",
            Reminder::StillLoading => "Still loading…",
        }
    }
}

impl RegistryView {
    /// The reminder that a poll at `now` gives.
    pub open spec fn reminder(self, now: u64) -> Option<Reminder> {
        if !self.reminder_due(now) {
            None
        } else if self.pending.len() == 0 {
            Some(Reminder::StillReloading)
        } else {
            Some(Reminder::StillLoading)
        }
    }
}

impl ParseRegistry {
    /// Names one pending open, counts several, or describes an active re-parse batch.
    pub fn busy_status(&self) -> (r: Option<BusyStatus>)
        ensures
            r is Some == !self@.idle(),
            r matches Some(status) ==> status.describes(self@),
    {
        let count = self.pending.len();
        if count == 0 {
            if self.reparse_jobs_left > 0 {
                Some(BusyStatus::Reloading)
            } else {
                None
            }
        } else if count == 1 {
            let entry = &self.pending[0];
            let name = match &entry.title_override {
                Some(title) => title_or_filename(title.as_str(), entry.path.as_str()),
                None => title_or_filename("", entry.path.as_str()),
            };
            proof {
                reveal_strlit("");
                assert(""@ =~= Seq::<char>::empty());
            }
            Some(BusyStatus::Loading(name))
        } else {
            Some(BusyStatus::LoadingMany(count))
        }
    }

    /// Names one pending open, counts several, or describes an active re-parse batch, in the
    /// language that is active.
    pub fn busy_status_text(&self) -> (r: Option<String>)
        ensures
            self@.busy_text_is(text::text_view(r)),
    {
        match self.busy_status() {
            Some(status) => {
                let template = t(status.message());
                let ghost answer = template@;
                let content = status.fill(template);
                proof {
                    assert(content@ == status.filled(answer));
                }
                Some(content)
            },
            None => None,
        }
    }

    /// The reminder that is due at `now`, in nanoseconds from some fixed moment: one comes every
    /// `REMINDER_INTERVAL` while work remains. The first busy poll starts the clock; it resets when
    /// the registry goes idle or new work starts from idle.
    pub fn poll_reminder(&mut self, now: u64) -> (r: Option<Reminder>)
        ensures
            r == old(self)@.reminder(now),
            final(self)@ == old(self)@.polled(now),
            old(self).wf() ==> final(self).wf(),
    {
        if self.pending.is_empty() && self.reparse_jobs_left == 0 {
            self.reminder_anchor = None;
            return None;
        }
        let anchor = match self.reminder_anchor {
            Some(anchor) => anchor,
            None => {
                self.reminder_anchor = Some(now);
                now
            },
        };
        if now.saturating_sub(anchor) < REMINDER_INTERVAL {
            return None;
        }
        self.reminder_anchor = Some(now);
        if self.pending.is_empty() {
            Some(Reminder::StillReloading)
        } else {
            Some(Reminder::StillLoading)
        }
    }

    /// Returns a live-region reminder every `REMINDER_INTERVAL` while work remains, in the language
    /// that is active. `now` counts nanoseconds from some fixed moment.
    pub fn due_reminder(&mut self, now: u64) -> (r: Option<String>)
        ensures
            r is Some == old(self)@.reminder_due(now),
            r matches Some(content) ==> (old(self)@.reminder(now) matches Some(reminder)
                && locale::translation_answer(reminder.message_text(), content@)),
            final(self)@ == old(self)@.polled(now),
            old(self).wf() ==> final(self).wf(),
    {
        match self.poll_reminder(now) {
            Some(reminder) => Some(t(reminder.message())),
            None => None,
        }
    }
}

proof fn lemma_find_key_stays(pending: Seq<PendingParse>, key: Seq<char>, n: int)
    requires
        0 <= n <= pending.len(),
        find_key(pending.take(n), key) is Some,
    ensures
        find_key(pending, key) == find_key(pending.take(n), key),
    decreases pending.len() - n,
{
    if n < pending.len() {
        assert(pending.take(n + 1).drop_last() =~= pending.take(n));
        lemma_find_key_stays(pending, key, n + 1);
    } else {
        assert(pending.take(n) =~= pending);
    }
}

proof fn lemma_find_seq_stays(pending: Seq<PendingParse>, seq: u64, n: int)
    requires
        0 <= n <= pending.len(),
        find_seq(pending.take(n), seq) is Some,
    ensures
        find_seq(pending, seq) == find_seq(pending.take(n), seq),
    decreases pending.len() - n,
{
    if n < pending.len() {
        assert(pending.take(n + 1).drop_last() =~= pending.take(n));
        lemma_find_seq_stays(pending, seq, n + 1);
    } else {
        assert(pending.take(n) =~= pending);
    }
}

pub proof fn lemma_find_seq(pending: Seq<PendingParse>, seq: u64)
    ensures
        match find_seq(pending, seq) {
            Some(i) => 0 <= i < pending.len() && pending[i].seq == seq && forall|j: int|
                0 <= j < i ==> (#[trigger] pending[j]).seq != seq,
            None => forall|j: int| 0 <= j < pending.len() ==> (#[trigger] pending[j]).seq != seq,
        },
    decreases pending.len(),
{
    if pending.len() > 0 {
        let shorter = pending.drop_last();
        lemma_find_seq(shorter, seq);
        assert forall|j: int| 0 <= j < shorter.len() implies shorter[j] == #[trigger] pending[j] by {}
    }
}

pub proof fn lemma_find_key(pending: Seq<PendingParse>, key: Seq<char>)
    ensures
        match find_key(pending, key) {
            Some(i) => 0 <= i < pending.len() && pending[i].key@ == key && forall|j: int|
                0 <= j < i ==> (#[trigger] pending[j]).key@ != key,
            None => forall|j: int| 0 <= j < pending.len() ==> (#[trigger] pending[j]).key@ != key,
        },
    decreases pending.len(),
{
    if pending.len() > 0 {
        let shorter = pending.drop_last();
        lemma_find_key(shorter, key);
        assert forall|j: int| 0 <= j < shorter.len() implies shorter[j] == #[trigger] pending[j] by {}
    }
}

/// An open is found by the sequence number that it was registered under, and the opens registered
/// before it are still found where they were.
pub proof fn law_registered_open_is_found(registry: RegistryView, entry: PendingParse, seq: u64)
    requires
        registry.wf(),
        registry.next_seq < u64::MAX,
    ensures
        find_seq(registry.registered(entry).pending, registry.next_seq) == Some(
            registry.pending.len() as int,
        ),
        seq != registry.next_seq ==> find_seq(registry.registered(entry).pending, seq) == find_seq(
            registry.pending,
            seq,
        ),
        registry.registered(entry).wf(),
{
    let after = registry.registered(entry).pending;
    assert(after.drop_last() =~= registry.pending);
    lemma_find_seq(registry.pending, registry.next_seq);
}

/// An open that was taken is no longer found; every other open still is.
pub proof fn law_taken_open_is_gone(registry: RegistryView, seq: u64, failed: bool, other: u64)
    requires
        registry.wf(),
        find_seq(registry.pending, seq) is Some,
    ensures
        ({
            let after = registry.taken(find_seq(registry.pending, seq)->0, failed);
            &&& find_seq(after.pending, seq) is None
            &&& other != seq ==> find_seq(after.pending, other) is Some == (find_seq(
                registry.pending,
                other,
            ) is Some)
        }),
{
    lemma_find_seq(registry.pending, seq);
    lemma_find_seq(registry.pending, other);
    let i: int = find_seq(registry.pending, seq)->0;
    let after = registry.pending.remove(i);
    lemma_find_seq(after, seq);
    lemma_find_seq(after, other);
    assert forall|j: int| 0 <= j < after.len() implies #[trigger] after[j] == registry.pending[if j
        < i {
        j
    } else {
        j + 1
    }] by {}
    if other != seq && find_seq(registry.pending, other) is Some {
        let k: int = find_seq(registry.pending, other)->0;
        let moved: int = if k < i {
            k
        } else {
            k - 1
        };
        assert(after[moved].seq == other);
    }
}

/// Once every open was cancelled, none is found: each result that arrives is discarded.
pub proof fn law_cancelled_opens_are_gone(registry: RegistryView, seq: u64, key: Seq<char>)
    ensures
        find_seq(registry.cancelled().pending, seq) is None,
        find_key(registry.cancelled().pending, key) is None,
        registry.cancelled().restore_active_key is None,
{
}

/// Taking an open, or cancelling all of them, leaves no document being opened twice.
pub proof fn law_keys_stay_unique(registry: RegistryView, i: int, failed: bool)
    requires
        registry.keys_unique(),
        0 <= i < registry.pending.len(),
    ensures
        registry.taken(i, failed).keys_unique(),
        registry.cancelled().keys_unique(),
{
    let after = registry.taken(i, failed);
    assert forall|a: int, b: int|
        #![trigger after.pending[a], after.pending[b]]
        0 <= a < b < after.pending.len() implies after.pending[a].key@ != after.pending[b].key@ by {
        let from_a: int = if a < i {
            a
        } else {
            a + 1
        };
        let from_b: int = if b < i {
            b
        } else {
            b + 1
        };
        assert(after.pending[a] == registry.pending[from_a]);
        assert(after.pending[b] == registry.pending[from_b]);
    }
}

/// An open that the user asked for cancels the tab selection of the startup restore; the restore's
/// own opens keep it.
pub proof fn law_user_open_cancels_restore_selection(registry: RegistryView, entry: PendingParse)
    ensures
        registry.registered(entry).restore_active_key == (if entry.is_restore {
            registry.restore_active_key
        } else {
            None
        }),
{
}

/// Something that happens to the opens under way.
pub enum RegistryEvent {
    /// An open is registered.
    Registered(PendingParse),
    /// The result of the open with this sequence number arrives.
    Completed { seq: u64, failed: bool },
    /// Every open is cancelled.
    Cancelled,
}

/// After these events, in order. A result of an open that is not there is discarded.
pub open spec fn after_events(registry: RegistryView, events: Seq<RegistryEvent>) -> RegistryView
    decreases events.len(),
{
    if events.len() == 0 {
        registry
    } else {
        let before = after_events(registry, events.drop_last());
        match events.last() {
            RegistryEvent::Registered(entry) => before.registered(entry),
            RegistryEvent::Completed { seq, failed } => match find_seq(before.pending, seq) {
                Some(i) => before.taken(i, failed),
                None => before,
            },
            RegistryEvent::Cancelled => before.cancelled(),
        }
    }
}

/// The last of these events is the failure of a restore open.
pub open spec fn restore_open_fails(registry: RegistryView, events: Seq<RegistryEvent>) -> bool {
    let before = after_events(registry, events.drop_last());
    match events.last() {
        RegistryEvent::Completed { seq, failed } => match find_seq(before.pending, seq) {
            Some(i) => failed && before.pending[i].is_restore,
            None => false,
        },
        _ => false,
    }
}

/// The last of these events ends the startup restore with its last open.
pub open spec fn restore_completes(registry: RegistryView, events: Seq<RegistryEvent>) -> bool {
    let before = after_events(registry, events.drop_last());
    match events.last() {
        RegistryEvent::Completed { seq, .. } => match find_seq(before.pending, seq) {
            Some(i) => before.completes_restore(i),
            None => false,
        },
        _ => false,
    }
}

/// The last of these events ends the startup restore, by its last open or because every open is
/// cancelled.
pub open spec fn restore_ends(registry: RegistryView, events: Seq<RegistryEvent>) -> bool {
    events.last() is Cancelled || restore_completes(registry, events)
}

/// How many restore opens failed from the event at `from` on.
pub open spec fn restore_failures(
    registry: RegistryView,
    events: Seq<RegistryEvent>,
    from: int,
) -> nat
    decreases events.len(),
{
    if events.len() <= from || events.len() == 0 {
        0
    } else {
        restore_failures(registry, events.drop_last(), from) + (if restore_open_fails(
            registry,
            events,
        ) {
            1nat
        } else {
            0
        })
    }
}

/// Where the restore that is under way after these events began to be counted: behind the event that
/// ended a restore last, or at the start.
pub open spec fn restore_start(registry: RegistryView, events: Seq<RegistryEvent>) -> int
    decreases events.len(),
{
    if events.len() == 0 {
        0
    } else if restore_ends(registry, events) {
        events.len() as int
    } else {
        restore_start(registry, events.drop_last())
    }
}

proof fn lemma_restore_progress(registry: RegistryView, events: Seq<RegistryEvent>)
    requires
        registry.restore_failed == 0,
        events.len() <= usize::MAX,
    ensures
        0 <= restore_start(registry, events) <= events.len(),
        after_events(registry, events).restore_failed == restore_failures(
            registry,
            events,
            restore_start(registry, events),
        ),
        restore_failures(registry, events, restore_start(registry, events)) <= events.len(),
    decreases events.len(),
{
    if events.len() > 0 {
        lemma_restore_progress(registry, events.drop_last());
    }
}

/// The startup restore ends with its last open. The count that is then reported is the number of its
/// opens that failed since the restore before it ended, whatever was registered, ended or cancelled
/// before and whatever opens of the user were registered or ended in between. The next restore counts
/// from zero again.
pub proof fn law_restore_reports_its_failures(registry: RegistryView, events: Seq<RegistryEvent>)
    requires
        registry.restore_failed == 0,
        0 < events.len() <= usize::MAX,
        restore_completes(registry, events),
    ensures
        ({
            let before = after_events(registry, events.drop_last());
            let last = events.last();
            let i = find_seq(before.pending, last->seq)->0;
            &&& before.failures_after(i, last->failed) == restore_failures(
                registry,
                events,
                restore_start(registry, events.drop_last()),
            )
            &&& after_events(registry, events).restore_failed == 0
        }),
{
    lemma_restore_progress(registry, events.drop_last());
}

/// Cancelling every open ends the startup restore: its failures are forgotten, and nothing is left to
/// report them.
pub proof fn law_cancelled_restore_reports_nothing(registry: RegistryView)
    ensures
        registry.cancelled().restore_failed == 0,
        !restore_pending(registry.cancelled().pending),
{
}

/// After these results of batch `generation` were recorded in order.
pub open spec fn after_jobs(
    registry: RegistryView,
    generation: u64,
    results: Seq<bool>,
) -> RegistryView
    decreases results.len(),
{
    if results.len() == 0 {
        registry
    } else {
        after_jobs(registry, generation, results.drop_last()).job_done(generation, results.last())
    }
}

/// How many of these results are failures.
pub open spec fn failed_results(results: Seq<bool>) -> nat
    decreases results.len(),
{
    if results.len() == 0 {
        0
    } else {
        failed_results(results.drop_last()) + (if results.last() {
            1nat
        } else {
            0
        })
    }
}

proof fn lemma_batch_progress(registry: RegistryView, jobs: usize, results: Seq<bool>)
    requires
        registry.generation < u64::MAX,
        results.len() <= jobs,
    ensures
        ({
            let started = registry.batch_started(jobs);
            let now = after_jobs(started, started.generation, results);
            &&& now.generation == started.generation
            &&& now.jobs_left == jobs - results.len()
            &&& now.jobs_failed == failed_results(results)
            &&& failed_results(results) <= results.len()
        }),
    decreases results.len(),
{
    if results.len() > 0 {
        lemma_batch_progress(registry, jobs, results.drop_last());
    }
}

/// A batch of `jobs` stays in flight until its last result, which finishes it and reports how many
/// of the results were failures.
pub proof fn law_batch_finishes_with_its_last_result(
    registry: RegistryView,
    jobs: usize,
    results: Seq<bool>,
)
    requires
        registry.generation < u64::MAX,
        0 < results.len() <= jobs,
    ensures
        ({
            let started = registry.batch_started(jobs);
            let before = after_jobs(started, started.generation, results.drop_last());
            before.job_outcome(started.generation, results.last()) == (if results.len() < jobs {
                ReparseJobOutcome::BatchInFlight
            } else {
                ReparseJobOutcome::BatchFinished { failed: failed_results(results) as usize }
            })
        }),
{
    lemma_batch_progress(registry, jobs, results.drop_last());
    lemma_batch_progress(registry, jobs, results);
}

/// A result of a batch that a later one superseded changes nothing.
pub proof fn law_superseded_results_are_discarded(
    registry: RegistryView,
    jobs: usize,
    generation: u64,
    failed: bool,
)
    requires
        registry.generation < u64::MAX,
        generation <= registry.generation,
    ensures
        registry.batch_started(jobs).job_outcome(generation, failed)
            == ReparseJobOutcome::Superseded,
        registry.batch_started(jobs).job_done(generation, failed) == registry.batch_started(jobs),
{
}

/// After polls at these moments.
pub open spec fn after_polls(registry: RegistryView, moments: Seq<u64>) -> RegistryView
    decreases moments.len(),
{
    if moments.len() == 0 {
        registry
    } else {
        after_polls(registry, moments.drop_last()).polled(moments.last())
    }
}

proof fn lemma_clock_runs(registry: RegistryView, start: u64, moments: Seq<u64>)
    requires
        !registry.idle(),
        registry.reminder_anchor == Some(start),
        forall|i: int|
            0 <= i < moments.len() ==> (#[trigger] moments[i]) - start < REMINDER_INTERVAL,
    ensures
        after_polls(registry, moments) == registry,
    decreases moments.len(),
{
    if moments.len() > 0 {
        lemma_clock_runs(registry, start, moments.drop_last());
    }
}

/// While work goes on, a reminder at `start` is followed by none until an interval has passed, and
/// by one at the first poll after that.
pub proof fn law_reminders_are_an_interval_apart(
    registry: RegistryView,
    start: u64,
    moments: Seq<u64>,
    next: u64,
)
    requires
        registry.reminder_due(start),
        forall|i: int|
            0 <= i < moments.len() ==> (#[trigger] moments[i]) - start < REMINDER_INTERVAL,
    ensures
        after_polls(registry.polled(start), moments).reminder_due(next) <==> next - start
            >= REMINDER_INTERVAL,
{
    lemma_clock_runs(registry.polled(start), start, moments);
}

/// Work that starts from idle gets a fresh clock: its first poll gives no reminder, and the next
/// reminder comes an interval after that poll, whatever was polled before.
pub proof fn law_new_work_gets_a_fresh_clock(
    registry: RegistryView,
    entry: PendingParse,
    jobs: usize,
    first: u64,
    next: u64,
)
    requires
        registry.idle(),
    ensures
        !registry.registered(entry).reminder_due(first),
        registry.registered(entry).polled(first).reminder_due(next) <==> next - first
            >= REMINDER_INTERVAL,
        !registry.batch_started(jobs).reminder_due(first),
        jobs > 0 ==> (registry.batch_started(jobs).polled(first).reminder_due(next) <==> next
            - first >= REMINDER_INTERVAL),
{
}

/// A new open gets the next number and stands behind all others, which stay as they are. An open of the
/// user takes the tab selection away from the startup restore. From idle, the reminder clock starts anew.
pub proof fn law_opens_are_numbered_in_order(
    registry: &mut ParseRegistry,
    entry: PendingParse,
    seq: u64,
)
    requires
        old(registry)@.next_seq < u64::MAX,
        call_ensures(ParseRegistry::register, (registry, entry), seq),
    ensures
        ({
            let before = old(registry)@;
            let after = final(registry)@;
            let n = before.pending.len() as int;
            &&& seq == before.next_seq
            &&& after.next_seq == seq + 1
            &&& after.pending.len() == n + 1
            &&& forall|j: int| 0 <= j < n ==> #[trigger] after.pending[j] == before.pending[j]
            &&& after.pending[n] == (PendingParse { seq, ..entry })
            &&& entry.is_restore ==> after.restore_active_key == before.restore_active_key
            &&& !entry.is_restore ==> after.restore_active_key is None
            &&& n == 0 && before.jobs_left == 0 ==> after.reminder_anchor is None
            &&& n > 0 || before.jobs_left > 0 ==> after.reminder_anchor == before.reminder_anchor
            &&& after.restore_failed == before.restore_failed
            &&& after.generation == before.generation
            &&& after.jobs_left == before.jobs_left
            &&& after.jobs_failed == before.jobs_failed
        }),
{
}

/// An open is found under its number exactly while it is pending.
pub proof fn law_opens_are_found_by_number(
    registry: ParseRegistry,
    seq: u64,
    r: Option<&PendingParse>,
    i: int,
)
    requires
        registry.wf(),
        call_ensures(ParseRegistry::by_seq, (&registry, seq), r),
    ensures
        0 <= i < registry@.pending.len() && registry@.pending[i].seq == seq ==> r == Some(
            &registry@.pending[i],
        ),
        (forall|j: int|
            0 <= j < registry@.pending.len() ==> (#[trigger] registry@.pending[j]).seq != seq)
            ==> r is None,
{
    let pending = registry@.pending;
    lemma_find_seq(pending, seq);
    if 0 <= i < pending.len() && pending[i].seq == seq {
        let k: int = find_seq(pending, seq)->0;
        if k < i {
            assert(pending[k].seq < pending[i].seq);
        }
        if i < k {
            assert(pending[i].seq < pending[k].seq);
        }
    }
}

/// Taking an open removes it and nothing else. If it was a restored one, its failure counts, and if no
/// other restored one is pending, the restore is over: the number of its failures is given out, and the
/// count starts again from zero. An open that is not pending is not taken.
pub proof fn law_taking_an_open(
    registry: &mut ParseRegistry,
    seq: u64,
    failed: bool,
    r: Option<(PendingParse, Option<usize>)>,
    i: int,
)
    requires
        old(registry).wf(),
        old(registry)@.restore_failed < usize::MAX,
        call_ensures(ParseRegistry::take, (registry, seq, failed), r),
    ensures
        0 <= i < old(registry)@.pending.len() && old(registry)@.pending[i].seq == seq ==> {
            let before = old(registry)@;
            let after = final(registry)@;
            let failures = before.restore_failed + if before.pending[i].is_restore && failed {
                1int
            } else {
                0
            };
            let over = before.pending[i].is_restore && forall|j: int|
                0 <= j < before.pending.len() && j != i ==> !(
                #[trigger] before.pending[j]).is_restore;
            &&& r matches Some((entry, finished))
            &&& entry == before.pending[i]
            &&& over ==> finished == Some(failures as usize) && after.restore_failed == 0
            &&& !over ==> finished is None && after.restore_failed == failures
            &&& after.pending.len() == before.pending.len() - 1
            &&& forall|j: int|
                0 <= j < i ==> #[trigger] after.pending[j] == before.pending[j]
            &&& forall|j: int|
                i <= j < after.pending.len() ==> #[trigger] after.pending[j] == before.pending[j + 1]
            &&& after.next_seq == before.next_seq
            &&& after.restore_active_key == before.restore_active_key
            &&& after.generation == before.generation
            &&& after.jobs_left == before.jobs_left
            &&& after.jobs_failed == before.jobs_failed
            &&& after.reminder_anchor == before.reminder_anchor
        },
        (forall|j: int|
            0 <= j < old(registry)@.pending.len() ==> (#[trigger] old(registry)@.pending[j]).seq
                != seq) ==> r is None && final(registry)@ == old(registry)@,
{
    let before = old(registry)@;
    lemma_find_seq(before.pending, seq);
    if 0 <= i < before.pending.len() && before.pending[i].seq == seq {
        let k: int = find_seq(before.pending, seq)->0;
        if k < i {
            assert(before.pending[k].seq < before.pending[i].seq);
        }
        if i < k {
            assert(before.pending[i].seq < before.pending[k].seq);
        }
        let rest = before.pending.remove(i);
        if restore_pending(rest) {
            let j = choose|j: int| 0 <= j < rest.len() && (#[trigger] rest[j]).is_restore;
            let from: int = if j < i {
                j
            } else {
                j + 1
            };
            assert(before.pending[from].is_restore);
        } else {
            assert forall|j: int| 0 <= j < before.pending.len() && j != i implies !(
            #[trigger] before.pending[j]).is_restore by {
                let to: int = if j < i {
                    j
                } else {
                    j - 1
                };
                assert(rest[to] == before.pending[j]);
                assert(!rest[to].is_restore);
            }
        }
    }
}

/// Cancelling forgets every pending open and the restore with its selection and its failures. Batches and
/// the numbers that were handed out stay.
pub proof fn law_cancelling_forgets_every_open(registry: &mut ParseRegistry)
    requires
        call_ensures(ParseRegistry::cancel_all, (registry,), ()),
    ensures
        final(registry)@.pending.len() == 0,
        final(registry)@.restore_active_key is None,
        final(registry)@.restore_failed == 0,
        final(registry)@.next_seq == old(registry)@.next_seq,
        final(registry)@.generation == old(registry)@.generation,
        final(registry)@.jobs_left == old(registry)@.jobs_left,
        final(registry)@.jobs_failed == old(registry)@.jobs_failed,
        final(registry)@.reminder_anchor == old(registry)@.reminder_anchor,
{
}

/// A new registry is idle. An open is pending exactly if there is one.
pub proof fn law_new_registry_is_idle(created: ParseRegistry, registry: ParseRegistry, r: bool)
    requires
        call_ensures(<ParseRegistry as Default>::default, (), created),
        call_ensures(ParseRegistry::has_pending, (&registry,), r),
    ensures
        created@.pending.len() == 0,
        created@.jobs_left == 0,
        created@.restore_failed == 0,
        created@.restore_active_key is None,
        created@.reminder_anchor is None,
        r <==> registry@.pending.len() > 0,
{
}

/// The tab that the restore will select is what was set last, and taking it forgets it; nothing else
/// changes.
pub proof fn law_restore_selection_is_kept(
    set: &mut ParseRegistry,
    key: Option<String>,
    read: ParseRegistry,
    shown: Option<&str>,
    taken: &mut ParseRegistry,
    r: Option<String>,
)
    requires
        call_ensures(ParseRegistry::set_restore_active_key, (set, key), ()),
        call_ensures(ParseRegistry::restore_active_key, (&read,), shown),
        call_ensures(ParseRegistry::take_restore_active_key, (taken,), r),
    ensures
        final(set)@ == (RegistryView {
            restore_active_key: text::text_view(key),
            ..old(set)@
        }),
        text::str_view(shown) == read@.restore_active_key,
        text::text_view(r) == old(taken)@.restore_active_key,
        final(taken)@ == (RegistryView { restore_active_key: None, ..old(taken)@ }),
{
}

/// A batch gets a number of its own, expects as many results as there are jobs, and has no failure yet.
/// From idle, the reminder clock starts anew.
pub proof fn law_batch_starts_fresh(registry: &mut ParseRegistry, jobs: usize, generation: u64)
    requires
        old(registry)@.generation < u64::MAX,
        call_ensures(ParseRegistry::begin_reparse_batch, (registry, jobs), generation),
    ensures
        ({
            let before = old(registry)@;
            let after = final(registry)@;
            &&& generation == before.generation + 1
            &&& after.generation == generation
            &&& after.jobs_left == jobs
            &&& after.jobs_failed == 0
            &&& after.pending == before.pending
            &&& after.next_seq == before.next_seq
            &&& after.restore_active_key == before.restore_active_key
            &&& after.restore_failed == before.restore_failed
            &&& before.pending.len() == 0 && before.jobs_left == 0 ==> after.reminder_anchor is None
            &&& before.pending.len() > 0 || before.jobs_left > 0 ==> after.reminder_anchor
                == before.reminder_anchor
        }),
{
}

/// A result of the current batch counts as one job less, and as one failure more if it failed; the last
/// one finishes the batch and gives out all failures. A result of another batch changes nothing.
pub proof fn law_results_are_counted(
    registry: &mut ParseRegistry,
    generation: u64,
    failed: bool,
    r: ReparseJobOutcome,
)
    requires
        old(registry).wf(),
        generation == old(registry)@.generation ==> old(registry)@.jobs_left > 0,
        call_ensures(ParseRegistry::reparse_job_done, (registry, generation, failed), r),
    ensures
        ({
            let before = old(registry)@;
            let after = final(registry)@;
            let failures = before.jobs_failed + if failed {
                1int
            } else {
                0
            };
            &&& generation != before.generation ==> r == ReparseJobOutcome::Superseded && after
                == before
            &&& generation == before.generation ==> {
                &&& after.jobs_left == before.jobs_left - 1
                &&& after.jobs_failed == failures
                &&& before.jobs_left == 1 ==> (r matches ReparseJobOutcome::BatchFinished {
                    failed: reported,
                } && reported == failures)
                &&& before.jobs_left > 1 ==> r == ReparseJobOutcome::BatchInFlight
                &&& after.generation == before.generation
                &&& after.pending == before.pending
                &&& after.next_seq == before.next_seq
                &&& after.restore_active_key == before.restore_active_key
                &&& after.restore_failed == before.restore_failed
                &&& after.reminder_anchor == before.reminder_anchor
            }
        }),
{
}

/// What the application is busy with: pending opens come first, one by its name and several by their
/// number, and then a batch. Nothing is told exactly if there is neither.
pub proof fn law_busy_status(registry: ParseRegistry, r: Option<BusyStatus>)
    requires
        call_ensures(ParseRegistry::busy_status, (&registry,), r),
    ensures
        ({
            let view = registry@;
            let n = view.pending.len();
            &&& n == 0 && view.jobs_left == 0 ==> r is None
            &&& n == 0 && view.jobs_left > 0 ==> (r is Some && r->0 is Reloading)
            &&& n == 1 ==> {
                &&& r matches Some(BusyStatus::Loading(name))
                &&& view.pending[0].title_override matches Some(title) ==> (title@.len() > 0
                    ==> name@ == title@)
                &&& (view.pending[0].title_override matches Some(title) ==> title@.len() == 0)
                    && paths::is_file_name(view.pending[0].path@) ==> name@
                    == view.pending[0].path@
            }
            &&& n > 1 ==> (r matches Some(BusyStatus::LoadingMany(count)) && count == n)
        }),
{
}

/// How the status reads: each kind has its own message, in which the name or the number stands in place
/// of `{}`.
pub proof fn law_busy_status_text(registry: ParseRegistry, r: Option<String>)
    requires
        call_ensures(ParseRegistry::busy_status_text, (&registry,), r),
    ensures
        ({
            let view = registry@;
            let n = view.pending.len();
            &&& n == 0 && view.jobs_left == 0 <==> r is None
            &&& n == 0 && view.jobs_left > 0 ==> (r matches Some(shown)
                && locale::translation_answer("Reloading documents…"@, shown@))
            &&& n == 1 ==> (r matches Some(shown) && exists|name: Seq<char>|
                names::names_document(
                    text::or_empty(text::text_view(view.pending[0].title_override)),
                    view.pending[0].path@,
                    name,
                ) && #[trigger] locale::fills("Loading {}…"@, name, shown@))
            &&& n > 1 ==> (r matches Some(shown) && locale::fills(
                "Loading {} documents…"@,
                text::decimal(n),
                shown@,
            ))
        }),
{
    let view = registry@;
    if let Some(shown) = r {
        let (status, template) = choose|status: BusyStatus, template: Seq<char>|
            #![trigger status.filled(template)]
            status.describes(view) && locale::translation_answer(status.message_text(), template)
                && shown@ == status.filled(template);
        assert(status.describes(view));
        match status {
            BusyStatus::Reloading => {},
            BusyStatus::Loading(name) => {
                assert(locale::fills("Loading {}…"@, name@, shown@));
            },
            BusyStatus::LoadingMany(count) => {
                assert(locale::fills("Loading {} documents…"@, text::decimal(count as nat), shown@));
            },
        }
    }
}

/// The messages of the status and of the reminders, and how they are filled in.
pub proof fn law_status_messages(
    status: BusyStatus,
    message: &'static str,
    template: String,
    filled: String,
    reminder: Reminder,
    spoken: &'static str,
)
    requires
        call_ensures(BusyStatus::message, (&status,), message),
        call_ensures(BusyStatus::fill, (&status, template), filled),
        call_ensures(Reminder::message, (&reminder,), spoken),
    ensures
        status is Reloading ==> message@ == "Reloading documents…"@ && filled@ == template@,
        status matches BusyStatus::Loading(name) ==> message@ == "Loading {}…"@ && filled@
            == text::replaced(template@, "{}"@, name@),
        status matches BusyStatus::LoadingMany(count) ==> message@ == "Loading {} documents…"@
            && filled@ == text::replaced(template@, "{}"@, text::decimal(count as nat)),
        reminder == Reminder::StillReloading ==> spoken@ == "Still reloading…"@,
        reminder == Reminder::StillLoading ==> spoken@ == "Still loading…"@,
{
}

/// Reminders come fifteen seconds apart while work goes on. The first poll of a busy period starts the
/// clock, a reminder starts it again, and an idle poll stops it. Opens are named before batches.
pub proof fn law_reminders_follow_the_clock(
    registry: &mut ParseRegistry,
    now: u64,
    r: Option<Reminder>,
)
    requires
        call_ensures(ParseRegistry::poll_reminder, (registry, now), r),
    ensures
        REMINDER_INTERVAL == 15 * 1000 * 1000 * 1000,
        ({
            let before = old(registry)@;
            let after = final(registry)@;
            let busy = before.pending.len() > 0 || before.jobs_left > 0;
            &&& !busy ==> r is None && after.reminder_anchor is None
            &&& busy && before.reminder_anchor is None ==> r is None && after.reminder_anchor
                == Some(now)
            &&& busy ==> (before.reminder_anchor matches Some(anchor) ==> {
                &&& now - anchor < 15_000_000_000 ==> r is None && after.reminder_anchor == Some(
                    anchor,
                )
                &&& now - anchor >= 15_000_000_000 ==> {
                    &&& after.reminder_anchor == Some(now)
                    &&& before.pending.len() > 0 ==> r == Some(Reminder::StillLoading)
                    &&& before.pending.len() == 0 ==> r == Some(Reminder::StillReloading)
                }
            })
            &&& after == (RegistryView { reminder_anchor: after.reminder_anchor, ..before })
        }),
{
}

/// The reminder that is announced is the one that is due.
pub proof fn law_due_reminder_is_announced(
    registry: &mut ParseRegistry,
    now: u64,
    r: Option<String>,
)
    requires
        call_ensures(ParseRegistry::due_reminder, (registry, now), r),
    ensures
        ({
            let before = old(registry)@;
            let busy = before.pending.len() > 0 || before.jobs_left > 0;
            let due = busy && (before.reminder_anchor matches Some(anchor) && now - anchor
                >= 15_000_000_000);
            &&& r is Some <==> due
            &&& r matches Some(message) ==> {
                &&& before.pending.len() > 0 ==> locale::translation_answer(
                    "Still loading…"@,
                    message@,
                )
                &&& before.pending.len() == 0 ==> locale::translation_answer(
                    "Still reloading…"@,
                    message@,
                )
                &&& final(registry)@.reminder_anchor == Some(now)
            }
        }),
{
}

/// The limits of the counters, and whether a result can be recorded.
pub proof fn law_limits(registry: ParseRegistry, within: bool, generation: u64, expected: bool)
    requires
        call_ensures(ParseRegistry::within_limits, (&registry,), within),
        call_ensures(ParseRegistry::expects_result, (&registry, generation), expected),
    ensures
        within <==> registry@.next_seq < u64::MAX && registry@.generation < u64::MAX
            && registry@.restore_failed < usize::MAX,
        generation != registry@.generation ==> expected,
        generation == registry@.generation ==> (expected <==> registry@.jobs_left > 0),
{
}

} // verus!
