//! Parsing the open documents again after the setting for tables changed.

use vstd::prelude::*;
use crate::locale;
use crate::locale::t;
use crate::parse_registry::{ParseRegistry, RegistryView, ReparseJobOutcome};

verus! {

/// What a change of the setting leads to.
pub enum Reparse {
    /// No document is open. An older batch may have been superseded, so the status must be shown
    /// anew.
    NothingOpen,
    /// Announce and show the message, and parse every open document again.
    Started { generation: u64, message: String },
}

/// Starts a batch that parses the `open` documents again.
pub fn begin_reparse(open: usize, registry: &mut ParseRegistry) -> (r: Reparse)
    requires
        old(registry).wf(),
        old(registry)@.generation < u64::MAX,
    ensures
        final(registry).wf(),
        final(registry)@ == old(registry)@.batch_started(open),
        match r {
            Reparse::NothingOpen => open == 0,
            Reparse::Started { generation, message } => {
                &&& open > 0
                &&& generation == old(registry)@.generation + 1
                &&& locale::translation_answer("Reloading documents…"@, message@)
            },
        },
{
    let generation = registry.begin_reparse_batch(open);
    if open == 0 {
        // An empty batch supersedes an older one without ever finishing.
        return Reparse::NothingOpen;
    }
    Reparse::Started { generation, message: t("Reloading documents…") }
}

/// What the result of one parse leads to.
pub enum Reparsed {
    /// The result belongs to an older change of the setting; it is discarded.
    Discarded,
    /// The result was recorded.
    Recorded {
        /// Whether the tab gets the new session; after a failure it keeps the old one.
        replace: bool,
        /// Set if the batch is finished: update the window and announce this.
        announcement: Option<String>,
    },
}

/// The message at the end of a batch.
pub open spec fn reloaded_text(failed: usize) -> Seq<char> {
    if failed == 0 {
        "Documents reloaded."@
    } else {
        "Document reload complete."@
    }
}

/// The message at the end of a batch in which `failed` documents failed: success is announced only if
/// there was no failure.
pub fn reloaded_message(failed: usize) -> (r: &'static str)
    ensures
        r@ == reloaded_text(failed),
{
    if failed == 0 {
        "Documents reloaded."
    } else {
        "Document reload complete."
    }
}

/// Recording a result of batch `generation` leads to `next`.
pub open spec fn records(
    generation: u64,
    failed: bool,
    registry: RegistryView,
    next: Reparsed,
) -> bool {
    match (registry.job_outcome(generation, failed), next) {
        (ReparseJobOutcome::Superseded, Reparsed::Discarded) => true,
        (ReparseJobOutcome::BatchInFlight, Reparsed::Recorded { replace, announcement }) => {
            replace == !failed && announcement is None
        },
        (
            ReparseJobOutcome::BatchFinished { failed: failures },
            Reparsed::Recorded { replace, announcement },
        ) => {
            &&& replace == !failed
            &&& announcement matches Some(message)
            &&& locale::translation_answer(reloaded_text(failures), message@)
        },
        _ => false,
    }
}

/// Takes in the result of one parse of batch `generation`.
pub fn finish_reparse(generation: u64, failed: bool, registry: &mut ParseRegistry) -> (r: Reparsed)
    requires
        old(registry).wf(),
        generation == old(registry)@.generation ==> old(registry)@.jobs_left > 0,
    ensures
        final(registry).wf(),
        final(registry)@ == old(registry)@.job_done(generation, failed),
        records(generation, failed, old(registry)@, r),
{
    match registry.reparse_job_done(generation, failed) {
        ReparseJobOutcome::Superseded => Reparsed::Discarded,
        ReparseJobOutcome::BatchInFlight => Reparsed::Recorded {
            replace: !failed,
            announcement: None,
        },
        ReparseJobOutcome::BatchFinished { failed: failures } => Reparsed::Recorded {
            replace: !failed,
            announcement: Some(t(reloaded_message(failures))),
        },
    }
}

/// A change of the setting starts a batch of its own for the open documents, which supersedes an older
/// one; without an open document nothing is parsed or announced.
pub proof fn law_every_change_starts_a_batch(
    open: usize,
    registry: &mut ParseRegistry,
    r: Reparse,
)
    requires
        old(registry)@.generation < u64::MAX,
        call_ensures(begin_reparse, (open, registry), r),
    ensures
        final(registry)@.generation == old(registry)@.generation + 1,
        final(registry)@.jobs_left == open,
        final(registry)@.jobs_failed == 0,
        final(registry)@.pending == old(registry)@.pending,
        open == 0 ==> r is NothingOpen,
        open > 0 ==> (r matches Reparse::Started { generation, message } && generation == final(
            registry)@.generation && locale::translation_answer(
            "Reloading documents…"@,
            message@,
        )),
{
}

/// A tab gets the new session exactly if its parse succeeded and belongs to the current batch. The end of
/// the batch is announced with its last result, as complete success only if none failed.
pub proof fn law_results_replace_the_sessions(
    generation: u64,
    failed: bool,
    registry: &mut ParseRegistry,
    r: Reparsed,
)
    requires
        old(registry).wf(),
        generation == old(registry)@.generation ==> old(registry)@.jobs_left > 0,
        call_ensures(finish_reparse, (generation, failed, registry), r),
    ensures
        generation != old(registry)@.generation ==> r is Discarded && final(registry)@ == old(
            registry)@,
        generation == old(registry)@.generation ==> {
            let left = old(registry)@.jobs_left;
            let failures = old(registry)@.jobs_failed + if failed {
                1int
            } else {
                0
            };
            &&& r matches Reparsed::Recorded { replace, announcement }
            &&& replace == !failed
            &&& final(registry)@.jobs_left == left - 1
            &&& final(registry)@.jobs_failed == failures
            &&& left > 1 ==> announcement is None
            &&& left == 1 && failures == 0 ==> (announcement matches Some(message)
                && locale::translation_answer("Documents reloaded."@, message@))
            &&& left == 1 && failures > 0 ==> (announcement matches Some(message)
                && locale::translation_answer("Document reload complete."@, message@))
        },
{
}

/// The message at the end of a batch claims success only if nothing failed.
pub proof fn law_reload_message(failed: usize, message: &'static str)
    requires
        call_ensures(reloaded_message, (failed,), message),
    ensures
        failed == 0 ==> message@ == "Documents reloaded."@,
        failed > 0 ==> message@ == "Document reload complete."@,
{
}

} // verus!
