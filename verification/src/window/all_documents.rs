//! The list of all documents, in which documents can be closed, removed and opened.

use vstd::prelude::*;
use crate::locale;
use crate::locale::t;

verus! {

/// A step that follows from what the user did in the list.
pub enum ListStep {
    /// Close the document at this path, if it is open. It can be reopened from then on.
    Close(String),
    /// Make sure that the documents at these paths cannot be reopened.
    Forget(Vec<String>),
    /// Show the title of the document that is active now, and give it the focus.
    Refresh,
    /// Open the document at this path.
    Open(String),
    /// Build the menus anew.
    RebuildMenu,
}

/// What is announced in place of the list, in the language that is active, if there is nothing to list.
pub fn empty_list_message(has_documents: bool) -> (r: Option<String>)
    ensures
        r is None == has_documents,
        r matches Some(message) ==> locale::translation_answer("No recent documents."@, message@),
{
    if has_documents {
        None
    } else {
        Some(t("No recent documents."))
    }
}

/// Closing the documents at these paths, in order.
pub open spec fn closing(paths: Seq<String>) -> Seq<ListStep> {
    Seq::new(paths.len(), |i: int| ListStep::Close(paths[i]))
}

/// The steps after the user closed and removed documents in the list and picked one to open.
pub open spec fn steps_after_list(
    paths_to_close: Seq<String>,
    paths_removed: Vec<String>,
    open: Option<String>,
) -> Seq<ListStep> {
    let refresh = if paths_to_close.len() > 0 {
        seq![ListStep::Refresh]
    } else {
        Seq::empty()
    };
    let opening = match open {
        Some(path) => seq![ListStep::Open(path)],
        None => Seq::empty(),
    };
    closing(paths_to_close).push(ListStep::Forget(paths_removed)) + refresh + opening
        + seq![ListStep::RebuildMenu]
}

/// What to do after the user closed and removed documents in the list and picked one to open.
pub fn plan_list(
    paths_to_close: Vec<String>,
    paths_removed: Vec<String>,
    open: Option<String>,
) -> (steps: Vec<ListStep>)
    ensures
        steps@ == steps_after_list(paths_to_close@, paths_removed, open),
{
    let mut steps: Vec<ListStep> = Vec::new();
    let mut i: usize = 0;
    while i < paths_to_close.len()
        invariant
            i <= paths_to_close.len(),
            steps@ == closing(paths_to_close@.take(i as int)),
        decreases paths_to_close.len() - i,
    {
        steps.push(ListStep::Close(paths_to_close[i].clone()));
        i += 1;
    }
    proof {
        assert(paths_to_close@.take(i as int) =~= paths_to_close@);
    }
    steps.push(ListStep::Forget(paths_removed));
    if paths_to_close.len() > 0 {
        steps.push(ListStep::Refresh);
    }
    if let Some(path) = open {
        steps.push(ListStep::Open(path));
    }
    steps.push(ListStep::RebuildMenu);
    steps
}

/// The documents that can be reopened after these steps: at most those that were closed, but for the
/// forgotten ones.
pub open spec fn reopenable(before: Set<Seq<char>>, steps: Seq<ListStep>) -> Set<Seq<char>>
    decreases steps.len(),
{
    if steps.len() == 0 {
        before
    } else {
        let earlier = reopenable(before, steps.drop_last());
        match steps.last() {
            ListStep::Close(path) => earlier.insert(path@),
            ListStep::Forget(paths) => earlier.filter(|path: Seq<char>| !names(paths@, path)),
            _ => earlier,
        }
    }
}

/// One of `paths` is `path`.
pub open spec fn names(paths: Seq<String>, path: Seq<char>) -> bool {
    exists|i: int| 0 <= i < paths.len() && (#[trigger] paths[i])@ == path
}

/// A document that was removed in the list cannot be reopened, even if the same list closed it.
pub proof fn law_removed_documents_are_not_reopenable(
    before: Set<Seq<char>>,
    paths_to_close: Seq<String>,
    paths_removed: Vec<String>,
    open: Option<String>,
    path: Seq<char>,
)
    requires
        names(paths_removed@, path),
    ensures
        !reopenable(before, steps_after_list(paths_to_close, paths_removed, open)).contains(path),
{
    let forgotten = closing(paths_to_close).push(ListStep::Forget(paths_removed));
    assert(forgotten.drop_last() =~= closing(paths_to_close));
    lemma_later_steps_close_nothing(before, paths_to_close, paths_removed, open);
}

proof fn lemma_later_steps_close_nothing(
    before: Set<Seq<char>>,
    paths_to_close: Seq<String>,
    paths_removed: Vec<String>,
    open: Option<String>,
)
    ensures
        reopenable(before, steps_after_list(paths_to_close, paths_removed, open)) == reopenable(
            before,
            closing(paths_to_close).push(ListStep::Forget(paths_removed)),
        ),
{
    let forgotten = closing(paths_to_close).push(ListStep::Forget(paths_removed));
    let refreshed = if paths_to_close.len() > 0 {
        forgotten.push(ListStep::Refresh)
    } else {
        forgotten
    };
    let opened = match open {
        Some(path) => refreshed.push(ListStep::Open(path)),
        None => refreshed,
    };
    let all = opened.push(ListStep::RebuildMenu);
    assert(steps_after_list(paths_to_close, paths_removed, open) =~= all);
    assert(all.drop_last() =~= opened);
    assert(reopenable(before, all) == reopenable(before, opened));
    if open is Some {
        assert(opened.drop_last() =~= refreshed);
    }
    assert(reopenable(before, opened) == reopenable(before, refreshed));
    if paths_to_close.len() > 0 {
        assert(refreshed.drop_last() =~= forgotten);
    }
}

/// After the list, the documents that were closed in it are closed, in that order; then the removed ones
/// are forgotten; then the window is refreshed if something was closed; then the document that was picked
/// is opened; and last the menus are built anew.
pub proof fn law_list_is_carried_out_in_order(
    paths_to_close: Vec<String>,
    paths_removed: Vec<String>,
    open: Option<String>,
    steps: Vec<ListStep>,
    k: int,
)
    requires
        call_ensures(plan_list, (paths_to_close, paths_removed, open), steps),
    ensures
        ({
            let n = paths_to_close@.len() as int;
            let refreshes: int = if n > 0 {
                1
            } else {
                0
            };
            let opens: int = if open is Some {
                1
            } else {
                0
            };
            &&& steps@.len() == n + 1 + refreshes + opens + 1
            &&& 0 <= k < n ==> steps@[k] == ListStep::Close(paths_to_close@[k])
            &&& steps@[n] == ListStep::Forget(paths_removed)
            &&& n > 0 ==> steps@[n + 1] is Refresh
            &&& open matches Some(path) ==> steps@[n + 1 + refreshes] == ListStep::Open(path)
            &&& steps@[steps@.len() - 1] is RebuildMenu
        }),
{
}

/// The list is shown if there is something to list, and otherwise it is announced that there is nothing.
pub proof fn law_empty_list_is_announced(has_documents: bool, r: Option<String>)
    requires
        call_ensures(empty_list_message, (has_documents,), r),
    ensures
        has_documents ==> r is None,
        !has_documents ==> (r matches Some(message) && locale::translation_answer(
            "No recent documents."@,
            message@,
        )),
{
}

} // verus!
