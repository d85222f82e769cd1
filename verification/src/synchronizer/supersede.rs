//! Latest wins: a change that arrives while a task is in flight sends the
//! entry back to `Unsynced` when the task is over, whatever its outcome.

use vstd::prelude::*;
use crate::indexer::convergence::{law_index_converges, settled_content};
use crate::indexer::entry::{EntryView, Fingerprint, SyncStatus};
use crate::indexer::event::{last_observation, ChangeEventView};
use crate::indexer::model::{
    apply_events, content_at, in_flight, index_wf, lemma_apply_events_wf, lemma_events_tasks,
    lemma_observe, lemma_observe_tasks, lemma_transit_at, lookup, observe, overtaken,
};
use crate::synchronizer::{
    complete_index, complete_step, verdict, RemoteOutcome, SyncPolicy, SyncStepView, SyncTaskView,
};

verus! {

/// The outcome of an overtaken task releases its entry: the entry is
/// `Unsynced` again with the content it had, and the task is over.
pub proof fn law_overtaken_task_releases(
    entries: Seq<EntryView>,
    policy: SyncPolicy,
    task: SyncTaskView,
    outcome: RemoteOutcome,
)
    requires
        index_wf(entries),
        overtaken(entries, task.path),
    ensures
        lookup(complete_index(entries, policy, task, outcome), task.path) matches Some(entry)
            && entry.status == SyncStatus::Unsynced && !entry.superseded,
        content_at(complete_index(entries, policy, task, outcome), task.path) == content_at(
            entries,
            task.path,
        ),
        complete_step(entries, policy, task, outcome) == SyncStepView::Done,
{
    let entry = lookup(entries, task.path)->0;
    let transition = verdict(entry, task, outcome, policy)->0;
    assert(transition is Released);
    lemma_transit_at(entries, task.path, transition);
}

/// A newer local change that arrives while a task for the same path is in
/// flight wins: once the task is over, with whatever outcome and whatever
/// further events came in the meantime, the entry is `Unsynced` and holds
/// the newest content. It is never left `Synced` on the strength of the
/// stale task.
pub proof fn law_newer_change_wins(
    entries: Seq<EntryView>,
    policy: SyncPolicy,
    task: SyncTaskView,
    content: Option<Fingerprint>,
    later: Seq<ChangeEventView>,
    outcome: RemoteOutcome,
)
    requires
        index_wf(entries),
        in_flight(entries, task.path),
        content_at(entries, task.path) != content,
    ensures
        ({
            let changed = apply_events(observe(entries, task.path, content), later);
            let after = complete_index(changed, policy, task, outcome);
            &&& lookup(after, task.path) matches Some(entry) && entry.status
                == SyncStatus::Unsynced
            &&& content_at(after, task.path) == settled_content(
                content,
                last_observation(later, task.path),
            )
            &&& complete_step(changed, policy, task, outcome) == SyncStepView::Done
        }),
{
    let first = observe(entries, task.path, content);
    lemma_observe(entries, task.path, content);
    lemma_observe_tasks(entries, task.path, content, task.path);
    let changed = apply_events(first, later);
    lemma_apply_events_wf(first, later);
    lemma_events_tasks(first, later, task.path);
    law_index_converges(first, later, task.path);
    law_overtaken_task_releases(changed, policy, task, outcome);
}

} // verus!
