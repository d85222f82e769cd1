//! Retries: transient failures within the attempt limit end in `Synced`,
//! failures beyond it in `Conflicted`, and the entry never vanishes.

use vstd::prelude::*;
use crate::indexer::entry::{EntryView, SyncStatus};
use crate::indexer::model::{index_wf, lemma_transit_at, lookup, Transition};
use crate::synchronizer::{
    backoff, complete_index, complete_step, RemoteOutcome, SyncPolicy, SyncStepView, SyncTaskView,
};

verus! {

/// The task after `failures` more tries.
pub open spec fn retried(task: SyncTaskView, failures: nat) -> SyncTaskView {
    SyncTaskView { attempt: (task.attempt + failures) as u32, ..task }
}

/// The index after `failures` transient failures of `task` in a row, each
/// reported for the try that the one before it asked for.
pub open spec fn after_failures(
    entries: Seq<EntryView>,
    policy: SyncPolicy,
    task: SyncTaskView,
    failures: nat,
) -> Seq<EntryView>
    decreases failures,
{
    if failures == 0 {
        entries
    } else {
        complete_index(
            after_failures(entries, policy, task, (failures - 1) as nat),
            policy,
            retried(task, (failures - 1) as nat),
            RemoteOutcome::Transient,
        )
    }
}

/// Whether a task is in flight for the path of `task` and no newer change
/// has overtaken it.
pub open spec fn runs_undisturbed(entries: Seq<EntryView>, task: SyncTaskView) -> bool {
    lookup(entries, task.path) matches Some(entry) && entry.status == SyncStatus::Pending
        && !entry.superseded
}

/// Transient failures within the attempt limit change nothing in the
/// index, and each asks for the next try after the backoff delay.
pub proof fn law_transient_failures_retry(
    entries: Seq<EntryView>,
    policy: SyncPolicy,
    task: SyncTaskView,
    failures: nat,
)
    requires
        index_wf(entries),
        runs_undisturbed(entries, task),
        task.attempt + failures <= policy.max_attempts,
    ensures
        after_failures(entries, policy, task, failures) == entries,
        forall|earlier: nat|
            earlier < failures ==> #[trigger] complete_step(
                entries,
                policy,
                retried(task, earlier),
                RemoteOutcome::Transient,
            ) == (SyncStepView::Retry {
                task: retried(task, earlier + 1),
                delay_ms: backoff(policy, retried(task, earlier).attempt) as u64,
            }),
    decreases failures,
{
    if failures > 0 {
        law_transient_failures_retry(entries, policy, task, (failures - 1) as nat);
    }
}

/// A transient failure followed by success within the attempt limit ends
/// in `Synced`: after any number of transient failures that the limit
/// allows, a success leaves the entry `Synced` under the identifier the
/// remote gave. Where the entry was marked for deletion, the success
/// confirms the deletion and the entry leaves the index.
pub proof fn law_success_after_retries(
    entries: Seq<EntryView>,
    policy: SyncPolicy,
    task: SyncTaskView,
    failures: nat,
    remote_id: u64,
)
    requires
        index_wf(entries),
        runs_undisturbed(entries, task),
        task.attempt + failures <= policy.max_attempts,
    ensures
        ({
            let entry = lookup(entries, task.path)->0;
            let after = complete_index(
                after_failures(entries, policy, task, failures),
                policy,
                retried(task, failures),
                RemoteOutcome::Success { remote_id },
            );
            &&& !entry.deleted ==> lookup(after, task.path) == Some(
                EntryView {
                    status: SyncStatus::Synced,
                    remote_id: Some(remote_id),
                    placeholder: false,
                    ..entry
                },
            )
            &&& entry.deleted ==> lookup(after, task.path) is None
            &&& complete_step(
                after_failures(entries, policy, task, failures),
                policy,
                retried(task, failures),
                RemoteOutcome::Success { remote_id },
            ) == SyncStepView::Done
        }),
{
    law_transient_failures_retry(entries, policy, task, failures);
    let entry = lookup(entries, task.path)->0;
    if entry.deleted {
        lemma_transit_at(entries, task.path, Transition::Purged);
    } else {
        lemma_transit_at(entries, task.path, Transition::Synced { remote_id });
    }
}

/// Exhausting the attempt limit ends in `Conflicted`, never in the entry
/// vanishing: a transient failure of a try at or beyond the limit leaves
/// the entry in the index, unchanged but for its status.
pub proof fn law_exhausted_retries_conflict(
    entries: Seq<EntryView>,
    policy: SyncPolicy,
    task: SyncTaskView,
)
    requires
        index_wf(entries),
        runs_undisturbed(entries, task),
        task.attempt >= policy.max_attempts,
    ensures
        lookup(complete_index(entries, policy, task, RemoteOutcome::Transient), task.path) == Some(
            EntryView { status: SyncStatus::Conflicted, ..lookup(entries, task.path)->0 },
        ),
        complete_step(entries, policy, task, RemoteOutcome::Transient) == SyncStepView::Done,
{
    lemma_transit_at(entries, task.path, Transition::Conflicted);
}

/// A task that fails transiently at every try, from the first on, leaves
/// its entry `Conflicted` once the attempt limit is used up.
pub proof fn law_budget_ends_in_conflict(
    entries: Seq<EntryView>,
    policy: SyncPolicy,
    task: SyncTaskView,
)
    requires
        index_wf(entries),
        runs_undisturbed(entries, task),
        task.attempt == 1,
        policy.max_attempts >= 1,
    ensures
        lookup(after_failures(entries, policy, task, policy.max_attempts as nat), task.path)
            == Some(EntryView { status: SyncStatus::Conflicted, ..lookup(entries, task.path)->0 }),
{
    let spared = (policy.max_attempts - 1) as nat;
    law_transient_failures_retry(entries, policy, task, spared);
    law_exhausted_retries_conflict(entries, policy, retried(task, spared));
}

/// A rejection is never retried: it leaves the entry `Conflicted` at once.
pub proof fn law_rejection_conflicts(
    entries: Seq<EntryView>,
    policy: SyncPolicy,
    task: SyncTaskView,
)
    requires
        index_wf(entries),
        runs_undisturbed(entries, task),
    ensures
        lookup(complete_index(entries, policy, task, RemoteOutcome::Rejected), task.path) == Some(
            EntryView { status: SyncStatus::Conflicted, ..lookup(entries, task.path)->0 },
        ),
        complete_step(entries, policy, task, RemoteOutcome::Rejected) == SyncStepView::Done,
{
    lemma_transit_at(entries, task.path, Transition::Conflicted);
}

} // verus!
