//! Serialization: at no time do two tasks run for the same path.

use vstd::prelude::*;
use crate::indexer::entry::{EntryView, SyncStatus};
use crate::indexer::event::ChangeEventView;
use crate::indexer::model::{
    apply_event, first_unsynced, first_unsynced_at, has_unsynced, in_flight, index_wf,
    lemma_apply_event_wf, lemma_event_tasks, lemma_slot, lemma_transit, lemma_transit_at, lookup,
    Transition,
};
use crate::indexer::reconcile::{
    lemma_reconcile_tasks, lemma_reconcile_wf, reconcile, LocalFileView, RemoteEntryView,
    RemoteOnlyPolicy,
};
use crate::synchronizer::{
    complete_index, complete_step, poll_answer, poll_index, verdict, PollView, RemoteOutcome,
    SyncPolicy, SyncStepView, SyncTaskView,
};

verus! {

/// One thing that happens to the index while the daemon runs.
pub enum Step {
    /// The watcher delivers an event.
    Event(ChangeEventView),
    /// The index is reconciled against two listings.
    Reconcile { local: Seq<LocalFileView>, remote: Seq<RemoteEntryView>, policy: RemoteOnlyPolicy },
    /// The synchronizer polls for work.
    Poll,
    /// The outcome of a task is reported.
    Outcome { task: SyncTaskView, outcome: RemoteOutcome },
}

/// The index after one step.
pub open spec fn step_index(entries: Seq<EntryView>, limits: SyncPolicy, step: Step) -> Seq<
    EntryView,
> {
    match step {
        Step::Event(event) => apply_event(entries, event),
        Step::Reconcile { local, remote, policy } => reconcile(entries, local, remote, policy),
        Step::Poll => poll_index(entries, limits),
        Step::Outcome { task, outcome } => complete_index(entries, limits, task, outcome),
    }
}

/// The index after a run of steps.
pub open spec fn run(entries: Seq<EntryView>, limits: SyncPolicy, steps: Seq<Step>) -> Seq<
    EntryView,
>
    decreases steps.len(),
{
    if steps.len() == 0 {
        entries
    } else {
        step_index(run(entries, limits, steps.drop_last()), limits, steps.last())
    }
}

/// Whether a step starts a task for `path`: a poll that answers with a
/// task for it.
pub open spec fn starts(entries: Seq<EntryView>, limits: SyncPolicy, step: Step, path: Seq<u8>) -> bool {
    step is Poll && (poll_answer(entries, limits) matches PollView::Run(task) && task.path == path)
}

/// Whether a step ends the task that runs for `path`: an outcome reported
/// for it that asks for no retry.
pub open spec fn ends(entries: Seq<EntryView>, limits: SyncPolicy, step: Step, path: Seq<u8>) -> bool {
    step matches Step::Outcome { task, outcome } && task.path == path && in_flight(entries, path)
        && complete_step(entries, limits, task, outcome) == SyncStepView::Done
}

/// How many tasks for `path` a run of steps has started and not ended.
pub open spec fn running(
    entries: Seq<EntryView>,
    limits: SyncPolicy,
    steps: Seq<Step>,
    path: Seq<u8>,
) -> int
    decreases steps.len(),
{
    if steps.len() == 0 {
        0
    } else {
        let before = run(entries, limits, steps.drop_last());
        let earlier = running(entries, limits, steps.drop_last(), path);
        if starts(before, limits, steps.last(), path) {
            earlier + 1
        } else if ends(before, limits, steps.last(), path) {
            earlier - 1
        } else {
            earlier
        }
    }
}

/// One step keeps the index valid.
pub proof fn lemma_step_wf(entries: Seq<EntryView>, limits: SyncPolicy, step: Step)
    requires
        index_wf(entries),
    ensures
        index_wf(step_index(entries, limits, step)),
{
    match step {
        Step::Event(event) => {
            lemma_apply_event_wf(entries, event);
        },
        Step::Reconcile { local, remote, policy } => {
            lemma_reconcile_wf(entries, local, remote, policy);
        },
        Step::Poll => {
            match poll_answer(entries, limits) {
                PollView::Run(task) => {
                    lemma_transit(entries, task.path, Transition::Start);
                },
                PollView::Dropped(path) => {
                    lemma_transit(entries, path, Transition::Purged);
                },
                _ => {},
            }
        },
        Step::Outcome { task, outcome } => {
            match lookup(entries, task.path) {
                Some(entry) => {
                    match verdict(entry, task, outcome, limits) {
                        Some(transition) => {
                            lemma_transit(entries, task.path, transition);
                        },
                        None => {},
                    }
                },
                None => {},
            }
        },
    }
}

/// One step moves the count of running tasks with the index: a task is in
/// flight for a path afterwards exactly if it was and the step did not end
/// it, or the step started it; and no step starts a task for a path that
/// has one in flight.
pub proof fn lemma_step_tasks(
    entries: Seq<EntryView>,
    limits: SyncPolicy,
    step: Step,
    path: Seq<u8>,
)
    requires
        index_wf(entries),
    ensures
        starts(entries, limits, step, path) ==> !in_flight(entries, path),
        in_flight(step_index(entries, limits, step), path) == (starts(entries, limits, step, path)
            || (in_flight(entries, path) && !ends(entries, limits, step, path))),
{
    match step {
        Step::Event(event) => {
            lemma_event_tasks(entries, event, path);
        },
        Step::Reconcile { local, remote, policy } => {
            lemma_reconcile_tasks(entries, local, remote, policy, path);
        },
        Step::Poll => {
            if has_unsynced(entries) {
                let i = first_unsynced(entries);
                assert(first_unsynced_at(entries, i));
                lemma_slot(entries, i);
                match poll_answer(entries, limits) {
                    PollView::Run(task) => {
                        lemma_transit(entries, task.path, Transition::Start);
                        lemma_transit_at(entries, task.path, Transition::Start);
                    },
                    PollView::Dropped(dropped) => {
                        lemma_transit(entries, dropped, Transition::Purged);
                        lemma_transit_at(entries, dropped, Transition::Purged);
                    },
                    _ => {},
                }
            }
        },
        Step::Outcome { task, outcome } => {
            match lookup(entries, task.path) {
                Some(entry) => {
                    if entry.status == SyncStatus::Pending {
                        match verdict(entry, task, outcome, limits) {
                            Some(transition) => {
                                lemma_transit(entries, task.path, transition);
                                lemma_transit_at(entries, task.path, transition);
                            },
                            None => {},
                        }
                    }
                },
                None => {},
            }
        },
    }
}

/// A run of steps keeps the index valid.
pub proof fn lemma_run_wf(entries: Seq<EntryView>, limits: SyncPolicy, steps: Seq<Step>)
    requires
        index_wf(entries),
    ensures
        index_wf(run(entries, limits, steps)),
    decreases steps.len(),
{
    if steps.len() > 0 {
        lemma_run_wf(entries, limits, steps.drop_last());
        lemma_step_wf(run(entries, limits, steps.drop_last()), limits, steps.last());
    }
}

/// No two tasks for the same path run at once. From an index with no task
/// in flight for `path`, whatever events, reconciliations, polls and
/// outcomes follow, at most one task for the path is started and not yet
/// ended: exactly one while the entry is `Pending`, none otherwise. A poll
/// never starts a task for a path that has one.
pub proof fn law_one_task_per_path(
    entries: Seq<EntryView>,
    limits: SyncPolicy,
    steps: Seq<Step>,
    path: Seq<u8>,
)
    requires
        index_wf(entries),
        !in_flight(entries, path),
    ensures
        0 <= running(entries, limits, steps, path) <= 1,
        running(entries, limits, steps, path) == 1 <==> in_flight(
            run(entries, limits, steps),
            path,
        ),
        in_flight(run(entries, limits, steps), path) ==> !starts(
            run(entries, limits, steps),
            limits,
            Step::Poll,
            path,
        ),
    decreases steps.len(),
{
    lemma_run_wf(entries, limits, steps);
    lemma_step_tasks(run(entries, limits, steps), limits, Step::Poll, path);
    if steps.len() > 0 {
        law_one_task_per_path(entries, limits, steps.drop_last(), path);
        lemma_run_wf(entries, limits, steps.drop_last());
        lemma_step_tasks(run(entries, limits, steps.drop_last()), limits, steps.last(), path);
    }
}

} // verus!
