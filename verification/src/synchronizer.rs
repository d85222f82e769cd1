//! The synchronizer: turns waiting entries into remote operations and
//! remote outcomes into status transitions.
//!
//! The remote calls themselves are made by the caller. This module decides
//! what to run next and what an outcome means.

use vstd::prelude::*;

pub mod retry;
pub mod serial;
pub mod supersede;

use crate::indexer::entry::{EntryView, Fingerprint, SyncStatus};
use crate::indexer::index::Indexer;
use crate::indexer::model::{
    count_pending, first_unsynced, first_unsynced_at, has_unsynced, lemma_slot, lookup, transit,
    Transition,
};

verus! {

/// The remote operation a task performs.
#[derive(Clone, Copy, Debug, PartialEq, Eq)]
pub enum Operation {
    /// Create the remote object from the local content.
    Create,
    /// Replace the content of a remote object.
    Update { remote_id: u64 },
    /// Delete a remote object.
    Delete { remote_id: u64 },
    /// Fetch a remote object that has no local file yet.
    Download { remote_id: u64 },
}

/// One unit of work, derived from one waiting entry.
#[derive(Debug, PartialEq, Eq)]
pub struct SyncTask {
    pub operation: Operation,
    pub path: Vec<u8>,
    /// The fingerprint that the task synchronizes.
    pub fingerprint: Fingerprint,
    /// Which try this is, counted from 1.
    pub attempt: u32,
}

/// Mathematical value of a [`SyncTask`].
pub struct SyncTaskView {
    pub operation: Operation,
    pub path: Seq<u8>,
    pub fingerprint: Fingerprint,
    pub attempt: u32,
}

impl View for SyncTask {
    type V = SyncTaskView;

    open spec fn view(&self) -> SyncTaskView {
        SyncTaskView {
            operation: self.operation,
            path: self.path@,
            fingerprint: self.fingerprint,
            attempt: self.attempt,
        }
    }
}

/// How a remote call ended.
#[derive(Clone, Copy, Debug, PartialEq, Eq)]
pub enum RemoteOutcome {
    /// The remote performed the operation; `remote_id` names the object.
    Success { remote_id: u64 },
    /// Network trouble or a timeout: worth another try.
    Transient,
    /// The remote refused the operation as invalid.
    Rejected,
}

/// What the synchronizer loop does next.
#[derive(Debug, PartialEq, Eq)]
pub enum Poll {
    /// Nothing can start now.
    Idle,
    /// A task is due: the caller runs it against the remote.
    Run(SyncTask),
    /// The entry for this path left the index without a remote call.
    Dropped(Vec<u8>),
    /// The synchronizer was asked to stop and takes no new work.
    Stopped,
}

/// Mathematical value of a [`Poll`].
pub enum PollView {
    Idle,
    Run(SyncTaskView),
    Dropped(Seq<u8>),
    Stopped,
}

impl View for Poll {
    type V = PollView;

    open spec fn view(&self) -> PollView {
        match *self {
            Poll::Idle => PollView::Idle,
            Poll::Run(task) => PollView::Run(task@),
            Poll::Dropped(path) => PollView::Dropped(path@),
            Poll::Stopped => PollView::Stopped,
        }
    }
}

/// What follows an outcome.
#[derive(Debug, PartialEq, Eq)]
pub enum SyncStep {
    /// The task is over.
    Done,
    /// Run `task` again once `delay_ms` milliseconds have passed.
    Retry { task: SyncTask, delay_ms: u64 },
}

/// Mathematical value of a [`SyncStep`].
pub enum SyncStepView {
    Done,
    Retry { task: SyncTaskView, delay_ms: u64 },
}

impl View for SyncStep {
    type V = SyncStepView;

    open spec fn view(&self) -> SyncStepView {
        match *self {
            SyncStep::Done => SyncStepView::Done,
            SyncStep::Retry { task, delay_ms } => SyncStepView::Retry { task: task@, delay_ms },
        }
    }
}

/// Limits of the synchronizer.
#[derive(Clone, Copy, Debug, PartialEq, Eq)]
pub struct SyncPolicy {
    /// How many times a task is tried before its entry is `Conflicted`.
    pub max_attempts: u32,
    /// Delay before the second try, in milliseconds.
    pub base_delay_ms: u64,
    /// Upper bound of every delay, in milliseconds.
    pub max_delay_ms: u64,
    /// How many tasks may be in flight at once.
    pub fan_out: usize,
}

/// Two to the power `n`.
pub open spec fn pow2(n: nat) -> nat
    decreases n,
{
    if n == 0 {
        1
    } else {
        2 * pow2((n - 1) as nat)
    }
}

/// The delay after try number `attempt` failed: the base delay, doubled
/// for every earlier failure, and never more than the cap.
pub open spec fn backoff(policy: SyncPolicy, attempt: u32) -> int {
    let doublings = if attempt == 0 {
        0nat
    } else {
        (attempt - 1) as nat
    };
    let raw = policy.base_delay_ms * pow2(doublings);
    if raw < policy.max_delay_ms {
        raw
    } else {
        policy.max_delay_ms as int
    }
}

/// The operation that brings the remote in line with an entry.
pub open spec fn operation_for(entry: EntryView) -> Operation {
    match entry.remote_id {
        Some(remote_id) => if entry.deleted {
            Operation::Delete { remote_id }
        } else if entry.placeholder {
            Operation::Download { remote_id }
        } else {
            Operation::Update { remote_id }
        },
        None => Operation::Create,
    }
}

/// The first try of the task for an entry.
pub open spec fn task_for(entry: EntryView) -> SyncTaskView {
    SyncTaskView {
        operation: operation_for(entry),
        path: entry.path,
        fingerprint: entry.fingerprint,
        attempt: 1,
    }
}

/// What a poll answers: the first waiting entry, in index order, decides.
/// A deletion the remote never saw is dropped; otherwise its task starts
/// unless the fan-out is used up.
pub open spec fn poll_answer(entries: Seq<EntryView>, policy: SyncPolicy) -> PollView {
    if !has_unsynced(entries) {
        PollView::Idle
    } else {
        let entry = entries[first_unsynced(entries)];
        if entry.local_only_deletion() {
            PollView::Dropped(entry.path)
        } else if count_pending(entries) >= policy.fan_out {
            PollView::Idle
        } else {
            PollView::Run(task_for(entry))
        }
    }
}

/// The index after a poll.
pub open spec fn poll_index(entries: Seq<EntryView>, policy: SyncPolicy) -> Seq<EntryView> {
    match poll_answer(entries, policy) {
        PollView::Idle => entries,
        PollView::Stopped => entries,
        PollView::Run(task) => transit(entries, task.path, Transition::Start),
        PollView::Dropped(path) => transit(entries, path, Transition::Purged),
    }
}

/// The transition that an outcome earns an entry whose task was in flight,
/// or `None` where the task is to be tried again.
///
/// A superseded entry is released whatever the outcome: the task synced
/// content that is no longer current, so the entry waits again. Otherwise
/// success syncs the entry (or purges it, if it was marked for deletion), a
/// transient failure is retried within the attempt limit, and every other
/// failure is a conflict.
pub open spec fn verdict(
    entry: EntryView,
    task: SyncTaskView,
    outcome: RemoteOutcome,
    policy: SyncPolicy,
) -> Option<Transition> {
    if entry.superseded {
        Some(
            Transition::Released {
                remote: match outcome {
                    RemoteOutcome::Success { remote_id } => if task.operation is Delete {
                        None
                    } else {
                        Some(remote_id)
                    },
                    _ => entry.remote_id,
                },
            },
        )
    } else {
        match outcome {
            RemoteOutcome::Success { remote_id } => if entry.deleted {
                Some(Transition::Purged)
            } else {
                Some(Transition::Synced { remote_id })
            },
            RemoteOutcome::Transient => if task.attempt < policy.max_attempts {
                None
            } else {
                Some(Transition::Conflicted)
            },
            RemoteOutcome::Rejected => Some(Transition::Conflicted),
        }
    }
}

/// The index after the outcome of `task` was reported. An outcome for a
/// path with no task in flight changes nothing.
pub open spec fn complete_index(
    entries: Seq<EntryView>,
    policy: SyncPolicy,
    task: SyncTaskView,
    outcome: RemoteOutcome,
) -> Seq<EntryView> {
    match lookup(entries, task.path) {
        Some(entry) => if entry.status == SyncStatus::Pending {
            match verdict(entry, task, outcome, policy) {
                Some(transition) => transit(entries, task.path, transition),
                None => entries,
            }
        } else {
            entries
        },
        None => entries,
    }
}

/// What follows the outcome of `task`: a retry where the verdict is to try
/// again, the end of the task otherwise.
pub open spec fn complete_step(
    entries: Seq<EntryView>,
    policy: SyncPolicy,
    task: SyncTaskView,
    outcome: RemoteOutcome,
) -> SyncStepView {
    match lookup(entries, task.path) {
        Some(entry) => if entry.status == SyncStatus::Pending && verdict(
            entry,
            task,
            outcome,
            policy,
        ) is None {
            SyncStepView::Retry {
                task: SyncTaskView { attempt: (task.attempt + 1) as u32, ..task },
                delay_ms: backoff(policy, task.attempt) as u64,
            }
        } else {
            SyncStepView::Done
        },
        None => SyncStepView::Done,
    }
}

/// Doubling never shrinks a power of two.
pub proof fn lemma_pow2_grows(a: nat, b: nat)
    requires
        a <= b,
    ensures
        1 <= pow2(a) <= pow2(b),
    decreases b,
{
    if b == 0 {
    } else if a == b {
        lemma_pow2_grows((a - 1) as nat, (b - 1) as nat);
    } else {
        lemma_pow2_grows(a, (b - 1) as nat);
    }
}

/// The synchronizer: its limits and whether it was asked to stop.
pub struct Synchronizer {
    policy: SyncPolicy,
    stopping: bool,
}

impl Synchronizer {
    /// The limits this synchronizer works under.
    pub closed spec fn policy(&self) -> SyncPolicy {
        self.policy
    }

    /// Whether the synchronizer was asked to stop.
    pub closed spec fn stopping(&self) -> bool {
        self.stopping
    }

    /// A running synchronizer with the given limits.
    pub fn bootstrap(policy: SyncPolicy) -> (synchronizer: Self)
        ensures
            synchronizer.policy() == policy,
            !synchronizer.stopping(),
    {
        Synchronizer { policy, stopping: false }
    }

    /// Asks the synchronizer to take no new work. Tasks in flight may
    /// still report their outcomes.
    pub fn stop(&mut self)
        ensures
            final(self).stopping(),
            final(self).policy() == old(self).policy(),
    {
        self.stopping = true;
    }

    /// Whether the synchronizer was asked to stop.
    pub fn is_stopping(&self) -> (stopping: bool)
        ensures
            stopping == self.stopping(),
    {
        self.stopping
    }

    /// The delay after try number `attempt` failed, in milliseconds.
    pub fn delay_after(&self, attempt: u32) -> (delay_ms: u64)
        ensures
            delay_ms == backoff(self.policy(), attempt),
    {
        let base = self.policy.base_delay_ms;
        let cap = self.policy.max_delay_ms;
        let mut delay: u64 = if base < cap {
            base
        } else {
            cap
        };
        let mut tries: u32 = 1;
        proof {
            assert(pow2(0) == 1) by {
                reveal_with_fuel(pow2, 1);
            }
            assert(base * pow2(0) == base);
        }
        while tries < attempt && 0 < delay && delay < cap
            invariant
                1 <= tries,
                tries <= attempt || (attempt == 0 && tries == 1),
                base == self.policy.base_delay_ms,
                cap == self.policy.max_delay_ms,
                delay <= cap,
                delay < cap ==> delay == base * pow2((tries - 1) as nat),
                delay == cap ==> base * pow2((tries - 1) as nat) >= cap,
            decreases attempt - tries,
        {
            proof {
                let before = pow2((tries - 1) as nat);
                assert(pow2(tries as nat) == 2 * before) by {
                    reveal_with_fuel(pow2, 1);
                }
                assert(base * (2 * before) == 2 * (base * before)) by (nonlinear_arith);
            }
            delay = if delay > cap - delay {
                cap
            } else {
                delay * 2
            };
            tries += 1;
        }
        proof {
            let doublings = if attempt == 0 {
                0nat
            } else {
                (attempt - 1) as nat
            };
            let reached = (tries - 1) as nat;
            if attempt == 0 {
                assert(reached == 0);
            }
            if reached != doublings {
                // The loop stopped early: the delay is stuck at zero or at the cap.
                lemma_pow2_grows(reached, doublings);
                if delay == 0 && delay < cap {
                    assert(base * pow2(reached) == 0);
                    assert(base == 0) by (nonlinear_arith)
                        requires
                            base * pow2(reached) == 0,
                            pow2(reached) >= 1,
                            base >= 0,
                    ;
                    assert(base * pow2(doublings) == 0) by (nonlinear_arith)
                        requires
                            base == 0,
                    ;
                } else {
                    assert(delay == cap);
                    assert(base * pow2(doublings) >= cap) by (nonlinear_arith)
                        requires
                            base * pow2(reached) >= cap,
                            pow2(reached) <= pow2(doublings),
                            base >= 0,
                    ;
                }
            }
        }
        delay
    }

    /// Picks what to do next. The first waiting entry decides: see
    /// [`poll_answer`]. A synchronizer that was asked to stop starts
    /// nothing and leaves the index alone.
    pub fn poll(&self, index: &mut Indexer) -> (answer: Poll)
        requires
            old(index).wf(),
        ensures
            final(index).wf(),
            self.stopping() ==> answer@ == PollView::Stopped && final(index)@ == old(index)@,
            !self.stopping() ==> answer@ == poll_answer(old(index)@, self.policy()),
            !self.stopping() ==> final(index)@ == poll_index(old(index)@, self.policy()),
    {
        if self.stopping {
            return Poll::Stopped;
        }
        match index.next_unsynced() {
            None => Poll::Idle,
            Some(entry) => {
                proof {
                    let i = first_unsynced(index@);
                    assert(first_unsynced_at(index@, i));
                    lemma_slot(index@, i);
                }
                if entry.deleted && entry.remote_id.is_none() {
                    index.transition(&entry.path, Transition::Purged);
                    Poll::Dropped(entry.path)
                } else if index.pending_count() >= self.policy.fan_out {
                    Poll::Idle
                } else {
                    index.transition(&entry.path, Transition::Start);
                    let operation = match entry.remote_id {
                        Some(remote_id) => if entry.deleted {
                            Operation::Delete { remote_id }
                        } else if entry.placeholder {
                            Operation::Download { remote_id }
                        } else {
                            Operation::Update { remote_id }
                        },
                        None => Operation::Create,
                    };
                    Poll::Run(
                        SyncTask {
                            operation,
                            path: entry.path,
                            fingerprint: entry.fingerprint,
                            attempt: 1,
                        },
                    )
                }
            },
        }
    }

    /// Takes the outcome of a task and moves its entry: see [`verdict`].
    /// Returns the retry to schedule, if the task is to be tried again.
    pub fn complete(&self, index: &mut Indexer, task: SyncTask, outcome: RemoteOutcome) -> (step:
        SyncStep)
        requires
            old(index).wf(),
        ensures
            final(index).wf(),
            final(index)@ == complete_index(old(index)@, self.policy(), task@, outcome),
            step@ == complete_step(old(index)@, self.policy(), task@, outcome),
    {
        let entry = match index.get(&task.path) {
            Some(entry) => entry,
            None => {
                return SyncStep::Done;
            },
        };
        if entry.status != SyncStatus::Pending {
            return SyncStep::Done;
        }
        let transition = if entry.superseded {
            let remote = match outcome {
                RemoteOutcome::Success { remote_id } => match task.operation {
                    Operation::Delete { .. } => None,
                    _ => Some(remote_id),
                },
                _ => entry.remote_id,
            };
            Transition::Released { remote }
        } else {
            match outcome {
                RemoteOutcome::Success { remote_id } => if entry.deleted {
                    Transition::Purged
                } else {
                    Transition::Synced { remote_id }
                },
                RemoteOutcome::Transient => {
                    if task.attempt < self.policy.max_attempts {
                        let delay_ms = self.delay_after(task.attempt);
                        return SyncStep::Retry {
                            task: SyncTask {
                                operation: task.operation,
                                path: task.path,
                                fingerprint: task.fingerprint,
                                attempt: task.attempt + 1,
                            },
                            delay_ms,
                        };
                    }
                    Transition::Conflicted
                },
                RemoteOutcome::Rejected => Transition::Conflicted,
            }
        };
        index.transition(&task.path, transition);
        SyncStep::Done
    }
}

} // verus!
