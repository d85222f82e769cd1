use polydrive::indexer::entry::{Fingerprint, SyncStatus};
use polydrive::indexer::event::{ChangeEvent, ChangeKind};
use polydrive::indexer::index::Indexer;
use polydrive::indexer::reconcile::{RemoteEntry, RemoteOnlyPolicy};
use polydrive::synchronizer::{
    Operation, Poll, RemoteOutcome, SyncPolicy, SyncStep, SyncTask, Synchronizer,
};

fn fp(hash: u64) -> Fingerprint {
    Fingerprint { hash, size: 3, modified: 1_700_000_000 }
}

fn bytes(text: &str) -> Vec<u8> {
    text.as_bytes().to_vec()
}

fn change(at: &str, kind: ChangeKind) -> ChangeEvent {
    ChangeEvent { path: bytes(at), kind, observed_at: 0 }
}

fn limits() -> SyncPolicy {
    SyncPolicy { max_attempts: 3, base_delay_ms: 100, max_delay_ms: 1_000, fan_out: 4 }
}

fn run(answer: Poll) -> SyncTask {
    match answer {
        Poll::Run(task) => task,
        other => panic!("expected a task, got {:?}", other),
    }
}

#[test]
fn poll_on_an_empty_index_is_idle() {
    let sync = Synchronizer::bootstrap(limits());
    let mut index = Indexer::new();
    assert_eq!(sync.poll(&mut index), Poll::Idle);
}

#[test]
fn poll_starts_a_create_for_a_new_file() {
    let sync = Synchronizer::bootstrap(limits());
    let mut index = Indexer::new();
    index.apply(&change("/tmp/a.txt", ChangeKind::Created(fp(1))));
    let task = run(sync.poll(&mut index));
    assert_eq!(
        task,
        SyncTask { operation: Operation::Create, path: bytes("/tmp/a.txt"), fingerprint: fp(1), attempt: 1 }
    );
    assert_eq!(index.get(&bytes("/tmp/a.txt")).unwrap().status, SyncStatus::Pending);
    assert_eq!(sync.poll(&mut index), Poll::Idle);
}

#[test]
fn success_syncs_the_entry_under_the_remote_id() {
    let sync = Synchronizer::bootstrap(limits());
    let mut index = Indexer::new();
    index.apply(&change("/tmp/a.txt", ChangeKind::Created(fp(1))));
    let task = run(sync.poll(&mut index));
    let step = sync.complete(&mut index, task, RemoteOutcome::Success { remote_id: 77 });
    assert_eq!(step, SyncStep::Done);
    let entry = index.get(&bytes("/tmp/a.txt")).unwrap();
    assert_eq!(entry.status, SyncStatus::Synced);
    assert_eq!(entry.remote_id, Some(77));
}

#[test]
fn a_synced_file_that_changes_is_updated() {
    let sync = Synchronizer::bootstrap(limits());
    let mut index = Indexer::new();
    index.apply(&change("/tmp/a.txt", ChangeKind::Created(fp(1))));
    let task = run(sync.poll(&mut index));
    sync.complete(&mut index, task, RemoteOutcome::Success { remote_id: 77 });
    index.apply(&change("/tmp/a.txt", ChangeKind::Modified(fp(2))));
    let task = run(sync.poll(&mut index));
    assert_eq!(task.operation, Operation::Update { remote_id: 77 });
    assert_eq!(task.fingerprint, fp(2));
}

#[test]
fn a_removed_file_is_deleted_remotely_and_then_purged() {
    let sync = Synchronizer::bootstrap(limits());
    let mut index = Indexer::new();
    index.apply(&change("/tmp/a.txt", ChangeKind::Created(fp(1))));
    let task = run(sync.poll(&mut index));
    sync.complete(&mut index, task, RemoteOutcome::Success { remote_id: 77 });
    index.apply(&change("/tmp/a.txt", ChangeKind::Removed));
    let task = run(sync.poll(&mut index));
    assert_eq!(task.operation, Operation::Delete { remote_id: 77 });
    assert_eq!(index.len(), 1);
    let step = sync.complete(&mut index, task, RemoteOutcome::Success { remote_id: 77 });
    assert_eq!(step, SyncStep::Done);
    assert!(index.is_empty());
}

#[test]
fn a_deletion_the_remote_never_saw_is_dropped_without_a_call() {
    let sync = Synchronizer::bootstrap(limits());
    let mut index = Indexer::new();
    index.apply(&change("/tmp/a.txt", ChangeKind::Created(fp(1))));
    index.apply(&change("/tmp/a.txt", ChangeKind::Removed));
    assert_eq!(index.len(), 1);
    assert_eq!(sync.poll(&mut index), Poll::Dropped(bytes("/tmp/a.txt")));
    assert!(index.is_empty());
    assert_eq!(sync.poll(&mut index), Poll::Idle);
}

#[test]
fn a_placeholder_is_downloaded() {
    let sync = Synchronizer::bootstrap(limits());
    let remote = vec![RemoteEntry { path: bytes("/w/r"), remote_id: 9, fingerprint: fp(4) }];
    let mut index = Indexer::bootstrap(&vec![], &remote, RemoteOnlyPolicy::Recreate);
    let task = run(sync.poll(&mut index));
    assert_eq!(task.operation, Operation::Download { remote_id: 9 });
    sync.complete(&mut index, task, RemoteOutcome::Success { remote_id: 9 });
    let entry = index.get(&bytes("/w/r")).unwrap();
    assert_eq!(entry.status, SyncStatus::Synced);
    assert!(!entry.placeholder);
    assert_eq!(entry.content(), Some(fp(4)));
}

#[test]
fn transient_failure_then_success_is_synced() {
    let sync = Synchronizer::bootstrap(limits());
    let mut index = Indexer::new();
    index.apply(&change("/tmp/a.txt", ChangeKind::Created(fp(1))));
    let task = run(sync.poll(&mut index));
    let retry = match sync.complete(&mut index, task, RemoteOutcome::Transient) {
        SyncStep::Retry { task, delay_ms } => {
            assert_eq!(delay_ms, 100);
            assert_eq!(task.attempt, 2);
            task
        },
        SyncStep::Done => panic!("a first transient failure is retried"),
    };
    assert_eq!(index.get(&bytes("/tmp/a.txt")).unwrap().status, SyncStatus::Pending);
    let retry = match sync.complete(&mut index, retry, RemoteOutcome::Transient) {
        SyncStep::Retry { task, delay_ms } => {
            assert_eq!(delay_ms, 200);
            assert_eq!(task.attempt, 3);
            task
        },
        SyncStep::Done => panic!("a second transient failure is retried"),
    };
    let step = sync.complete(&mut index, retry, RemoteOutcome::Success { remote_id: 5 });
    assert_eq!(step, SyncStep::Done);
    let entry = index.get(&bytes("/tmp/a.txt")).unwrap();
    assert_eq!(entry.status, SyncStatus::Synced);
    assert_eq!(entry.remote_id, Some(5));
}

#[test]
fn exhausted_retries_end_in_conflicted_and_the_entry_stays() {
    let sync = Synchronizer::bootstrap(limits());
    let mut index = Indexer::new();
    index.apply(&change("/tmp/a.txt", ChangeKind::Created(fp(1))));
    let mut task = run(sync.poll(&mut index));
    let mut failures = 0;
    loop {
        failures += 1;
        match sync.complete(&mut index, task, RemoteOutcome::Transient) {
            SyncStep::Retry { task: again, .. } => task = again,
            SyncStep::Done => break,
        }
    }
    assert_eq!(failures, 3);
    let entry = index.get(&bytes("/tmp/a.txt")).unwrap();
    assert_eq!(entry.status, SyncStatus::Conflicted);
    assert_eq!(entry.fingerprint, fp(1));
    assert_eq!(index.len(), 1);
    assert_eq!(index.snapshot()[0].status, SyncStatus::Conflicted);
    assert_eq!(sync.poll(&mut index), Poll::Idle);
}

#[test]
fn rejection_is_conflicted_at_once() {
    let sync = Synchronizer::bootstrap(limits());
    let mut index = Indexer::new();
    index.apply(&change("/tmp/a.txt", ChangeKind::Created(fp(1))));
    let task = run(sync.poll(&mut index));
    assert_eq!(sync.complete(&mut index, task, RemoteOutcome::Rejected), SyncStep::Done);
    assert_eq!(index.get(&bytes("/tmp/a.txt")).unwrap().status, SyncStatus::Conflicted);
}

#[test]
fn a_conflicted_entry_is_retried_after_a_new_change() {
    let sync = Synchronizer::bootstrap(limits());
    let mut index = Indexer::new();
    index.apply(&change("/tmp/a.txt", ChangeKind::Created(fp(1))));
    let task = run(sync.poll(&mut index));
    sync.complete(&mut index, task, RemoteOutcome::Rejected);
    index.apply(&change("/tmp/a.txt", ChangeKind::Modified(fp(2))));
    let task = run(sync.poll(&mut index));
    assert_eq!(task.fingerprint, fp(2));
    assert_eq!(task.attempt, 1);
}

#[test]
fn newer_change_while_pending_returns_to_unsynced() {
    for outcome in
        [RemoteOutcome::Success { remote_id: 5 }, RemoteOutcome::Transient, RemoteOutcome::Rejected]
    {
        let sync = Synchronizer::bootstrap(limits());
        let mut index = Indexer::new();
        index.apply(&change("/tmp/a.txt", ChangeKind::Created(fp(1))));
        let task = run(sync.poll(&mut index));
        index.apply(&change("/tmp/a.txt", ChangeKind::Modified(fp(2))));
        let during = index.get(&bytes("/tmp/a.txt")).unwrap();
        assert_eq!(during.status, SyncStatus::Pending);
        assert!(during.superseded);
        assert_eq!(during.fingerprint, fp(2));
        // No second task starts while the first is in flight.
        assert_eq!(sync.poll(&mut index), Poll::Idle);
        assert_eq!(sync.complete(&mut index, task, outcome), SyncStep::Done);
        let after = index.get(&bytes("/tmp/a.txt")).unwrap();
        assert_eq!(after.status, SyncStatus::Unsynced);
        assert_eq!(after.fingerprint, fp(2));
        assert!(!after.superseded);
        let next = run(sync.poll(&mut index));
        assert_eq!(next.fingerprint, fp(2));
        match outcome {
            RemoteOutcome::Success { remote_id } => {
                assert_eq!(next.operation, Operation::Update { remote_id })
            },
            _ => assert_eq!(next.operation, Operation::Create),
        }
    }
}

#[test]
fn recreation_during_a_delete_creates_anew() {
    let sync = Synchronizer::bootstrap(limits());
    let mut index = Indexer::new();
    index.apply(&change("/tmp/a.txt", ChangeKind::Created(fp(1))));
    let task = run(sync.poll(&mut index));
    sync.complete(&mut index, task, RemoteOutcome::Success { remote_id: 5 });
    index.apply(&change("/tmp/a.txt", ChangeKind::Removed));
    let delete = run(sync.poll(&mut index));
    index.apply(&change("/tmp/a.txt", ChangeKind::Created(fp(2))));
    sync.complete(&mut index, delete, RemoteOutcome::Success { remote_id: 5 });
    let entry = index.get(&bytes("/tmp/a.txt")).unwrap();
    assert_eq!(entry.status, SyncStatus::Unsynced);
    assert_eq!(entry.remote_id, None);
    assert_eq!(run(sync.poll(&mut index)).operation, Operation::Create);
}

#[test]
fn tasks_for_one_path_never_overlap() {
    // Changes keep arriving for one path; count the tasks that are open.
    let sync = Synchronizer::bootstrap(limits());
    let mut index = Indexer::new();
    let mut open: Vec<SyncTask> = Vec::new();
    for round in 0..20u64 {
        index.apply(&change("/tmp/a.txt", ChangeKind::Modified(fp(round))));
        if let Poll::Run(task) = sync.poll(&mut index) {
            assert!(open.iter().all(|running| running.path != task.path));
            open.push(task);
        }
        assert!(open.len() <= 1);
        if round % 3 == 2 {
            if let Some(task) = open.pop() {
                match sync.complete(&mut index, task, RemoteOutcome::Transient) {
                    SyncStep::Retry { task, .. } => open.push(task),
                    SyncStep::Done => {},
                }
            }
        }
    }
}

#[test]
fn independent_paths_run_together_up_to_the_fan_out() {
    let sync = Synchronizer::bootstrap(SyncPolicy { fan_out: 2, ..limits() });
    let mut index = Indexer::new();
    index.apply(&change("/tmp/a", ChangeKind::Created(fp(1))));
    index.apply(&change("/tmp/b", ChangeKind::Created(fp(2))));
    index.apply(&change("/tmp/c", ChangeKind::Created(fp(3))));
    let first = run(sync.poll(&mut index));
    let second = run(sync.poll(&mut index));
    assert_eq!(first.path, bytes("/tmp/a"));
    assert_eq!(second.path, bytes("/tmp/b"));
    assert_eq!(sync.poll(&mut index), Poll::Idle);
    sync.complete(&mut index, first, RemoteOutcome::Success { remote_id: 1 });
    assert_eq!(run(sync.poll(&mut index)).path, bytes("/tmp/c"));
}

#[test]
fn a_fan_out_of_zero_starts_nothing() {
    let sync = Synchronizer::bootstrap(SyncPolicy { fan_out: 0, ..limits() });
    let mut index = Indexer::new();
    index.apply(&change("/tmp/a", ChangeKind::Created(fp(1))));
    assert_eq!(sync.poll(&mut index), Poll::Idle);
}

#[test]
fn outcome_for_a_path_with_no_task_changes_nothing() {
    let sync = Synchronizer::bootstrap(limits());
    let mut index = Indexer::new();
    index.apply(&change("/tmp/a", ChangeKind::Created(fp(1))));
    let before = index.snapshot();
    let forged = SyncTask { operation: Operation::Create, path: bytes("/tmp/a"), fingerprint: fp(1), attempt: 1 };
    assert_eq!(sync.complete(&mut index, forged, RemoteOutcome::Success { remote_id: 3 }), SyncStep::Done);
    assert_eq!(index.snapshot(), before);
    let stray = SyncTask { operation: Operation::Create, path: bytes("/tmp/z"), fingerprint: fp(1), attempt: 1 };
    assert_eq!(sync.complete(&mut index, stray, RemoteOutcome::Transient), SyncStep::Done);
    assert_eq!(index.snapshot(), before);
}

#[test]
fn a_stopped_synchronizer_takes_no_new_work() {
    let mut sync = Synchronizer::bootstrap(limits());
    let mut index = Indexer::new();
    index.apply(&change("/tmp/a", ChangeKind::Created(fp(1))));
    index.apply(&change("/tmp/b", ChangeKind::Created(fp(2))));
    let task = run(sync.poll(&mut index));
    assert!(!sync.is_stopping());
    sync.stop();
    assert!(sync.is_stopping());
    assert_eq!(sync.poll(&mut index), Poll::Stopped);
    // The task in flight may still finish.
    sync.complete(&mut index, task, RemoteOutcome::Success { remote_id: 8 });
    assert_eq!(index.get(&bytes("/tmp/a")).unwrap().status, SyncStatus::Synced);
    assert_eq!(index.get(&bytes("/tmp/b")).unwrap().status, SyncStatus::Unsynced);
}

#[test]
fn backoff_doubles_up_to_the_cap() {
    let sync = Synchronizer::bootstrap(limits());
    assert_eq!(sync.delay_after(0), 100);
    assert_eq!(sync.delay_after(1), 100);
    assert_eq!(sync.delay_after(2), 200);
    assert_eq!(sync.delay_after(3), 400);
    assert_eq!(sync.delay_after(4), 800);
    assert_eq!(sync.delay_after(5), 1_000);
    assert_eq!(sync.delay_after(6), 1_000);
    assert_eq!(sync.delay_after(u32::MAX), 1_000);
}

#[test]
fn backoff_edge_cases() {
    let zero = Synchronizer::bootstrap(SyncPolicy { base_delay_ms: 0, ..limits() });
    assert_eq!(zero.delay_after(1), 0);
    assert_eq!(zero.delay_after(u32::MAX), 0);
    let capped = Synchronizer::bootstrap(SyncPolicy { base_delay_ms: 5_000, ..limits() });
    assert_eq!(capped.delay_after(1), 1_000);
    let huge = Synchronizer::bootstrap(SyncPolicy {
        base_delay_ms: 1,
        max_delay_ms: u64::MAX,
        ..limits()
    });
    assert_eq!(huge.delay_after(64), 1u64 << 63);
    assert_eq!(huge.delay_after(65), u64::MAX);
    assert_eq!(huge.delay_after(1_000), u64::MAX);
}
