use polydrive::indexer::entry::{Fingerprint, SyncStatus};
use polydrive::indexer::event::{ChangeEvent, ChangeKind};
use polydrive::indexer::index::Indexer;
use polydrive::indexer::reconcile::{LocalFile, RemoteEntry, RemoteOnlyPolicy};
use polydrive::synchronizer::{Operation, Poll, RemoteOutcome, SyncPolicy, SyncStep, Synchronizer};
use polydrive::watcher::{PoolWatcher, TargetKind, WatchTarget};

fn of_x() -> Fingerprint {
    // The file holds the single byte "x".
    Fingerprint::of(&b"x".to_vec(), 1_700_000_000)
}

fn policy() -> SyncPolicy {
    SyncPolicy { max_attempts: 5, base_delay_ms: 250, max_delay_ms: 30_000, fan_out: 8 }
}

#[test]
fn created_file_under_a_watched_directory_gets_synced() {
    let watcher = PoolWatcher::init(
        vec![WatchTarget { path: b"/tmp".to_vec(), kind: TargetKind::Directory, pattern: b"/tmp".to_vec() }],
        100,
    );
    let sync = Synchronizer::bootstrap(policy());
    let mut index = Indexer::bootstrap(&vec![], &vec![], RemoteOnlyPolicy::Recreate);
    assert!(index.is_empty());

    let events = vec![ChangeEvent {
        path: b"/tmp/a.txt".to_vec(),
        kind: ChangeKind::Created(of_x()),
        observed_at: 1,
    }];
    watcher.deliver(&events, &mut index);
    let entry = index.get(&b"/tmp/a.txt".to_vec()).unwrap();
    assert_eq!(entry.path, b"/tmp/a.txt".to_vec());
    assert_eq!(entry.status, SyncStatus::Unsynced);
    assert_eq!(entry.remote_id, None);

    // One sync cycle.
    let task = match sync.poll(&mut index) {
        Poll::Run(task) => task,
        other => panic!("expected a task, got {:?}", other),
    };
    assert_eq!(task.operation, Operation::Create);
    assert_eq!(task.fingerprint, of_x());
    assert_eq!(sync.complete(&mut index, task, RemoteOutcome::Success { remote_id: 4711 }), SyncStep::Done);

    let entry = index.get(&b"/tmp/a.txt".to_vec()).unwrap();
    assert_eq!(entry.status, SyncStatus::Synced);
    assert!(entry.remote_id.is_some());
    assert_eq!(entry.remote_id, Some(4711));
    assert_eq!(sync.poll(&mut index), Poll::Idle);
}

#[test]
fn restart_with_a_matching_remote_issues_no_create() {
    let local = vec![LocalFile { path: b"/tmp/a.txt".to_vec(), fingerprint: of_x() }];
    let remote =
        vec![RemoteEntry { path: b"/tmp/a.txt".to_vec(), remote_id: 4711, fingerprint: of_x() }];
    let mut index = Indexer::bootstrap(&local, &remote, RemoteOnlyPolicy::Recreate);
    let entry = index.get(&b"/tmp/a.txt".to_vec()).unwrap();
    assert_eq!(entry.status, SyncStatus::Synced);
    assert_eq!(entry.remote_id, Some(4711));
    assert_eq!(index.len(), 1);

    // Nothing waits for a task: no call goes to the remote.
    let sync = Synchronizer::bootstrap(policy());
    assert_eq!(index.next_unsynced(), None);
    assert_eq!(sync.poll(&mut index), Poll::Idle);
    assert_eq!(index.pending_count(), 0);
}

#[test]
fn restart_after_an_offline_edit_pushes_the_local_content() {
    let edited = Fingerprint { hash: 2, size: 5, modified: 1_700_000_500 };
    let local = vec![LocalFile { path: b"/tmp/a.txt".to_vec(), fingerprint: edited }];
    let remote =
        vec![RemoteEntry { path: b"/tmp/a.txt".to_vec(), remote_id: 4711, fingerprint: of_x() }];
    let mut index = Indexer::bootstrap(&local, &remote, RemoteOnlyPolicy::Recreate);
    let sync = Synchronizer::bootstrap(policy());
    match sync.poll(&mut index) {
        Poll::Run(task) => {
            assert_eq!(task.operation, Operation::Update { remote_id: 4711 });
            assert_eq!(task.fingerprint, edited);
        },
        other => panic!("expected a task, got {:?}", other),
    }
}
