use polydrive::indexer::entry::{Fingerprint, IndexEntry, SyncStatus};
use polydrive::indexer::event::{ChangeEvent, ChangeKind};
use polydrive::indexer::index::Indexer;
use polydrive::indexer::model::Transition;
use polydrive::indexer::reconcile::{LocalFile, RemoteEntry, RemoteOnlyPolicy};

fn print(hash: u64) -> Fingerprint {
    Fingerprint { hash, size: 1, modified: 1_700_000_000 }
}

fn path(text: &str) -> Vec<u8> {
    text.as_bytes().to_vec()
}

fn event(at: &str, kind: ChangeKind, observed_at: u64) -> ChangeEvent {
    ChangeEvent { path: path(at), kind, observed_at }
}

#[test]
fn new_index_is_empty() {
    let index = Indexer::new();
    assert_eq!(index.len(), 0);
    assert!(index.is_empty());
    assert!(index.snapshot().is_empty());
    assert_eq!(index.get(&path("/tmp/a.txt")), None);
    assert_eq!(index.next_unsynced(), None);
    assert_eq!(index.pending_count(), 0);
}

#[test]
fn created_file_is_tracked_unsynced() {
    let mut index = Indexer::new();
    index.apply(&event("/tmp/a.txt", ChangeKind::Created(print(7)), 10));
    assert_eq!(index.len(), 1);
    assert_eq!(
        index.get(&path("/tmp/a.txt")),
        Some(IndexEntry {
            path: path("/tmp/a.txt"),
            fingerprint: print(7),
            remote_id: None,
            status: SyncStatus::Unsynced,
            deleted: false,
            placeholder: false,
            superseded: false,
        })
    );
}

#[test]
fn same_fingerprint_is_a_no_op() {
    let mut index = Indexer::new();
    index.apply(&event("/tmp/a.txt", ChangeKind::Created(print(7)), 10));
    assert!(index.transition(&path("/tmp/a.txt"), Transition::Start));
    assert!(index.transition(&path("/tmp/a.txt"), Transition::Synced { remote_id: 42 }));
    let before = index.snapshot();
    index.apply(&event("/tmp/a.txt", ChangeKind::Modified(print(7)), 20));
    assert_eq!(index.snapshot(), before);
    assert_eq!(index.get(&path("/tmp/a.txt")).unwrap().status, SyncStatus::Synced);
}

#[test]
fn modified_file_goes_back_to_unsynced_and_keeps_its_remote_id() {
    let mut index = Indexer::new();
    index.apply(&event("/tmp/a.txt", ChangeKind::Created(print(7)), 10));
    index.transition(&path("/tmp/a.txt"), Transition::Start);
    index.transition(&path("/tmp/a.txt"), Transition::Synced { remote_id: 42 });
    index.apply(&event("/tmp/a.txt", ChangeKind::Modified(print(8)), 20));
    let entry = index.get(&path("/tmp/a.txt")).unwrap();
    assert_eq!(entry.status, SyncStatus::Unsynced);
    assert_eq!(entry.fingerprint, print(8));
    assert_eq!(entry.remote_id, Some(42));
    assert!(!entry.superseded);
}

#[test]
fn removal_marks_the_entry_and_keeps_it() {
    let mut index = Indexer::new();
    index.apply(&event("/tmp/a.txt", ChangeKind::Created(print(7)), 10));
    index.transition(&path("/tmp/a.txt"), Transition::Start);
    index.transition(&path("/tmp/a.txt"), Transition::Synced { remote_id: 42 });
    index.apply(&event("/tmp/a.txt", ChangeKind::Removed, 20));
    let entry = index.get(&path("/tmp/a.txt")).unwrap();
    assert!(entry.deleted);
    assert_eq!(entry.status, SyncStatus::Unsynced);
    assert_eq!(entry.remote_id, Some(42));
    assert_eq!(entry.content(), None);
    assert_eq!(index.len(), 1);
}

#[test]
fn removal_of_an_untracked_path_changes_nothing() {
    let mut index = Indexer::new();
    index.apply(&event("/tmp/a.txt", ChangeKind::Removed, 20));
    assert!(index.is_empty());
}

#[test]
fn rename_is_remove_old_and_create_new() {
    let mut index = Indexer::new();
    index.apply(&event("/tmp/a.txt", ChangeKind::Created(print(7)), 10));
    index.apply(&event(
        "/tmp/a.txt",
        ChangeKind::Renamed { to: path("/tmp/b.txt"), fingerprint: print(7) },
        20,
    ));
    let old_name = index.get(&path("/tmp/a.txt")).unwrap();
    assert!(old_name.deleted);
    assert_eq!(old_name.status, SyncStatus::Unsynced);
    let new_name = index.get(&path("/tmp/b.txt")).unwrap();
    assert!(!new_name.deleted);
    assert_eq!(new_name.fingerprint, print(7));
    assert_eq!(new_name.status, SyncStatus::Unsynced);
    assert_eq!(new_name.remote_id, None);
    assert_eq!(index.len(), 2);
}

#[test]
fn recreation_clears_the_deletion_mark() {
    let mut index = Indexer::new();
    index.apply(&event("/tmp/a.txt", ChangeKind::Created(print(7)), 10));
    index.apply(&event("/tmp/a.txt", ChangeKind::Removed, 20));
    index.apply(&event("/tmp/a.txt", ChangeKind::Created(print(7)), 30));
    let entry = index.get(&path("/tmp/a.txt")).unwrap();
    assert!(!entry.deleted);
    assert_eq!(entry.content(), Some(print(7)));
}

#[test]
fn snapshot_keeps_the_order_of_first_tracking() {
    let mut index = Indexer::new();
    index.apply(&event("/tmp/b.txt", ChangeKind::Created(print(1)), 10));
    index.apply(&event("/tmp/a.txt", ChangeKind::Created(print(2)), 11));
    index.apply(&event("/tmp/b.txt", ChangeKind::Modified(print(3)), 12));
    let listing = index.snapshot();
    assert_eq!(listing.len(), 2);
    assert_eq!(listing[0].path, path("/tmp/b.txt"));
    assert_eq!(listing[0].fingerprint, print(3));
    assert_eq!(listing[1].path, path("/tmp/a.txt"));
}

#[test]
fn final_fingerprint_is_that_of_the_last_event() {
    // Any sequence of mutations on one path converges to the last content.
    let mut index = Indexer::new();
    let kinds = vec![
        ChangeKind::Created(print(1)),
        ChangeKind::Modified(print(2)),
        ChangeKind::Removed,
        ChangeKind::Created(print(3)),
        ChangeKind::Modified(print(4)),
        ChangeKind::Modified(print(5)),
    ];
    let mut at: u64 = 0;
    for kind in kinds {
        at += 1;
        index.apply(&event("/tmp/a.txt", kind, at));
    }
    assert_eq!(index.get(&path("/tmp/a.txt")).unwrap().content(), Some(print(5)));
    index.apply(&event("/tmp/a.txt", ChangeKind::Removed, 99));
    assert_eq!(index.get(&path("/tmp/a.txt")).unwrap().content(), None);
}

#[test]
fn transitions_follow_the_status() {
    let mut index = Indexer::new();
    let a = path("/tmp/a.txt");
    assert!(!index.transition(&a, Transition::Start));
    index.apply(&event("/tmp/a.txt", ChangeKind::Created(print(7)), 10));
    assert!(!index.transition(&a, Transition::Synced { remote_id: 1 }));
    assert!(!index.transition(&a, Transition::Conflicted));
    assert!(!index.transition(&a, Transition::Released { remote: None }));
    assert!(!index.transition(&a, Transition::Purged));
    assert!(index.transition(&a, Transition::Start));
    assert_eq!(index.get(&a).unwrap().status, SyncStatus::Pending);
    assert_eq!(index.pending_count(), 1);
    assert!(!index.transition(&a, Transition::Start));
    assert!(!index.transition(&a, Transition::Released { remote: None }));
    assert!(index.transition(&a, Transition::Conflicted));
    assert_eq!(index.get(&a).unwrap().status, SyncStatus::Conflicted);
    assert_eq!(index.pending_count(), 0);
}

#[test]
fn purge_takes_a_confirmed_deletion_out() {
    let mut index = Indexer::new();
    let a = path("/tmp/a.txt");
    index.apply(&event("/tmp/a.txt", ChangeKind::Created(print(7)), 10));
    index.apply(&event("/tmp/b.txt", ChangeKind::Created(print(8)), 11));
    index.transition(&a, Transition::Start);
    index.transition(&a, Transition::Synced { remote_id: 5 });
    index.apply(&event("/tmp/a.txt", ChangeKind::Removed, 12));
    assert!(index.transition(&a, Transition::Start));
    assert!(index.transition(&a, Transition::Purged));
    assert_eq!(index.get(&a), None);
    assert_eq!(index.len(), 1);
    assert_eq!(index.snapshot()[0].path, path("/tmp/b.txt"));
}

#[test]
fn next_unsynced_is_the_first_in_index_order() {
    let mut index = Indexer::new();
    index.apply(&event("/tmp/a.txt", ChangeKind::Created(print(1)), 10));
    index.apply(&event("/tmp/b.txt", ChangeKind::Created(print(2)), 11));
    index.transition(&path("/tmp/a.txt"), Transition::Start);
    assert_eq!(index.next_unsynced().unwrap().path, path("/tmp/b.txt"));
    index.transition(&path("/tmp/b.txt"), Transition::Start);
    assert_eq!(index.next_unsynced(), None);
    assert_eq!(index.pending_count(), 2);
}

fn local(at: &str, hash: u64) -> LocalFile {
    LocalFile { path: path(at), fingerprint: print(hash) }
}

fn remote(at: &str, remote_id: u64, hash: u64) -> RemoteEntry {
    RemoteEntry { path: path(at), remote_id, fingerprint: print(hash) }
}

#[test]
fn bootstrap_reconciles_the_four_cases() {
    let locals = vec![local("/w/same", 1), local("/w/differs", 2), local("/w/local-only", 3)];
    let remotes =
        vec![remote("/w/same", 10, 1), remote("/w/differs", 11, 99), remote("/w/remote-only", 12, 4)];
    let index = Indexer::bootstrap(&locals, &remotes, RemoteOnlyPolicy::Recreate);
    assert_eq!(index.len(), 4);

    let same = index.get(&path("/w/same")).unwrap();
    assert_eq!(same.status, SyncStatus::Synced);
    assert_eq!(same.remote_id, Some(10));

    let differs = index.get(&path("/w/differs")).unwrap();
    assert_eq!(differs.status, SyncStatus::Unsynced);
    assert_eq!(differs.fingerprint, print(2));
    assert_eq!(differs.remote_id, Some(11));

    let local_only = index.get(&path("/w/local-only")).unwrap();
    assert_eq!(local_only.status, SyncStatus::Unsynced);
    assert_eq!(local_only.remote_id, None);

    let remote_only = index.get(&path("/w/remote-only")).unwrap();
    assert!(remote_only.placeholder);
    assert_eq!(remote_only.status, SyncStatus::Unsynced);
    assert_eq!(remote_only.remote_id, Some(12));
    assert_eq!(remote_only.fingerprint, print(4));
    assert_eq!(remote_only.content(), None);
}

#[test]
fn remote_only_path_is_conflicted_under_the_conflict_policy() {
    let index =
        Indexer::bootstrap(&vec![], &vec![remote("/w/remote-only", 12, 4)], RemoteOnlyPolicy::Conflict);
    let entry = index.get(&path("/w/remote-only")).unwrap();
    assert_eq!(entry.status, SyncStatus::Conflicted);
    assert!(entry.placeholder);
}

#[test]
fn reconcile_twice_gives_the_identical_index() {
    let locals = vec![
        local("/w/a", 1),
        local("/w/b", 2),
        local("/w/a", 3),
        local("/w/c", 4),
    ];
    let remotes = vec![remote("/w/a", 10, 3), remote("/w/d", 11, 5), remote("/w/b", 12, 9)];
    for policy in [RemoteOnlyPolicy::Recreate, RemoteOnlyPolicy::Conflict] {
        let mut index = Indexer::bootstrap(&locals, &remotes, policy);
        let once = index.snapshot();
        index.reconcile(&locals, &remotes, policy);
        assert_eq!(index.snapshot(), once);
    }
}

#[test]
fn reconcile_leaves_a_task_in_flight_alone() {
    let mut index = Indexer::new();
    index.apply(&event("/w/a", ChangeKind::Created(print(1)), 1));
    index.transition(&path("/w/a"), Transition::Start);
    let before = index.get(&path("/w/a"));
    index.reconcile(&vec![local("/w/a", 2)], &vec![remote("/w/a", 10, 2)], RemoteOnlyPolicy::Recreate);
    assert_eq!(index.get(&path("/w/a")), before);
}

#[test]
fn reconcile_keeps_a_tracked_path_that_only_the_remote_lists() {
    let mut index = Indexer::new();
    index.apply(&event("/w/a", ChangeKind::Created(print(1)), 1));
    index.transition(&path("/w/a"), Transition::Start);
    index.transition(&path("/w/a"), Transition::Synced { remote_id: 10 });
    index.apply(&event("/w/a", ChangeKind::Removed, 2));
    let before = index.snapshot();
    index.reconcile(&vec![], &vec![remote("/w/a", 10, 1)], RemoteOnlyPolicy::Recreate);
    assert_eq!(index.snapshot(), before);
}

#[test]
fn removal_event_does_not_touch_a_placeholder() {
    let mut index =
        Indexer::bootstrap(&vec![], &vec![remote("/w/r", 12, 4)], RemoteOnlyPolicy::Conflict);
    let before = index.snapshot();
    index.apply(&event("/w/r", ChangeKind::Removed, 5));
    assert_eq!(index.snapshot(), before);
    index.apply(&event("/w/r", ChangeKind::Created(print(4)), 6));
    let entry = index.get(&path("/w/r")).unwrap();
    assert!(!entry.placeholder);
    assert_eq!(entry.status, SyncStatus::Unsynced);
    assert_eq!(entry.remote_id, Some(12));
}

#[test]
fn fingerprint_of_content() {
    assert_eq!(
        Fingerprint::of(&vec![], 9),
        Fingerprint { hash: 0xcbf2_9ce4_8422_2325, size: 0, modified: 9 }
    );
    assert_eq!(
        Fingerprint::of(&b"x".to_vec(), 1),
        Fingerprint { hash: 0xaf63_f54c_8602_1707, size: 1, modified: 1 }
    );
    assert_eq!(
        Fingerprint::of(&b"hello".to_vec(), 2),
        Fingerprint { hash: 0xa430_d846_80aa_bd0b, size: 5, modified: 2 }
    );
    assert_ne!(Fingerprint::of(&b"ab".to_vec(), 2), Fingerprint::of(&b"ba".to_vec(), 2));
}
