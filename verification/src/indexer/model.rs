//! The index as a mathematical value: a sequence of entries with distinct
//! paths, in the order in which the paths were first tracked, and the
//! functions that say how it moves.

use vstd::prelude::*;
use crate::indexer::entry::{EntryView, Fingerprint, SyncStatus};
use crate::indexer::event::{ChangeEventView, ChangeKindView};

verus! {

/// Whether some entry stands for `path`.
pub open spec fn tracks(entries: Seq<EntryView>, path: Seq<u8>) -> bool {
    exists|i: int| 0 <= i < entries.len() && (#[trigger] entries[i]).path == path
}

/// The position of the entry for `path`, where one exists.
pub open spec fn slot_of(entries: Seq<EntryView>, path: Seq<u8>) -> int {
    choose|i: int| 0 <= i < entries.len() && (#[trigger] entries[i]).path == path
}

/// The entry for `path`, if the index tracks it.
pub open spec fn lookup(entries: Seq<EntryView>, path: Seq<u8>) -> Option<EntryView> {
    if tracks(entries, path) {
        Some(entries[slot_of(entries, path)])
    } else {
        None
    }
}

/// The local content the index records for `path`; nothing for a path it
/// does not track.
pub open spec fn content_at(entries: Seq<EntryView>, path: Seq<u8>) -> Option<Fingerprint> {
    match lookup(entries, path) {
        Some(entry) => entry.content(),
        None => None,
    }
}

/// No two entries share a path.
pub open spec fn distinct_paths(entries: Seq<EntryView>) -> bool {
    forall|i: int, j: int|
        0 <= i < j < entries.len() ==> (#[trigger] entries[i]).path != (#[trigger] entries[j]).path
}

/// Validity of an index: keys are unique and every entry is valid.
pub open spec fn index_wf(entries: Seq<EntryView>) -> bool {
    &&& distinct_paths(entries)
    &&& forall|i: int| 0 <= i < entries.len() ==> (#[trigger] entries[i]).wf()
}

/// Whether a task for `path` is in flight.
pub open spec fn in_flight(entries: Seq<EntryView>, path: Seq<u8>) -> bool {
    lookup(entries, path) matches Some(entry) && entry.status == SyncStatus::Pending
}

/// The entry made for a path seen for the first time.
pub open spec fn fresh(path: Seq<u8>, fingerprint: Fingerprint) -> EntryView {
    EntryView {
        path,
        fingerprint,
        remote_id: None,
        status: SyncStatus::Unsynced,
        deleted: false,
        placeholder: false,
        superseded: false,
    }
}

/// An entry after a local change that leaves `content` at its path. With a
/// task in flight the entry stays `Pending` and is marked superseded; in
/// every other status it becomes `Unsynced`.
pub open spec fn rewritten(entry: EntryView, content: Option<Fingerprint>) -> EntryView {
    let in_flight = entry.status == SyncStatus::Pending;
    let status = if in_flight {
        SyncStatus::Pending
    } else {
        SyncStatus::Unsynced
    };
    match content {
        Some(fingerprint) => EntryView {
            fingerprint,
            deleted: false,
            placeholder: false,
            status,
            superseded: in_flight,
            ..entry
        },
        None => EntryView { deleted: true, status, superseded: in_flight, ..entry },
    }
}

/// The index after the filesystem was seen to hold `content` at `path`.
///
/// A tracked entry whose content already is `content` stays as it is (the
/// change is a no-op); any other tracked entry is rewritten in place. An
/// untracked path gains an entry at the end when it holds a file.
pub open spec fn observe(entries: Seq<EntryView>, path: Seq<u8>, content: Option<Fingerprint>) -> Seq<
    EntryView,
> {
    if tracks(entries, path) {
        let i = slot_of(entries, path);
        if entries[i].content() == content {
            entries
        } else {
            entries.update(i, rewritten(entries[i], content))
        }
    } else {
        match content {
            Some(fingerprint) => entries.push(fresh(path, fingerprint)),
            None => entries,
        }
    }
}

/// The index after one event. A rename is a removal of the old name
/// followed by a creation of the new one.
pub open spec fn apply_event(entries: Seq<EntryView>, event: ChangeEventView) -> Seq<EntryView> {
    match event.kind {
        ChangeKindView::Created(fingerprint) => observe(entries, event.path, Some(fingerprint)),
        ChangeKindView::Modified(fingerprint) => observe(entries, event.path, Some(fingerprint)),
        ChangeKindView::Removed => observe(entries, event.path, None),
        ChangeKindView::Renamed { to, fingerprint } => observe(
            observe(entries, event.path, None),
            to,
            Some(fingerprint),
        ),
    }
}

/// The index after a run of events, applied in order.
pub open spec fn apply_events(entries: Seq<EntryView>, events: Seq<ChangeEventView>) -> Seq<
    EntryView,
>
    decreases events.len(),
{
    if events.len() == 0 {
        entries
    } else {
        apply_event(apply_events(entries, events.drop_last()), events.last())
    }
}

/// A status transition that the synchronizer asks of the index.
#[derive(Clone, Copy, Debug, PartialEq, Eq, Structural)]
pub enum Transition {
    /// A task starts: `Unsynced` to `Pending`.
    Start,
    /// The task succeeded and nothing newer arrived: `Pending` to `Synced`.
    Synced { remote_id: u64 },
    /// The task failed for good: `Pending` to `Conflicted`.
    Conflicted,
    /// The task is over but a newer change arrived meanwhile: `Pending`
    /// back to `Unsynced`, with the remote identifier as it now stands.
    Released { remote: Option<u64> },
    /// The entry leaves the index: its remote deletion is confirmed, or the
    /// remote never held it.
    Purged,
}

/// Whether an entry may make a transition.
pub open spec fn permits(entry: EntryView, transition: Transition) -> bool {
    match transition {
        Transition::Start => entry.status == SyncStatus::Unsynced,
        Transition::Synced { .. } => entry.status == SyncStatus::Pending && !entry.superseded
            && !entry.deleted,
        Transition::Conflicted => entry.status == SyncStatus::Pending && !entry.superseded,
        Transition::Released { .. } => entry.status == SyncStatus::Pending && entry.superseded,
        Transition::Purged => (entry.status == SyncStatus::Pending && !entry.superseded
            && entry.deleted) || entry.local_only_deletion(),
    }
}

/// An entry after a transition that keeps it in the index.
pub open spec fn moved(entry: EntryView, transition: Transition) -> EntryView {
    match transition {
        Transition::Start => EntryView { status: SyncStatus::Pending, superseded: false, ..entry },
        Transition::Synced { remote_id } => EntryView {
            status: SyncStatus::Synced,
            remote_id: Some(remote_id),
            placeholder: false,
            ..entry
        },
        Transition::Conflicted => EntryView { status: SyncStatus::Conflicted, ..entry },
        Transition::Released { remote } => EntryView {
            status: SyncStatus::Unsynced,
            superseded: false,
            remote_id: remote,
            ..entry
        },
        Transition::Purged => entry,
    }
}

/// The index after a transition was asked for `path`. A request for an
/// untracked path, or one the entry does not permit, changes nothing.
pub open spec fn transit(entries: Seq<EntryView>, path: Seq<u8>, transition: Transition) -> Seq<
    EntryView,
> {
    if tracks(entries, path) && permits(entries[slot_of(entries, path)], transition) {
        let i = slot_of(entries, path);
        if transition is Purged {
            entries.remove(i)
        } else {
            entries.update(i, moved(entries[i], transition))
        }
    } else {
        entries
    }
}

/// Whether `i` is the first entry that waits for a task.
pub open spec fn first_unsynced_at(entries: Seq<EntryView>, i: int) -> bool {
    &&& 0 <= i < entries.len()
    &&& entries[i].status == SyncStatus::Unsynced
    &&& forall|j: int| 0 <= j < i ==> (#[trigger] entries[j]).status != SyncStatus::Unsynced
}

/// Whether any entry waits for a task.
pub open spec fn has_unsynced(entries: Seq<EntryView>) -> bool {
    exists|i: int| first_unsynced_at(entries, i)
}

/// The position of the first entry that waits for a task.
pub open spec fn first_unsynced(entries: Seq<EntryView>) -> int {
    choose|i: int| first_unsynced_at(entries, i)
}

/// How many entries have a task in flight.
pub open spec fn count_pending(entries: Seq<EntryView>) -> nat
    decreases entries.len(),
{
    if entries.len() == 0 {
        0
    } else {
        count_pending(entries.drop_last()) + if entries.last().status == SyncStatus::Pending {
            1nat
        } else {
            0nat
        }
    }
}

/// In a valid index the entry at position `i` is the one `lookup` finds
/// for its path.
pub proof fn lemma_slot(entries: Seq<EntryView>, i: int)
    requires
        distinct_paths(entries),
        0 <= i < entries.len(),
    ensures
        tracks(entries, entries[i].path),
        slot_of(entries, entries[i].path) == i,
        lookup(entries, entries[i].path) == Some(entries[i]),
{
    let path = entries[i].path;
    assert(tracks(entries, path));
    let k = slot_of(entries, path);
    assert(0 <= k < entries.len() && entries[k].path == path);
    if k < i {
        assert(entries[k].path != entries[i].path);
    } else if i < k {
        assert(entries[i].path != entries[k].path);
    }
}

/// The first waiting entry is unique.
pub proof fn lemma_first_unsynced(entries: Seq<EntryView>, i: int)
    requires
        first_unsynced_at(entries, i),
    ensures
        has_unsynced(entries),
        first_unsynced(entries) == i,
{
    let k = first_unsynced(entries);
    assert(first_unsynced_at(entries, k));
    if k < i {
        assert(entries[k].status != SyncStatus::Unsynced);
    } else if i < k {
        assert(entries[i].status != SyncStatus::Unsynced);
    }
}

/// Rewriting an entry in place leaves the keys as they are.
pub proof fn lemma_update_keeps_paths(entries: Seq<EntryView>, i: int, entry: EntryView)
    requires
        distinct_paths(entries),
        0 <= i < entries.len(),
        entry.path == entries[i].path,
    ensures
        distinct_paths(entries.update(i, entry)),
        forall|path: Seq<u8>| tracks(entries.update(i, entry), path) == tracks(entries, path),
        forall|path: Seq<u8>|
            tracks(entries, path) ==> slot_of(entries.update(i, entry), path) == slot_of(
                entries,
                path,
            ),
{
    let after = entries.update(i, entry);
    assert forall|a: int, b: int| 0 <= a < b < after.len() implies (#[trigger] after[a]).path != (
    #[trigger] after[b]).path by {
        assert(entries[a].path != entries[b].path);
    }
    assert forall|path: Seq<u8>| tracks(after, path) == tracks(entries, path) by {
        if tracks(entries, path) {
            let k = slot_of(entries, path);
            assert(after[k].path == path);
        }
        if tracks(after, path) {
            let k = slot_of(after, path);
            assert(entries[k].path == path);
        }
    }
    assert forall|path: Seq<u8>| tracks(entries, path) implies slot_of(after, path) == slot_of(
        entries,
        path,
    ) by {
        let k = slot_of(entries, path);
        assert(after[k].path == path);
        lemma_slot(after, k);
    }
}

/// Adding an entry for an untracked path keeps the index's keys unique and
/// every older entry findable where it was.
pub proof fn lemma_push_keeps_paths(entries: Seq<EntryView>, entry: EntryView)
    requires
        distinct_paths(entries),
        !tracks(entries, entry.path),
    ensures
        distinct_paths(entries.push(entry)),
        forall|path: Seq<u8>|
            tracks(entries.push(entry), path) == (tracks(entries, path) || path == entry.path),
        forall|path: Seq<u8>|
            tracks(entries, path) ==> slot_of(entries.push(entry), path) == slot_of(entries, path),
        slot_of(entries.push(entry), entry.path) == entries.len(),
{
    let after = entries.push(entry);
    assert forall|a: int, b: int| 0 <= a < b < after.len() implies (#[trigger] after[a]).path != (
    #[trigger] after[b]).path by {
        if b < entries.len() {
            assert(entries[a].path != entries[b].path);
        } else {
            assert(after[a] == entries[a]);
            if entries[a].path == entry.path {
                assert(tracks(entries, entry.path));
            }
        }
    }
    assert forall|path: Seq<u8>|
        tracks(after, path) == (tracks(entries, path) || path == entry.path) by {
        if tracks(entries, path) {
            let k = slot_of(entries, path);
            assert(after[k].path == path);
        }
        if path == entry.path {
            assert(after[entries.len() as int].path == path);
        }
        if tracks(after, path) {
            let k = slot_of(after, path);
            if k < entries.len() {
                assert(entries[k].path == path);
            }
        }
    }
    assert forall|path: Seq<u8>| tracks(entries, path) implies slot_of(after, path) == slot_of(
        entries,
        path,
    ) by {
        let k = slot_of(entries, path);
        assert(after[k].path == path);
        lemma_slot(after, k);
    }
    assert(after[entries.len() as int].path == entry.path);
    lemma_slot(after, entries.len() as int);
}

/// Taking an entry out keeps the keys unique, forgets its path and leaves
/// every other path with the entry it had.
pub proof fn lemma_remove_keeps_paths(entries: Seq<EntryView>, i: int)
    requires
        distinct_paths(entries),
        0 <= i < entries.len(),
    ensures
        distinct_paths(entries.remove(i)),
        !tracks(entries.remove(i), entries[i].path),
        forall|path: Seq<u8>|
            path != entries[i].path ==> lookup(entries.remove(i), path) == lookup(entries, path),
{
    let after = entries.remove(i);
    assert forall|a: int, b: int| 0 <= a < b < after.len() implies (#[trigger] after[a]).path != (
    #[trigger] after[b]).path by {
        let a0 = if a < i {
            a
        } else {
            a + 1
        };
        let b0 = if b < i {
            b
        } else {
            b + 1
        };
        assert(after[a] == entries[a0]);
        assert(after[b] == entries[b0]);
        assert(entries[a0].path != entries[b0].path);
    }
    if tracks(after, entries[i].path) {
        let k = slot_of(after, entries[i].path);
        let k0 = if k < i {
            k
        } else {
            k + 1
        };
        assert(after[k] == entries[k0]);
        if k0 < i {
            assert(entries[k0].path != entries[i].path);
        } else {
            assert(entries[i].path != entries[k0].path);
        }
    }
    assert forall|path: Seq<u8>| path != entries[i].path implies lookup(after, path) == lookup(
        entries,
        path,
    ) by {
        if tracks(entries, path) {
            let k = slot_of(entries, path);
            let k1 = if k < i {
                k
            } else {
                k - 1
            };
            assert(after[k1] == entries[k]);
            lemma_slot(after, k1);
        }
        if tracks(after, path) {
            let k = slot_of(after, path);
            let k0 = if k < i {
                k
            } else {
                k + 1
            };
            assert(after[k] == entries[k0]);
            lemma_slot(entries, k0);
        }
    }
}

/// Observing a path keeps the index valid, leaves exactly the observed
/// content at that path, and touches no other path.
pub proof fn lemma_observe(entries: Seq<EntryView>, path: Seq<u8>, content: Option<Fingerprint>)
    requires
        index_wf(entries),
    ensures
        index_wf(observe(entries, path, content)),
        content_at(observe(entries, path, content), path) == content,
        forall|other: Seq<u8>|
            other != path ==> lookup(observe(entries, path, content), other) == lookup(
                entries,
                other,
            ),
        in_flight(entries, path) ==> in_flight(observe(entries, path, content), path),
{
    let after = observe(entries, path, content);
    if tracks(entries, path) {
        let i = slot_of(entries, path);
        if entries[i].content() != content {
            let entry = rewritten(entries[i], content);
            lemma_update_keeps_paths(entries, i, entry);
            assert forall|k: int| 0 <= k < after.len() implies (#[trigger] after[k]).wf() by {
                if k != i {
                    assert(after[k] == entries[k]);
                }
            }
            assert forall|other: Seq<u8>| other != path implies lookup(after, other) == lookup(
                entries,
                other,
            ) by {
                if tracks(entries, other) {
                    let k = slot_of(entries, other);
                    assert(k != i);
                }
            }
        }
    } else {
        match content {
            Some(fingerprint) => {
                lemma_push_keeps_paths(entries, fresh(path, fingerprint));
                assert forall|k: int| 0 <= k < after.len() implies (#[trigger] after[k]).wf() by {
                    if k < entries.len() {
                        assert(after[k] == entries[k]);
                    }
                }
            },
            None => {},
        }
    }
}

/// A transition keeps the index valid and touches no path but its own.
pub proof fn lemma_transit(entries: Seq<EntryView>, path: Seq<u8>, transition: Transition)
    requires
        index_wf(entries),
    ensures
        index_wf(transit(entries, path, transition)),
        forall|other: Seq<u8>|
            other != path ==> lookup(transit(entries, path, transition), other) == lookup(
                entries,
                other,
            ),
{
    let after = transit(entries, path, transition);
    if tracks(entries, path) && permits(entries[slot_of(entries, path)], transition) {
        let i = slot_of(entries, path);
        if transition is Purged {
            lemma_remove_keeps_paths(entries, i);
            assert forall|k: int| 0 <= k < after.len() implies (#[trigger] after[k]).wf() by {
                let k0 = if k < i {
                    k
                } else {
                    k + 1
                };
                assert(after[k] == entries[k0]);
            }
        } else {
            let entry = moved(entries[i], transition);
            lemma_update_keeps_paths(entries, i, entry);
            assert forall|k: int| 0 <= k < after.len() implies (#[trigger] after[k]).wf() by {
                if k != i {
                    assert(after[k] == entries[k]);
                }
            }
            assert forall|other: Seq<u8>| other != path implies lookup(after, other) == lookup(
                entries,
                other,
            ) by {
                if tracks(entries, other) {
                    let k = slot_of(entries, other);
                    assert(k != i);
                }
            }
        }
    }
}

/// A permitted transition leaves the moved entry at its path, or no entry
/// where it purges.
pub proof fn lemma_transit_at(entries: Seq<EntryView>, path: Seq<u8>, transition: Transition)
    requires
        index_wf(entries),
        tracks(entries, path),
        permits(entries[slot_of(entries, path)], transition),
    ensures
        lookup(transit(entries, path, transition), path) == if transition is Purged {
            None
        } else {
            Some(moved(entries[slot_of(entries, path)], transition))
        },
{
    let i = slot_of(entries, path);
    if transition is Purged {
        lemma_remove_keeps_paths(entries, i);
    } else {
        lemma_update_keeps_paths(entries, i, moved(entries[i], transition));
    }
}

/// Whether the task in flight for `path` has been overtaken by a newer
/// local change.
pub open spec fn overtaken(entries: Seq<EntryView>, path: Seq<u8>) -> bool {
    lookup(entries, path) matches Some(entry) && entry.status == SyncStatus::Pending
        && entry.superseded
}

/// Observing a path neither starts nor ends a task, and a task that was
/// overtaken stays overtaken. A change to the content under a task in
/// flight overtakes it.
pub proof fn lemma_observe_tasks(
    entries: Seq<EntryView>,
    path: Seq<u8>,
    content: Option<Fingerprint>,
    other: Seq<u8>,
)
    requires
        index_wf(entries),
    ensures
        in_flight(observe(entries, path, content), other) == in_flight(entries, other),
        overtaken(entries, other) ==> overtaken(observe(entries, path, content), other),
        in_flight(entries, path) && content_at(entries, path) != content ==> overtaken(
            observe(entries, path, content),
            path,
        ),
{
    lemma_observe(entries, path, content);
    let after = observe(entries, path, content);
    if tracks(entries, path) {
        let i = slot_of(entries, path);
        if entries[i].content() != content {
            lemma_update_keeps_paths(entries, i, rewritten(entries[i], content));
        }
    } else {
        match content {
            Some(fingerprint) => {
                lemma_push_keeps_paths(entries, fresh(path, fingerprint));
            },
            None => {},
        }
    }
}

/// One event neither starts nor ends a task, and a task that was overtaken
/// stays overtaken.
pub proof fn lemma_event_tasks(entries: Seq<EntryView>, event: ChangeEventView, other: Seq<u8>)
    requires
        index_wf(entries),
    ensures
        in_flight(apply_event(entries, event), other) == in_flight(entries, other),
        overtaken(entries, other) ==> overtaken(apply_event(entries, event), other),
{
    match event.kind {
        ChangeKindView::Created(fingerprint) => {
            lemma_observe_tasks(entries, event.path, Some(fingerprint), other);
        },
        ChangeKindView::Modified(fingerprint) => {
            lemma_observe_tasks(entries, event.path, Some(fingerprint), other);
        },
        ChangeKindView::Removed => {
            lemma_observe_tasks(entries, event.path, None, other);
        },
        ChangeKindView::Renamed { to, fingerprint } => {
            let emptied = observe(entries, event.path, None);
            lemma_observe(entries, event.path, None);
            lemma_observe_tasks(entries, event.path, None, other);
            lemma_observe_tasks(emptied, to, Some(fingerprint), other);
        },
    }
}

/// A run of events neither starts nor ends a task, and a task that was
/// overtaken stays overtaken.
pub proof fn lemma_events_tasks(
    entries: Seq<EntryView>,
    events: Seq<ChangeEventView>,
    other: Seq<u8>,
)
    requires
        index_wf(entries),
    ensures
        in_flight(apply_events(entries, events), other) == in_flight(entries, other),
        overtaken(entries, other) ==> overtaken(apply_events(entries, events), other),
    decreases events.len(),
{
    if events.len() > 0 {
        lemma_events_tasks(entries, events.drop_last(), other);
        lemma_apply_events_wf(entries, events.drop_last());
        lemma_event_tasks(apply_events(entries, events.drop_last()), events.last(), other);
    }
}

/// One event keeps the index valid.
pub proof fn lemma_apply_event_wf(entries: Seq<EntryView>, event: ChangeEventView)
    requires
        index_wf(entries),
    ensures
        index_wf(apply_event(entries, event)),
{
    match event.kind {
        ChangeKindView::Created(fingerprint) => lemma_observe(entries, event.path, Some(fingerprint)),
        ChangeKindView::Modified(fingerprint) => lemma_observe(
            entries,
            event.path,
            Some(fingerprint),
        ),
        ChangeKindView::Removed => lemma_observe(entries, event.path, None),
        ChangeKindView::Renamed { to, fingerprint } => {
            lemma_observe(entries, event.path, None);
            lemma_observe(observe(entries, event.path, None), to, Some(fingerprint));
        },
    }
}

/// A run of events keeps the index valid.
pub proof fn lemma_apply_events_wf(entries: Seq<EntryView>, events: Seq<ChangeEventView>)
    requires
        index_wf(entries),
    ensures
        index_wf(apply_events(entries, events)),
    decreases events.len(),
{
    if events.len() > 0 {
        lemma_apply_events_wf(entries, events.drop_last());
        lemma_apply_event_wf(apply_events(entries, events.drop_last()), events.last());
    }
}

} // verus!
