//! Bootstrap reconciliation: bringing the index in line with what the
//! local filesystem and the remote service hold.

use vstd::prelude::*;
use crate::indexer::entry::{EntryView, Fingerprint, SyncStatus};
use crate::indexer::model::{
    fresh, in_flight, index_wf, lemma_push_keeps_paths, lemma_slot, lemma_update_keeps_paths,
    lookup, slot_of, tracks,
};

verus! {

/// A file found under a watch target, with the fingerprint computed for it.
#[derive(Debug, PartialEq, Eq)]
pub struct LocalFile {
    pub path: Vec<u8>,
    pub fingerprint: Fingerprint,
}

/// An object the remote service lists.
#[derive(Debug, PartialEq, Eq)]
pub struct RemoteEntry {
    pub path: Vec<u8>,
    pub remote_id: u64,
    pub fingerprint: Fingerprint,
}

/// Mathematical value of a [`LocalFile`].
pub struct LocalFileView {
    pub path: Seq<u8>,
    pub fingerprint: Fingerprint,
}

/// Mathematical value of a [`RemoteEntry`].
pub struct RemoteEntryView {
    pub path: Seq<u8>,
    pub remote_id: u64,
    pub fingerprint: Fingerprint,
}

impl View for LocalFile {
    type V = LocalFileView;

    open spec fn view(&self) -> LocalFileView {
        LocalFileView { path: self.path@, fingerprint: self.fingerprint }
    }
}

impl View for RemoteEntry {
    type V = RemoteEntryView;

    open spec fn view(&self) -> RemoteEntryView {
        RemoteEntryView {
            path: self.path@,
            remote_id: self.remote_id,
            fingerprint: self.fingerprint,
        }
    }
}

impl Clone for LocalFile {
    fn clone(&self) -> (copy: Self)
        ensures
            copy@ == self@,
    {
        LocalFile { path: self.path.clone(), fingerprint: self.fingerprint }
    }
}

impl Clone for RemoteEntry {
    fn clone(&self) -> (copy: Self)
        ensures
            copy@ == self@,
    {
        RemoteEntry {
            path: self.path.clone(),
            remote_id: self.remote_id,
            fingerprint: self.fingerprint,
        }
    }
}

/// The mathematical values of a local listing.
pub open spec fn local_views(files: Seq<LocalFile>) -> Seq<LocalFileView> {
    files.map_values(|file: LocalFile| file@)
}

/// The mathematical values of a remote listing.
pub open spec fn remote_views(objects: Seq<RemoteEntry>) -> Seq<RemoteEntryView> {
    objects.map_values(|object: RemoteEntry| object@)
}

/// What becomes of a path that only the remote holds.
#[derive(Clone, Copy, Debug, PartialEq, Eq, Structural)]
pub enum RemoteOnlyPolicy {
    /// Track it as a placeholder that waits to be fetched.
    Recreate,
    /// Track it as a placeholder in conflict, for an operator to settle.
    Conflict,
}

/// Whether the local listing holds `path`.
pub open spec fn local_has(local: Seq<LocalFileView>, path: Seq<u8>) -> bool {
    exists|k: int| 0 <= k < local.len() && (#[trigger] local[k]).path == path
}

/// Whether `k` is the first object the remote lists for `path`.
pub open spec fn remote_at(remote: Seq<RemoteEntryView>, path: Seq<u8>, k: int) -> bool {
    &&& 0 <= k < remote.len()
    &&& remote[k].path == path
    &&& forall|j: int| 0 <= j < k ==> (#[trigger] remote[j]).path != path
}

/// The first object the remote lists for `path`, if it lists one.
pub open spec fn remote_match(remote: Seq<RemoteEntryView>, path: Seq<u8>) -> Option<
    RemoteEntryView,
> {
    if exists|k: int| remote_at(remote, path, k) {
        Some(remote[choose|k: int| remote_at(remote, path, k)])
    } else {
        None
    }
}

/// The entry for a local file, given what the remote lists for its path:
/// `Synced` where the fingerprints agree, `Unsynced` where they differ
/// (the local content wins) or where the remote lists nothing.
pub open spec fn matched(file: LocalFileView, remote: Option<RemoteEntryView>) -> EntryView {
    match remote {
        Some(object) => EntryView {
            path: file.path,
            fingerprint: file.fingerprint,
            remote_id: Some(object.remote_id),
            status: if object.fingerprint == file.fingerprint {
                SyncStatus::Synced
            } else {
                SyncStatus::Unsynced
            },
            deleted: false,
            placeholder: false,
            superseded: false,
        },
        None => fresh(file.path, file.fingerprint),
    }
}

/// The placeholder for an object that only the remote holds.
pub open spec fn placeholder_for(object: RemoteEntryView, policy: RemoteOnlyPolicy) -> EntryView {
    EntryView {
        path: object.path,
        fingerprint: object.fingerprint,
        remote_id: Some(object.remote_id),
        status: match policy {
            RemoteOnlyPolicy::Recreate => SyncStatus::Unsynced,
            RemoteOnlyPolicy::Conflict => SyncStatus::Conflicted,
        },
        deleted: false,
        placeholder: true,
        superseded: false,
    }
}

/// The index after one local file was reconciled. An entry with a task in
/// flight is left to that task; any other entry for the path is replaced;
/// an untracked path gains an entry at the end.
pub open spec fn reconcile_local(
    entries: Seq<EntryView>,
    file: LocalFileView,
    remote: Seq<RemoteEntryView>,
) -> Seq<EntryView> {
    let entry = matched(file, remote_match(remote, file.path));
    if tracks(entries, file.path) {
        let i = slot_of(entries, file.path);
        if entries[i].status == SyncStatus::Pending {
            entries
        } else {
            entries.update(i, entry)
        }
    } else {
        entries.push(entry)
    }
}

/// The index after one remote object was reconciled. Only an object whose
/// path is neither in the local listing nor tracked adds anything: its
/// placeholder.
pub open spec fn reconcile_remote(
    entries: Seq<EntryView>,
    object: RemoteEntryView,
    local: Seq<LocalFileView>,
    policy: RemoteOnlyPolicy,
) -> Seq<EntryView> {
    if local_has(local, object.path) || tracks(entries, object.path) {
        entries
    } else {
        entries.push(placeholder_for(object, policy))
    }
}

/// The index after the first `n` local files were reconciled, in order.
pub open spec fn reconcile_locals(
    entries: Seq<EntryView>,
    local: Seq<LocalFileView>,
    remote: Seq<RemoteEntryView>,
    n: int,
) -> Seq<EntryView>
    decreases n,
{
    if n <= 0 {
        entries
    } else {
        reconcile_local(reconcile_locals(entries, local, remote, n - 1), local[n - 1], remote)
    }
}

/// The index after the first `n` remote objects were reconciled, in order.
pub open spec fn reconcile_remotes(
    entries: Seq<EntryView>,
    remote: Seq<RemoteEntryView>,
    local: Seq<LocalFileView>,
    policy: RemoteOnlyPolicy,
    n: int,
) -> Seq<EntryView>
    decreases n,
{
    if n <= 0 {
        entries
    } else {
        reconcile_remote(
            reconcile_remotes(entries, remote, local, policy, n - 1),
            remote[n - 1],
            local,
            policy,
        )
    }
}

/// The index after a reconciliation against a local and a remote listing:
/// every local file first, then every remote object.
pub open spec fn reconcile(
    entries: Seq<EntryView>,
    local: Seq<LocalFileView>,
    remote: Seq<RemoteEntryView>,
    policy: RemoteOnlyPolicy,
) -> Seq<EntryView> {
    reconcile_remotes(
        reconcile_locals(entries, local, remote, local.len() as int),
        remote,
        local,
        policy,
        remote.len() as int,
    )
}

/// The first object for a path is unique.
pub proof fn lemma_remote_match(remote: Seq<RemoteEntryView>, path: Seq<u8>, k: int)
    requires
        remote_at(remote, path, k),
    ensures
        remote_match(remote, path) == Some(remote[k]),
{
    let c = choose|c: int| remote_at(remote, path, c);
    assert(remote_at(remote, path, c));
    if c < k {
        assert(remote[c].path != path);
    } else if k < c {
        assert(remote[k].path != path);
    }
}

/// Reconciling one local file keeps the index valid, settles the file's
/// path and touches no other.
pub proof fn lemma_reconcile_local_wf(
    entries: Seq<EntryView>,
    file: LocalFileView,
    remote: Seq<RemoteEntryView>,
)
    requires
        index_wf(entries),
    ensures
        index_wf(reconcile_local(entries, file, remote)),
        lookup(reconcile_local(entries, file, remote), file.path) == settled(
            lookup(entries, file.path),
            file.path,
            Some(file.fingerprint),
            remote_match(remote, file.path),
        ),
        forall|other: Seq<u8>|
            other != file.path ==> lookup(reconcile_local(entries, file, remote), other) == lookup(
                entries,
                other,
            ),
{
    let entry = matched(file, remote_match(remote, file.path));
    let after = reconcile_local(entries, file, remote);
    if tracks(entries, file.path) {
        let i = slot_of(entries, file.path);
        if entries[i].status != SyncStatus::Pending {
            lemma_update_keeps_paths(entries, i, entry);
            assert forall|k: int| 0 <= k < after.len() implies (#[trigger] after[k]).wf() by {
                if k != i {
                    assert(after[k] == entries[k]);
                }
            }
            assert forall|other: Seq<u8>| other != file.path implies lookup(after, other)
                == lookup(entries, other) by {
                if tracks(entries, other) {
                    let k = slot_of(entries, other);
                    assert(k != i);
                }
            }
        }
    } else {
        lemma_push_keeps_paths(entries, entry);
        assert forall|k: int| 0 <= k < after.len() implies (#[trigger] after[k]).wf() by {
            if k < entries.len() {
                assert(after[k] == entries[k]);
            }
        }
        assert forall|other: Seq<u8>| other != file.path implies lookup(after, other) == lookup(
            entries,
            other,
        ) by {
            if tracks(entries, other) {
                let k = slot_of(entries, other);
                assert(after[k] == entries[k]);
            }
        }
    }
}

/// Reconciling one remote object keeps the index valid and every entry
/// where it was; afterwards the object's path is tracked or listed locally.
pub proof fn lemma_reconcile_remote_wf(
    entries: Seq<EntryView>,
    object: RemoteEntryView,
    local: Seq<LocalFileView>,
    policy: RemoteOnlyPolicy,
)
    requires
        index_wf(entries),
    ensures
        index_wf(reconcile_remote(entries, object, local, policy)),
        local_has(local, object.path) || tracks(
            reconcile_remote(entries, object, local, policy),
            object.path,
        ),
        forall|other: Seq<u8>|
            tracks(entries, other) ==> lookup(
                reconcile_remote(entries, object, local, policy),
                other,
            ) == lookup(entries, other),
{
    let after = reconcile_remote(entries, object, local, policy);
    if !(local_has(local, object.path) || tracks(entries, object.path)) {
        lemma_push_keeps_paths(entries, placeholder_for(object, policy));
        assert forall|k: int| 0 <= k < after.len() implies (#[trigger] after[k]).wf() by {
            if k < entries.len() {
                assert(after[k] == entries[k]);
            }
        }
        assert forall|other: Seq<u8>| tracks(entries, other) implies lookup(after, other)
            == lookup(entries, other) by {
            let k = slot_of(entries, other);
            assert(after[k] == entries[k]);
        }
    }
}

/// The fingerprint that the first `n` files of a local listing give
/// `path`: where the listing names a path twice, the later file counts.
pub open spec fn local_print(local: Seq<LocalFileView>, path: Seq<u8>, n: int) -> Option<
    Fingerprint,
>
    decreases n,
{
    if n <= 0 {
        None
    } else if local[n - 1].path == path {
        Some(local[n - 1].fingerprint)
    } else {
        local_print(local, path, n - 1)
    }
}

/// What reconciliation makes of one path: with a local file there, the
/// entry matched against the remote (unless a task is in flight, which
/// keeps the entry as it is); without one, whatever was there.
pub open spec fn settled(
    current: Option<EntryView>,
    path: Seq<u8>,
    print: Option<Fingerprint>,
    remote: Option<RemoteEntryView>,
) -> Option<EntryView> {
    match print {
        Some(fingerprint) => if current matches Some(entry) && entry.status
            == SyncStatus::Pending {
            current
        } else {
            Some(matched(LocalFileView { path, fingerprint }, remote))
        },
        None => current,
    }
}

/// A path that the listing gives a fingerprint is in the listing, and the
/// other way round.
pub proof fn lemma_local_print(local: Seq<LocalFileView>, path: Seq<u8>, n: int)
    requires
        0 <= n <= local.len(),
    ensures
        local_print(local, path, n) is Some <==> exists|k: int|
            0 <= k < n && (#[trigger] local[k]).path == path,
    decreases n,
{
    if n > 0 {
        lemma_local_print(local, path, n - 1);
        if local[n - 1].path == path {
        } else {
            if exists|k: int| 0 <= k < n && (#[trigger] local[k]).path == path {
                let k = choose|k: int| 0 <= k < n && (#[trigger] local[k]).path == path;
                assert(0 <= k < n - 1);
            }
        }
    }
}

/// After the first `n` local files, every path holds what [`settled`]
/// says of it.
pub proof fn lemma_locals_settle(
    entries: Seq<EntryView>,
    local: Seq<LocalFileView>,
    remote: Seq<RemoteEntryView>,
    n: int,
)
    requires
        index_wf(entries),
        0 <= n <= local.len(),
    ensures
        index_wf(reconcile_locals(entries, local, remote, n)),
        forall|path: Seq<u8>|
            #[trigger] lookup(reconcile_locals(entries, local, remote, n), path) == settled(
                lookup(entries, path),
                path,
                local_print(local, path, n),
                remote_match(remote, path),
            ),
    decreases n,
{
    if n > 0 {
        let before = reconcile_locals(entries, local, remote, n - 1);
        let file = local[n - 1];
        let after = reconcile_locals(entries, local, remote, n);
        lemma_locals_settle(entries, local, remote, n - 1);
        lemma_reconcile_local_wf(before, file, remote);
        assert forall|path: Seq<u8>| #[trigger] lookup(after, path) == settled(
            lookup(entries, path),
            path,
            local_print(local, path, n),
            remote_match(remote, path),
        ) by {
            assert(lookup(before, path) == settled(
                lookup(entries, path),
                path,
                local_print(local, path, n - 1),
                remote_match(remote, path),
            ));
            if path == file.path {
                assert(file == LocalFileView { path, fingerprint: file.fingerprint });
            } else {
                assert(lookup(after, path) == lookup(before, path));
            }
        }
    }
}

/// Local files whose paths are all tracked already add no entry and move
/// none.
pub proof fn lemma_locals_shape(
    entries: Seq<EntryView>,
    local: Seq<LocalFileView>,
    remote: Seq<RemoteEntryView>,
    n: int,
)
    requires
        index_wf(entries),
        0 <= n <= local.len(),
        forall|k: int| 0 <= k < n ==> tracks(entries, (#[trigger] local[k]).path),
    ensures
        reconcile_locals(entries, local, remote, n).len() == entries.len(),
        forall|i: int|
            0 <= i < entries.len() ==> (#[trigger] reconcile_locals(
                entries,
                local,
                remote,
                n,
            )[i]).path == entries[i].path,
    decreases n,
{
    if n > 0 {
        let before = reconcile_locals(entries, local, remote, n - 1);
        let file = local[n - 1];
        lemma_locals_shape(entries, local, remote, n - 1);
        assert(tracks(entries, file.path));
        let i = slot_of(entries, file.path);
        assert(before[i].path == file.path);
        assert(tracks(before, file.path));
    }
}

/// Remote objects only add entries at the end: what was tracked stays
/// where it was, each added entry names a path the local listing lacks,
/// and every object's path ends up tracked or listed locally.
pub proof fn lemma_remotes_extend(
    entries: Seq<EntryView>,
    remote: Seq<RemoteEntryView>,
    local: Seq<LocalFileView>,
    policy: RemoteOnlyPolicy,
    n: int,
)
    requires
        index_wf(entries),
        0 <= n <= remote.len(),
    ensures
        index_wf(reconcile_remotes(entries, remote, local, policy, n)),
        reconcile_remotes(entries, remote, local, policy, n).len() >= entries.len(),
        forall|i: int|
            0 <= i < entries.len() ==> (#[trigger] reconcile_remotes(
                entries,
                remote,
                local,
                policy,
                n,
            )[i]) == entries[i],
        forall|i: int|
            entries.len() <= i < reconcile_remotes(entries, remote, local, policy, n).len()
                ==> !local_has(
                local,
                (#[trigger] reconcile_remotes(entries, remote, local, policy, n)[i]).path,
            ),
        forall|k: int|
            0 <= k < n ==> local_has(local, (#[trigger] remote[k]).path) || tracks(
                reconcile_remotes(entries, remote, local, policy, n),
                remote[k].path,
            ),
    decreases n,
{
    if n > 0 {
        let before = reconcile_remotes(entries, remote, local, policy, n - 1);
        let object = remote[n - 1];
        let after = reconcile_remotes(entries, remote, local, policy, n);
        lemma_remotes_extend(entries, remote, local, policy, n - 1);
        lemma_reconcile_remote_wf(before, object, local, policy);
        assert forall|i: int| 0 <= i < entries.len() implies (#[trigger] after[i])
            == entries[i] by {
            assert(before[i] == entries[i]);
        }
        assert forall|i: int| entries.len() <= i < after.len() implies !local_has(
            local,
            (#[trigger] after[i]).path,
        ) by {
            if i < before.len() {
                assert(after[i] == before[i]);
            }
        }
        assert forall|k: int| 0 <= k < n implies local_has(local, (#[trigger] remote[k]).path)
            || tracks(after, remote[k].path) by {
            if k < n - 1 {
                if !local_has(local, remote[k].path) {
                    assert(tracks(before, remote[k].path));
                    assert(lookup(after, remote[k].path) == lookup(before, remote[k].path));
                }
            }
        }
    }
}

/// Remote objects whose paths are all tracked or listed locally change
/// nothing.
pub proof fn lemma_remotes_settled(
    entries: Seq<EntryView>,
    remote: Seq<RemoteEntryView>,
    local: Seq<LocalFileView>,
    policy: RemoteOnlyPolicy,
    n: int,
)
    requires
        0 <= n <= remote.len(),
        forall|k: int|
            0 <= k < n ==> local_has(local, (#[trigger] remote[k]).path) || tracks(
                entries,
                remote[k].path,
            ),
    ensures
        reconcile_remotes(entries, remote, local, policy, n) == entries,
    decreases n,
{
    if n > 0 {
        lemma_remotes_settled(entries, remote, local, policy, n - 1);
        assert(local_has(local, remote[n - 1].path) || tracks(entries, remote[n - 1].path));
    }
}

/// Reconciliation keeps the index valid.
pub proof fn lemma_reconcile_wf(
    entries: Seq<EntryView>,
    local: Seq<LocalFileView>,
    remote: Seq<RemoteEntryView>,
    policy: RemoteOnlyPolicy,
)
    requires
        index_wf(entries),
    ensures
        index_wf(reconcile(entries, local, remote, policy)),
{
    lemma_locals_settle(entries, local, remote, local.len() as int);
    lemma_remotes_extend(
        reconcile_locals(entries, local, remote, local.len() as int),
        remote,
        local,
        policy,
        remote.len() as int,
    );
}

/// Reconciliation neither starts nor ends a task.
pub proof fn lemma_reconcile_tasks(
    entries: Seq<EntryView>,
    local: Seq<LocalFileView>,
    remote: Seq<RemoteEntryView>,
    policy: RemoteOnlyPolicy,
    path: Seq<u8>,
)
    requires
        index_wf(entries),
    ensures
        in_flight(reconcile(entries, local, remote, policy), path) == in_flight(entries, path),
{
    let files = local.len() as int;
    let halfway = reconcile_locals(entries, local, remote, files);
    let after = reconcile(entries, local, remote, policy);
    lemma_locals_settle(entries, local, remote, files);
    lemma_remotes_extend(halfway, remote, local, policy, remote.len() as int);
    assert(lookup(halfway, path) == settled(
        lookup(entries, path),
        path,
        local_print(local, path, files),
        remote_match(remote, path),
    ));
    assert(in_flight(halfway, path) == in_flight(entries, path));
    if tracks(halfway, path) {
        let i = slot_of(halfway, path);
        assert(after[i] == halfway[i]);
        lemma_slot(after, i);
    } else if tracks(after, path) {
        let i = slot_of(after, path);
        if i < halfway.len() {
            assert(after[i] == halfway[i]);
        } else {
            lemma_remotes_placeholders(halfway, remote, local, policy, remote.len() as int);
        }
    }
}

/// Every entry that the remote objects add is a placeholder with no task
/// in flight.
pub proof fn lemma_remotes_placeholders(
    entries: Seq<EntryView>,
    remote: Seq<RemoteEntryView>,
    local: Seq<LocalFileView>,
    policy: RemoteOnlyPolicy,
    n: int,
)
    requires
        index_wf(entries),
        0 <= n <= remote.len(),
    ensures
        forall|i: int|
            entries.len() <= i < reconcile_remotes(entries, remote, local, policy, n).len() ==> (
            #[trigger] reconcile_remotes(entries, remote, local, policy, n)[i]).status
                != SyncStatus::Pending,
    decreases n,
{
    if n > 0 {
        let before = reconcile_remotes(entries, remote, local, policy, n - 1);
        let after = reconcile_remotes(entries, remote, local, policy, n);
        lemma_remotes_placeholders(entries, remote, local, policy, n - 1);
        lemma_remotes_extend(entries, remote, local, policy, n - 1);
        assert forall|i: int| entries.len() <= i < after.len() implies (#[trigger] after[i]).status
            != SyncStatus::Pending by {
            if i < before.len() {
                assert(after[i] == before[i]);
            }
        }
    }
}

/// Reconciliation is idempotent: run a second time against the same two
/// listings, with nothing changed in between, it leaves the index exactly
/// as the first run made it.
pub proof fn law_reconcile_idempotent(
    entries: Seq<EntryView>,
    local: Seq<LocalFileView>,
    remote: Seq<RemoteEntryView>,
    policy: RemoteOnlyPolicy,
)
    requires
        index_wf(entries),
    ensures
        reconcile(reconcile(entries, local, remote, policy), local, remote, policy) == reconcile(
            entries,
            local,
            remote,
            policy,
        ),
{
    let files = local.len() as int;
    let objects = remote.len() as int;
    let halfway = reconcile_locals(entries, local, remote, files);
    let once = reconcile(entries, local, remote, policy);
    lemma_locals_settle(entries, local, remote, files);
    lemma_remotes_extend(halfway, remote, local, policy, objects);

    // Every local path is tracked after the first run.
    assert forall|k: int| 0 <= k < files implies tracks(once, (#[trigger] local[k]).path) by {
        let path = local[k].path;
        lemma_local_print(local, path, files);
        assert(lookup(halfway, path) is Some);
        let i = slot_of(halfway, path);
        assert(once[i] == halfway[i]);
    }
    let again = reconcile_locals(once, local, remote, files);
    lemma_locals_shape(once, local, remote, files);
    lemma_locals_settle(once, local, remote, files);

    assert forall|i: int| 0 <= i < once.len() implies again[i] == once[i] by {
        let path = once[i].path;
        assert(again[i].path == path);
        lemma_slot(again, i);
        lemma_slot(once, i);
        lemma_local_print(local, path, files);
        assert(lookup(again, path) == settled(
            lookup(once, path),
            path,
            local_print(local, path, files),
            remote_match(remote, path),
        ));
        match local_print(local, path, files) {
            Some(fingerprint) => {
                if once[i].status != SyncStatus::Pending {
                    assert(i < halfway.len()) by {
                        if i >= halfway.len() {
                            assert(!local_has(local, once[i].path));
                            let k = choose|k: int|
                                0 <= k < files && (#[trigger] local[k]).path == path;
                            assert(local[k].path == path);
                        }
                    }
                    assert(once[i] == halfway[i]);
                    lemma_slot(halfway, i);
                    assert(lookup(halfway, path) == settled(
                        lookup(entries, path),
                        path,
                        local_print(local, path, files),
                        remote_match(remote, path),
                    ));
                }
            },
            None => {},
        }
    }
    assert(again =~= once);
    lemma_remotes_settled(once, remote, local, policy, objects);
}

} // verus!
