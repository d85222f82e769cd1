//! The indexer: sole owner of the index, reached only through methods.

use vstd::prelude::*;
use crate::indexer::entry::{same_path, EntryView, Fingerprint, IndexEntry, SyncStatus};
use crate::indexer::event::{ChangeEvent, ChangeKind};
use crate::indexer::reconcile::{
    lemma_reconcile_local_wf, lemma_reconcile_remote_wf, lemma_remote_match, local_has,
    local_views, reconcile, reconcile_local, reconcile_locals, reconcile_remote,
    reconcile_remotes, remote_at, remote_match, remote_views, LocalFile, RemoteEntry,
    RemoteOnlyPolicy,
};
use crate::indexer::model::{
    apply_event, count_pending, first_unsynced, first_unsynced_at, has_unsynced, index_wf,
    lemma_first_unsynced, lemma_observe, lemma_slot, lemma_transit, lookup, observe, permits,
    slot_of, tracks, transit, Transition,
};

verus! {

/// The mathematical values of a run of entries.
pub open spec fn views(entries: Seq<IndexEntry>) -> Seq<EntryView> {
    entries.map_values(|entry: IndexEntry| entry@)
}

/// The authoritative index from local path to entry.
///
/// Entries keep the order in which their paths were first tracked; no two
/// share a path.
pub struct Indexer {
    entries: Vec<IndexEntry>,
}

impl View for Indexer {
    type V = Seq<EntryView>;

    closed spec fn view(&self) -> Seq<EntryView> {
        views(self.entries@)
    }
}

/// Where the remote listing first names `path`.
fn first_remote(remote: &Vec<RemoteEntry>, path: &Vec<u8>) -> (found: Option<usize>)
    ensures
        match found {
            Some(k) => k < remote.len() && remote_match(remote_views(remote@), path@) == Some(
                remote@[k as int]@,
            ),
            None => remote_match(remote_views(remote@), path@) is None,
        },
{
    let ghost objects = remote_views(remote@);
    let mut k: usize = 0;
    while k < remote.len()
        invariant
            k <= remote.len(),
            objects == remote_views(remote@),
            forall|j: int| 0 <= j < k ==> (#[trigger] objects[j]).path != path@,
        decreases remote.len() - k,
    {
        if same_path(&remote[k].path, path) {
            proof {
                assert(remote_at(objects, path@, k as int));
                lemma_remote_match(objects, path@, k as int);
            }
            return Some(k);
        }
        k += 1;
    }
    proof {
        if exists|c: int| remote_at(objects, path@, c) {
            let c = choose|c: int| remote_at(objects, path@, c);
            assert(objects[c].path != path@);
        }
    }
    None
}

/// Whether the local listing names `path`.
fn listed_locally(local: &Vec<LocalFile>, path: &Vec<u8>) -> (listed: bool)
    ensures
        listed == local_has(local_views(local@), path@),
{
    let ghost files = local_views(local@);
    let mut k: usize = 0;
    while k < local.len()
        invariant
            k <= local.len(),
            files == local_views(local@),
            forall|j: int| 0 <= j < k ==> (#[trigger] files[j]).path != path@,
        decreases local.len() - k,
    {
        if same_path(&local[k].path, path) {
            assert(files[k as int].path == path@);
            return true;
        }
        k += 1;
    }
    false
}

impl Indexer {
    /// Validity of the index.
    pub open spec fn wf(&self) -> bool {
        index_wf(self@)
    }

    /// An index that tracks nothing.
    pub fn new() -> (index: Self)
        ensures
            index@ == Seq::<EntryView>::empty(),
            index.wf(),
    {
        let index = Indexer { entries: Vec::new() };
        assert(index@ =~= Seq::<EntryView>::empty());
        index
    }

    /// How many paths the index tracks.
    pub fn len(&self) -> (len: usize)
        ensures
            len == self@.len(),
    {
        self.entries.len()
    }

    /// Whether the index tracks nothing.
    pub fn is_empty(&self) -> (empty: bool)
        ensures
            empty == (self@.len() == 0),
    {
        self.entries.len() == 0
    }

    /// Where the entry for `path` stands.
    fn position(&self, path: &Vec<u8>) -> (slot: Option<usize>)
        requires
            self.wf(),
        ensures
            match slot {
                Some(i) => tracks(self@, path@) && i == slot_of(self@, path@),
                None => !tracks(self@, path@),
            },
    {
        let mut i: usize = 0;
        while i < self.entries.len()
            invariant
                i <= self.entries.len(),
                self.wf(),
                forall|k: int| 0 <= k < i ==> (#[trigger] self@[k]).path != path@,
            decreases self.entries.len() - i,
        {
            if same_path(&self.entries[i].path, path) {
                proof {
                    lemma_slot(self@, i as int);
                }
                return Some(i);
            }
            i += 1;
        }
        None
    }

    /// The entry for `path`, if the index tracks it.
    pub fn get(&self, path: &Vec<u8>) -> (found: Option<IndexEntry>)
        requires
            self.wf(),
        ensures
            match found {
                Some(entry) => lookup(self@, path@) == Some(entry@),
                None => lookup(self@, path@) is None,
            },
    {
        match self.position(path) {
            Some(i) => Some(self.entries[i].clone()),
            None => None,
        }
    }

    /// A point-in-time copy of every entry, in index order.
    pub fn snapshot(&self) -> (listing: Vec<IndexEntry>)
        ensures
            views(listing@) == self@,
    {
        let mut listing: Vec<IndexEntry> = Vec::new();
        let mut i: usize = 0;
        while i < self.entries.len()
            invariant
                i <= self.entries.len(),
                listing@.len() == i,
                forall|k: int| 0 <= k < i ==> (#[trigger] listing@[k])@ == self.entries@[k]@,
            decreases self.entries.len() - i,
        {
            listing.push(self.entries[i].clone());
            i += 1;
        }
        assert(views(listing@) =~= self@);
        listing
    }

    /// Records that the filesystem holds `content` at `path` (`None`: no
    /// file).
    pub fn observe(&mut self, path: &Vec<u8>, content: Option<Fingerprint>)
        requires
            old(self).wf(),
        ensures
            final(self)@ == observe(old(self)@, path@, content),
            final(self).wf(),
    {
        proof {
            lemma_observe(self@, path@, content);
        }
        match self.position(path) {
            Some(i) => {
                let current = self.entries[i].content();
                if !(current == content) {
                    let in_flight = self.entries[i].status == SyncStatus::Pending;
                    match content {
                        Some(fingerprint) => {
                            self.entries[i].fingerprint = fingerprint;
                            self.entries[i].deleted = false;
                            self.entries[i].placeholder = false;
                        },
                        None => {
                            self.entries[i].deleted = true;
                        },
                    }
                    if !in_flight {
                        self.entries[i].status = SyncStatus::Unsynced;
                    }
                    self.entries[i].superseded = in_flight;
                }
            },
            None => {
                if let Some(fingerprint) = content {
                    self.entries.push(
                        IndexEntry {
                            path: path.clone(),
                            fingerprint,
                            remote_id: None,
                            status: SyncStatus::Unsynced,
                            deleted: false,
                            placeholder: false,
                            superseded: false,
                        },
                    );
                }
            },
        }
        assert(self@ =~= observe(old(self)@, path@, content));
    }

    /// Applies one watcher event.
    ///
    /// A creation or modification upserts the entry as `Unsynced` unless
    /// the fingerprint is the stored one; a removal marks the entry for
    /// deletion; a rename is a removal of the old name and a creation of
    /// the new one.
    pub fn apply(&mut self, event: &ChangeEvent)
        requires
            old(self).wf(),
        ensures
            final(self)@ == apply_event(old(self)@, event@),
            final(self).wf(),
    {
        match &event.kind {
            ChangeKind::Created(fingerprint) => self.observe(&event.path, Some(*fingerprint)),
            ChangeKind::Modified(fingerprint) => self.observe(&event.path, Some(*fingerprint)),
            ChangeKind::Removed => self.observe(&event.path, None),
            ChangeKind::Renamed { to, fingerprint } => {
                self.observe(&event.path, None);
                self.observe(to, Some(*fingerprint));
            },
        }
    }

    /// Brings the index in line with a local and a remote listing.
    ///
    /// A path in both listings is `Synced` where the fingerprints agree and
    /// `Unsynced` where they differ; a path only in the local listing is
    /// `Unsynced`; a path only in the remote listing, and not tracked yet,
    /// gains a placeholder whose status the policy picks. An entry with a
    /// task in flight is left alone.
    pub fn reconcile(
        &mut self,
        local: &Vec<LocalFile>,
        remote: &Vec<RemoteEntry>,
        policy: RemoteOnlyPolicy,
    )
        requires
            old(self).wf(),
        ensures
            final(self)@ == reconcile(
                old(self)@,
                local_views(local@),
                remote_views(remote@),
                policy,
            ),
            final(self).wf(),
    {
        let ghost files = local_views(local@);
        let ghost objects = remote_views(remote@);
        let mut i: usize = 0;
        while i < local.len()
            invariant
                i <= local.len(),
                files == local_views(local@),
                objects == remote_views(remote@),
                self.wf(),
                self@ == reconcile_locals(old(self)@, files, objects, i as int),
            decreases local.len() - i,
        {
            let ghost before = self@;
            proof {
                lemma_reconcile_local_wf(before, files[i as int], objects);
            }
            let file = &local[i];
            let listed = first_remote(remote, &file.path);
            let entry = match listed {
                Some(k) => IndexEntry {
                    path: file.path.clone(),
                    fingerprint: file.fingerprint,
                    remote_id: Some(remote[k].remote_id),
                    status: if remote[k].fingerprint == file.fingerprint {
                        SyncStatus::Synced
                    } else {
                        SyncStatus::Unsynced
                    },
                    deleted: false,
                    placeholder: false,
                    superseded: false,
                },
                None => IndexEntry {
                    path: file.path.clone(),
                    fingerprint: file.fingerprint,
                    remote_id: None,
                    status: SyncStatus::Unsynced,
                    deleted: false,
                    placeholder: false,
                    superseded: false,
                },
            };
            match self.position(&file.path) {
                Some(slot) => {
                    if self.entries[slot].status != SyncStatus::Pending {
                        self.entries[slot] = entry;
                    }
                },
                None => {
                    self.entries.push(entry);
                },
            }
            assert(self@ =~= reconcile_local(before, files[i as int], objects));
            i += 1;
        }
        let ghost halfway = self@;
        let mut k: usize = 0;
        while k < remote.len()
            invariant
                k <= remote.len(),
                files == local_views(local@),
                objects == remote_views(remote@),
                self.wf(),
                self@ == reconcile_remotes(halfway, objects, files, policy, k as int),
            decreases remote.len() - k,
        {
            let ghost before = self@;
            proof {
                lemma_reconcile_remote_wf(before, objects[k as int], files, policy);
            }
            let object = &remote[k];
            if !listed_locally(local, &object.path) && self.position(&object.path).is_none() {
                self.entries.push(
                    IndexEntry {
                        path: object.path.clone(),
                        fingerprint: object.fingerprint,
                        remote_id: Some(object.remote_id),
                        status: match policy {
                            RemoteOnlyPolicy::Recreate => SyncStatus::Unsynced,
                            RemoteOnlyPolicy::Conflict => SyncStatus::Conflicted,
                        },
                        deleted: false,
                        placeholder: true,
                        superseded: false,
                    },
                );
            }
            assert(self@ =~= reconcile_remote(before, objects[k as int], files, policy));
            k += 1;
        }
    }

    /// The index a starting daemon begins with: an empty index reconciled
    /// against the two listings.
    pub fn bootstrap(local: &Vec<LocalFile>, remote: &Vec<RemoteEntry>, policy: RemoteOnlyPolicy) -> (index:
        Self)
        ensures
            index@ == reconcile(
                Seq::<EntryView>::empty(),
                local_views(local@),
                remote_views(remote@),
                policy,
            ),
            index.wf(),
    {
        let mut index = Indexer::new();
        index.reconcile(local, remote, policy);
        index
    }

    /// Asks for a status transition of the entry for `path`. Returns
    /// whether the index made it; a request the entry does not permit
    /// changes nothing.
    pub fn transition(&mut self, path: &Vec<u8>, transition: Transition) -> (made: bool)
        requires
            old(self).wf(),
        ensures
            made == (lookup(old(self)@, path@) matches Some(entry) && permits(entry, transition)),
            final(self)@ == transit(old(self)@, path@, transition),
            final(self).wf(),
    {
        proof {
            lemma_transit(self@, path@, transition);
        }
        let slot = self.position(path);
        let made = match slot {
            Some(i) => {
                let status = self.entries[i].status;
                let superseded = self.entries[i].superseded;
                let deleted = self.entries[i].deleted;
                let known = self.entries[i].remote_id.is_some();
                let in_flight = status == SyncStatus::Pending;
                match transition {
                    Transition::Start => {
                        if status == SyncStatus::Unsynced {
                            self.entries[i].status = SyncStatus::Pending;
                            self.entries[i].superseded = false;
                            true
                        } else {
                            false
                        }
                    },
                    Transition::Synced { remote_id } => {
                        if in_flight && !superseded && !deleted {
                            self.entries[i].status = SyncStatus::Synced;
                            self.entries[i].remote_id = Some(remote_id);
                            self.entries[i].placeholder = false;
                            true
                        } else {
                            false
                        }
                    },
                    Transition::Conflicted => {
                        if in_flight && !superseded {
                            self.entries[i].status = SyncStatus::Conflicted;
                            true
                        } else {
                            false
                        }
                    },
                    Transition::Released { remote } => {
                        if in_flight && superseded {
                            self.entries[i].status = SyncStatus::Unsynced;
                            self.entries[i].superseded = false;
                            self.entries[i].remote_id = remote;
                            true
                        } else {
                            false
                        }
                    },
                    Transition::Purged => {
                        if (in_flight && !superseded && deleted) || (status == SyncStatus::Unsynced
                            && deleted && !known) {
                            self.entries.remove(i);
                            true
                        } else {
                            false
                        }
                    },
                }
            },
            None => false,
        };
        assert(self@ =~= transit(old(self)@, path@, transition));
        made
    }

    /// The first entry, in index order, that waits for a task.
    pub fn next_unsynced(&self) -> (next: Option<IndexEntry>)
        ensures
            match next {
                Some(entry) => has_unsynced(self@) && entry@ == self@[first_unsynced(self@)],
                None => !has_unsynced(self@),
            },
    {
        let mut i: usize = 0;
        while i < self.entries.len()
            invariant
                i <= self.entries.len(),
                forall|k: int| 0 <= k < i ==> (#[trigger] self@[k]).status != SyncStatus::Unsynced,
            decreases self.entries.len() - i,
        {
            if self.entries[i].status == SyncStatus::Unsynced {
                proof {
                    assert(first_unsynced_at(self@, i as int));
                    lemma_first_unsynced(self@, i as int);
                }
                return Some(self.entries[i].clone());
            }
            i += 1;
        }
        proof {
            if has_unsynced(self@) {
                let k = first_unsynced(self@);
                assert(first_unsynced_at(self@, k));
                assert(self@[k].status != SyncStatus::Unsynced);
            }
        }
        None
    }

    /// How many entries have a task in flight.
    pub fn pending_count(&self) -> (count: usize)
        ensures
            count == count_pending(self@),
    {
        let mut count: usize = 0;
        let mut i: usize = 0;
        while i < self.entries.len()
            invariant
                i <= self.entries.len(),
                count <= i,
                count == count_pending(self@.take(i as int)),
            decreases self.entries.len() - i,
        {
            proof {
                assert(self@.take(i as int + 1).drop_last() =~= self@.take(i as int));
            }
            if self.entries[i].status == SyncStatus::Pending {
                count += 1;
            }
            i += 1;
        }
        assert(self@.take(i as int) =~= self@);
        count
    }
}

} // verus!
