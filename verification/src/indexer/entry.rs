//! The records the index keeps: one entry per tracked path.

use vstd::prelude::*;

verus! {

/// Compact summary of a file's content and metadata. Two files with equal
/// fingerprints are taken to hold the same content.
#[derive(Clone, Copy, Debug, PartialEq, Eq, Structural)]
pub struct Fingerprint {
    /// Hash of the file's bytes.
    pub hash: u64,
    /// Length of the file in bytes.
    pub size: u64,
    /// Modification time, in seconds since the epoch.
    pub modified: u64,
}

/// Start value of the content hash.
pub const HASH_OFFSET: u64 = 0xcbf2_9ce4_8422_2325;

/// Multiplier of the content hash.
pub const HASH_PRIME: u64 = 0x0000_0100_0000_01b3;

/// The hash of a file's bytes: from the start value, each byte in turn is
/// folded in by exclusive or and the result multiplied by the prime,
/// modulo two to the 64 (the 64-bit FNV-1a hash).
pub open spec fn content_hash(content: Seq<u8>) -> u64
    decreases content.len(),
{
    if content.len() == 0 {
        HASH_OFFSET
    } else {
        (content_hash(content.drop_last()) ^ (content.last() as u64)).wrapping_mul(HASH_PRIME)
    }
}

impl Fingerprint {
    /// The fingerprint of a file with the given bytes and modification
    /// time.
    pub fn of(content: &Vec<u8>, modified: u64) -> (fingerprint: Fingerprint)
        ensures
            fingerprint == (Fingerprint {
                hash: content_hash(content@),
                size: content@.len() as u64,
                modified,
            }),
    {
        let mut hash: u64 = HASH_OFFSET;
        let mut i: usize = 0;
        while i < content.len()
            invariant
                i <= content.len(),
                hash == content_hash(content@.take(i as int)),
            decreases content.len() - i,
        {
            proof {
                assert(content@.take(i as int + 1).drop_last() =~= content@.take(i as int));
                assert(content@.take(i as int + 1).last() == content@[i as int]);
            }
            hash = (hash ^ (content[i] as u64)).wrapping_mul(HASH_PRIME);
            i += 1;
        }
        assert(content@.take(i as int) =~= content@);
        Fingerprint { hash, size: content.len() as u64, modified }
    }
}

/// Where an entry stands with respect to the remote service.
#[derive(Clone, Copy, Debug, PartialEq, Eq, Structural)]
pub enum SyncStatus {
    /// The remote does not reflect the entry yet and no task is running for it.
    Unsynced,
    /// A task for the entry is in flight.
    Pending,
    /// The remote reflects the entry.
    Synced,
    /// Automated synchronization gave up; an operator has to look.
    Conflicted,
}

/// The authoritative record for one tracked path.
#[derive(Debug, PartialEq, Eq)]
pub struct IndexEntry {
    /// Absolute local path, as raw bytes.
    pub path: Vec<u8>,
    /// Fingerprint of the content last observed (for a placeholder: the
    /// fingerprint the remote reported).
    pub fingerprint: Fingerprint,
    /// Identifier the remote assigned; absent until the first successful sync.
    pub remote_id: Option<u64>,
    /// Synchronization status.
    pub status: SyncStatus,
    /// The local file is gone; the entry waits for the remote deletion.
    pub deleted: bool,
    /// The remote holds the file and the local filesystem does not.
    pub placeholder: bool,
    /// A newer local change arrived while the running task was in flight.
    pub superseded: bool,
}

/// Mathematical value of an [`IndexEntry`].
pub struct EntryView {
    pub path: Seq<u8>,
    pub fingerprint: Fingerprint,
    pub remote_id: Option<u64>,
    pub status: SyncStatus,
    pub deleted: bool,
    pub placeholder: bool,
    pub superseded: bool,
}

impl View for IndexEntry {
    type V = EntryView;

    open spec fn view(&self) -> EntryView {
        EntryView {
            path: self.path@,
            fingerprint: self.fingerprint,
            remote_id: self.remote_id,
            status: self.status,
            deleted: self.deleted,
            placeholder: self.placeholder,
            superseded: self.superseded,
        }
    }
}

impl Clone for IndexEntry {
    fn clone(&self) -> (copy: Self)
        ensures
            copy@ == self@,
    {
        IndexEntry {
            path: self.path.clone(),
            fingerprint: self.fingerprint,
            remote_id: self.remote_id,
            status: self.status,
            deleted: self.deleted,
            placeholder: self.placeholder,
            superseded: self.superseded,
        }
    }
}

impl EntryView {
    /// The content that the local filesystem holds at this path, as far as
    /// the index knows: nothing for a deleted file or a placeholder.
    pub open spec fn content(self) -> Option<Fingerprint> {
        if self.deleted || self.placeholder {
            None
        } else {
            Some(self.fingerprint)
        }
    }

    /// Only an entry with a task in flight can be superseded.
    pub open spec fn wf(self) -> bool {
        self.superseded ==> self.status == SyncStatus::Pending
    }

    /// A deletion that needs no remote call: the remote never held the file.
    pub open spec fn local_only_deletion(self) -> bool {
        self.status == SyncStatus::Unsynced && self.deleted && self.remote_id is None
    }
}

impl IndexEntry {
    /// The content that the local filesystem holds at this path, as far as
    /// the index knows.
    pub fn content(&self) -> (content: Option<Fingerprint>)
        ensures
            content == self@.content(),
    {
        if self.deleted || self.placeholder {
            None
        } else {
            Some(self.fingerprint)
        }
    }
}

/// Whether two byte strings are equal.
pub fn same_path(a: &Vec<u8>, b: &Vec<u8>) -> (same: bool)
    ensures
        same == (a@ == b@),
{
    let same = a == b;
    proof {
        if same {
            assert(a@ =~= b@);
        }
    }
    same
}

} // verus!
