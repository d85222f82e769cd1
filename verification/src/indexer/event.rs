//! Filesystem mutations as the watcher reports them.

use vstd::prelude::*;
use crate::indexer::entry::Fingerprint;

verus! {

/// What happened to a path. A creation, a modification and the target of a
/// rename carry the fingerprint computed when the event was taken up.
#[derive(Debug, PartialEq, Eq)]
pub enum ChangeKind {
    Created(Fingerprint),
    Modified(Fingerprint),
    Removed,
    Renamed { to: Vec<u8>, fingerprint: Fingerprint },
}

/// An observed filesystem mutation.
#[derive(Debug, PartialEq, Eq)]
pub struct ChangeEvent {
    /// The affected path (for a rename: the old name).
    pub path: Vec<u8>,
    pub kind: ChangeKind,
    /// When the mutation was observed, in milliseconds.
    pub observed_at: u64,
}

/// Mathematical value of a [`ChangeKind`].
pub enum ChangeKindView {
    Created(Fingerprint),
    Modified(Fingerprint),
    Removed,
    Renamed { to: Seq<u8>, fingerprint: Fingerprint },
}

/// Mathematical value of a [`ChangeEvent`].
pub struct ChangeEventView {
    pub path: Seq<u8>,
    pub kind: ChangeKindView,
    pub observed_at: u64,
}

impl View for ChangeKind {
    type V = ChangeKindView;

    open spec fn view(&self) -> ChangeKindView {
        match *self {
            ChangeKind::Created(fingerprint) => ChangeKindView::Created(fingerprint),
            ChangeKind::Modified(fingerprint) => ChangeKindView::Modified(fingerprint),
            ChangeKind::Removed => ChangeKindView::Removed,
            ChangeKind::Renamed { to, fingerprint } => ChangeKindView::Renamed {
                to: to@,
                fingerprint,
            },
        }
    }
}

impl View for ChangeEvent {
    type V = ChangeEventView;

    open spec fn view(&self) -> ChangeEventView {
        ChangeEventView { path: self.path@, kind: self.kind@, observed_at: self.observed_at }
    }
}

impl Clone for ChangeKind {
    fn clone(&self) -> (copy: Self)
        ensures
            copy@ == self@,
    {
        match self {
            ChangeKind::Created(fingerprint) => ChangeKind::Created(*fingerprint),
            ChangeKind::Modified(fingerprint) => ChangeKind::Modified(*fingerprint),
            ChangeKind::Removed => ChangeKind::Removed,
            ChangeKind::Renamed { to, fingerprint } => ChangeKind::Renamed {
                to: to.clone(),
                fingerprint: *fingerprint,
            },
        }
    }
}

impl Clone for ChangeEvent {
    fn clone(&self) -> (copy: Self)
        ensures
            copy@ == self@,
    {
        ChangeEvent {
            path: self.path.clone(),
            kind: self.kind.clone(),
            observed_at: self.observed_at,
        }
    }
}

impl ChangeEventView {
    /// What the event says the filesystem holds at `path` once it has
    /// happened: `Some(content)` where the event touches the path, `None`
    /// where it does not. A rename empties its old name and fills its new one.
    pub open spec fn leaves(self, path: Seq<u8>) -> Option<Option<Fingerprint>> {
        match self.kind {
            ChangeKindView::Created(fingerprint) | ChangeKindView::Modified(fingerprint) => {
                if self.path == path {
                    Some(Some(fingerprint))
                } else {
                    None
                }
            },
            ChangeKindView::Removed => {
                if self.path == path {
                    Some(None)
                } else {
                    None
                }
            },
            ChangeKindView::Renamed { to, fingerprint } => {
                if to == path {
                    Some(Some(fingerprint))
                } else if self.path == path {
                    Some(None)
                } else {
                    None
                }
            },
        }
    }
}

/// The mathematical values of a run of events.
pub open spec fn event_views(events: Seq<ChangeEvent>) -> Seq<ChangeEventView> {
    events.map_values(|event: ChangeEvent| event@)
}

/// What a run of events leaves at `path`: the word of the last event that
/// touches it, or `None` where no event does.
pub open spec fn last_observation(events: Seq<ChangeEventView>, path: Seq<u8>) -> Option<
    Option<Fingerprint>,
>
    decreases events.len(),
{
    if events.len() == 0 {
        None
    } else {
        match events.last().leaves(path) {
            Some(content) => Some(content),
            None => last_observation(events.drop_last(), path),
        }
    }
}

} // verus!
