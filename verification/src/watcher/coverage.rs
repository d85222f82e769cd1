//! Every path in the index lies under a watch target: what the watcher
//! delivers never leads the index outside the watched area.

use vstd::prelude::*;
use crate::indexer::entry::{EntryView, Fingerprint};
use crate::indexer::event::{ChangeEventView, ChangeKindView};
use crate::indexer::model::{apply_event, apply_events, observe, slot_of, tracks};
use crate::indexer::reconcile::{
    reconcile, reconcile_locals, reconcile_remotes, LocalFileView, RemoteEntryView,
    RemoteOnlyPolicy,
};
use crate::watcher::{
    coalesced, covered, delivered, scoped, screened, screened_all, with_target, WatchTargetView,
};

verus! {

/// Whether every tracked path lies under one of the targets.
pub open spec fn within(entries: Seq<EntryView>, targets: Seq<WatchTargetView>) -> bool {
    forall|i: int| 0 <= i < entries.len() ==> covered(targets, (#[trigger] entries[i]).path)
}

/// Whether an event speaks only of paths under the targets.
pub open spec fn inside(targets: Seq<WatchTargetView>, event: ChangeEventView) -> bool {
    &&& covered(targets, event.path)
    &&& event.kind matches ChangeKindView::Renamed { to, .. } ==> covered(targets, to)
}

/// Whether every event of a run speaks only of paths under the targets.
pub open spec fn all_inside(targets: Seq<WatchTargetView>, events: Seq<ChangeEventView>) -> bool {
    forall|i: int| 0 <= i < events.len() ==> inside(targets, #[trigger] events[i])
}

/// Observing a path under the targets keeps the index within them.
proof fn lemma_observe_within(
    entries: Seq<EntryView>,
    targets: Seq<WatchTargetView>,
    path: Seq<u8>,
    content: Option<Fingerprint>,
)
    requires
        within(entries, targets),
        covered(targets, path),
    ensures
        within(observe(entries, path, content), targets),
{
    let after = observe(entries, path, content);
    assert forall|i: int| 0 <= i < after.len() implies covered(
        targets,
        (#[trigger] after[i]).path,
    ) by {
        if tracks(entries, path) {
            let slot = slot_of(entries, path);
            if i != slot {
                assert(after[i] == entries[i]);
            } else {
                assert(after[i].path == entries[i].path);
            }
        } else if i < entries.len() {
            assert(after[i] == entries[i]);
        }
    }
}

/// An event from inside the targets keeps the index within them.
proof fn lemma_event_within(
    entries: Seq<EntryView>,
    targets: Seq<WatchTargetView>,
    event: ChangeEventView,
)
    requires
        within(entries, targets),
        inside(targets, event),
    ensures
        within(apply_event(entries, event), targets),
{
    match event.kind {
        ChangeKindView::Created(fingerprint) => {
            lemma_observe_within(entries, targets, event.path, Some(fingerprint));
        },
        ChangeKindView::Modified(fingerprint) => {
            lemma_observe_within(entries, targets, event.path, Some(fingerprint));
        },
        ChangeKindView::Removed => {
            lemma_observe_within(entries, targets, event.path, None);
        },
        ChangeKindView::Renamed { to, fingerprint } => {
            lemma_observe_within(entries, targets, event.path, None);
            lemma_observe_within(
                observe(entries, event.path, None),
                targets,
                to,
                Some(fingerprint),
            );
        },
    }
}

/// Events from inside the targets keep the index within them.
proof fn lemma_events_within(
    entries: Seq<EntryView>,
    targets: Seq<WatchTargetView>,
    events: Seq<ChangeEventView>,
)
    requires
        within(entries, targets),
        all_inside(targets, events),
    ensures
        within(apply_events(entries, events), targets),
    decreases events.len(),
{
    if events.len() > 0 {
        let earlier = events.drop_last();
        assert forall|i: int| 0 <= i < earlier.len() implies inside(
            targets,
            #[trigger] earlier[i],
        ) by {
            assert(earlier[i] == events[i]);
        }
        lemma_events_within(entries, targets, earlier);
        assert(inside(targets, events[events.len() - 1]));
        lemma_event_within(apply_events(entries, earlier), targets, events.last());
    }
}

/// What passes the screening speaks only of paths under the targets.
proof fn lemma_screened_inside(targets: Seq<WatchTargetView>, events: Seq<ChangeEventView>, n: int)
    requires
        0 <= n <= events.len(),
    ensures
        all_inside(targets, screened_all(targets, events, n)),
    decreases n,
{
    if n > 0 {
        lemma_screened_inside(targets, events, n - 1);
        let earlier = screened_all(targets, events, n - 1);
        let after = screened_all(targets, events, n);
        match screened(targets, events[n - 1]) {
            Some(event) => {
                assert forall|i: int| 0 <= i < after.len() implies inside(
                    targets,
                    #[trigger] after[i],
                ) by {
                    if i < earlier.len() {
                        assert(after[i] == earlier[i]);
                    }
                }
            },
            None => {},
        }
    }
}

/// Coalescing invents no event: what holds of every event holds of every
/// event that stays.
proof fn lemma_coalesced_inside(
    targets: Seq<WatchTargetView>,
    events: Seq<ChangeEventView>,
    window: u64,
    n: int,
)
    requires
        0 <= n <= events.len(),
        all_inside(targets, events),
    ensures
        all_inside(targets, coalesced(events, window, n)),
    decreases n,
{
    if n > 0 {
        lemma_coalesced_inside(targets, events, window, n - 1);
        let earlier = coalesced(events, window, n - 1);
        let after = coalesced(events, window, n);
        assert forall|i: int| 0 <= i < after.len() implies inside(targets, #[trigger] after[i]) by {
            if i < earlier.len() {
                assert(after[i] == earlier[i]);
            } else {
                assert(after[i] == events[n - 1]);
            }
        }
    }
}

/// The index stays within the watched area: if every tracked path lies
/// under a target, it still does after any batch of raw events was
/// delivered, wherever those events came from.
pub proof fn law_delivery_stays_within(
    entries: Seq<EntryView>,
    targets: Seq<WatchTargetView>,
    window: u64,
    events: Seq<ChangeEventView>,
)
    requires
        within(entries, targets),
    ensures
        within(apply_events(entries, delivered(targets, window, events)), targets),
{
    let passed = screened_all(targets, events, events.len() as int);
    lemma_screened_inside(targets, events, events.len() as int);
    lemma_coalesced_inside(targets, passed, window, passed.len() as int);
    lemma_events_within(entries, targets, delivered(targets, window, events));
}

/// Local files under the targets keep the index within them.
proof fn lemma_locals_within(
    entries: Seq<EntryView>,
    targets: Seq<WatchTargetView>,
    local: Seq<LocalFileView>,
    remote: Seq<RemoteEntryView>,
    n: int,
)
    requires
        within(entries, targets),
        0 <= n <= local.len(),
        forall|k: int| 0 <= k < local.len() ==> covered(targets, (#[trigger] local[k]).path),
    ensures
        within(reconcile_locals(entries, local, remote, n), targets),
    decreases n,
{
    if n > 0 {
        lemma_locals_within(entries, targets, local, remote, n - 1);
        let before = reconcile_locals(entries, local, remote, n - 1);
        let after = reconcile_locals(entries, local, remote, n);
        let file = local[n - 1];
        assert forall|i: int| 0 <= i < after.len() implies covered(
            targets,
            (#[trigger] after[i]).path,
        ) by {
            if tracks(before, file.path) {
                if i != slot_of(before, file.path) {
                    assert(after[i] == before[i]);
                } else {
                    assert(after[i].path == file.path);
                }
            } else if i < before.len() {
                assert(after[i] == before[i]);
            }
        }
    }
}

/// Remote objects under the targets keep the index within them.
proof fn lemma_remotes_within(
    entries: Seq<EntryView>,
    targets: Seq<WatchTargetView>,
    remote: Seq<RemoteEntryView>,
    local: Seq<LocalFileView>,
    policy: RemoteOnlyPolicy,
    n: int,
)
    requires
        within(entries, targets),
        0 <= n <= remote.len(),
        forall|k: int| 0 <= k < remote.len() ==> covered(targets, (#[trigger] remote[k]).path),
    ensures
        within(reconcile_remotes(entries, remote, local, policy, n), targets),
    decreases n,
{
    if n > 0 {
        lemma_remotes_within(entries, targets, remote, local, policy, n - 1);
        let before = reconcile_remotes(entries, remote, local, policy, n - 1);
        let after = reconcile_remotes(entries, remote, local, policy, n);
        assert forall|i: int| 0 <= i < after.len() implies covered(
            targets,
            (#[trigger] after[i]).path,
        ) by {
            if i < before.len() {
                assert(after[i] == before[i]);
            } else {
                assert(after[i].path == remote[n - 1].path);
            }
        }
    }
}

/// Reconciliation against listings from the watched area keeps the index
/// within it.
pub proof fn law_reconcile_stays_within(
    entries: Seq<EntryView>,
    targets: Seq<WatchTargetView>,
    local: Seq<LocalFileView>,
    remote: Seq<RemoteEntryView>,
    policy: RemoteOnlyPolicy,
)
    requires
        within(entries, targets),
        forall|k: int| 0 <= k < local.len() ==> covered(targets, (#[trigger] local[k]).path),
        forall|k: int| 0 <= k < remote.len() ==> covered(targets, (#[trigger] remote[k]).path),
    ensures
        within(reconcile(entries, local, remote, policy), targets),
{
    lemma_locals_within(entries, targets, local, remote, local.len() as int);
    lemma_remotes_within(
        reconcile_locals(entries, local, remote, local.len() as int),
        targets,
        remote,
        local,
        policy,
        remote.len() as int,
    );
}

/// What is left of a remote listing after scoping lies under the targets.
pub proof fn law_scoped_is_covered(
    targets: Seq<WatchTargetView>,
    objects: Seq<RemoteEntryView>,
    n: int,
)
    requires
        0 <= n <= objects.len(),
    ensures
        forall|k: int|
            0 <= k < scoped(targets, objects, n).len() ==> covered(
                targets,
                (#[trigger] scoped(targets, objects, n)[k]).path,
            ),
    decreases n,
{
    if n > 0 {
        law_scoped_is_covered(targets, objects, n - 1);
        let earlier = scoped(targets, objects, n - 1);
        let after = scoped(targets, objects, n);
        assert forall|k: int| 0 <= k < after.len() implies covered(
            targets,
            (#[trigger] after[k]).path,
        ) by {
            if k < earlier.len() {
                assert(after[k] == earlier[k]);
            }
        }
    }
}

/// One more target takes nothing out of the watched area.
pub proof fn law_more_targets_cover_more(
    entries: Seq<EntryView>,
    targets: Seq<WatchTargetView>,
    target: WatchTargetView,
)
    requires
        within(entries, targets),
    ensures
        within(entries, with_target(targets, target)),
{
    let more = with_target(targets, target);
    assert forall|i: int| 0 <= i < entries.len() implies covered(
        more,
        (#[trigger] entries[i]).path,
    ) by {
        let path = entries[i].path;
        let k = choose|k: int| 0 <= k < targets.len() && (#[trigger] targets[k]).covers(path);
        assert(more[k] == targets[k]);
    }
}

} // verus!
