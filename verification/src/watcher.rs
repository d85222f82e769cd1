//! The pool watcher: the set of watch targets, and what becomes of the
//! raw events that their watches report before the index sees them.
//!
//! The operating-system watches themselves belong to the caller. This
//! module keeps the targets, lets through only events that fall under one of
//! them, collapses bursts, and hands the result to the indexer.

use vstd::prelude::*;

pub mod coalescing;
pub mod coverage;
pub mod resolver;

use crate::indexer::entry::same_path;
use crate::indexer::event::{
    event_views, ChangeEvent, ChangeEventView, ChangeKind, ChangeKindView,
};
use crate::indexer::index::Indexer;
use crate::indexer::reconcile::{remote_views, RemoteEntry, RemoteEntryView};
use crate::indexer::model::apply_events;

verus! {

/// The byte that separates the components of a path.
pub const SEPARATOR: u8 = 47;

/// What a watch target is on disk.
#[derive(Clone, Copy, Debug, PartialEq, Eq, Structural)]
pub enum TargetKind {
    File,
    Directory,
}

/// A resolved filesystem entry under observation. A directory is watched
/// with everything below it.
#[derive(Debug, PartialEq, Eq)]
pub struct WatchTarget {
    /// Absolute path of the entry.
    pub path: Vec<u8>,
    pub kind: TargetKind,
    /// The literal path or glob pattern that the entry was resolved from.
    pub pattern: Vec<u8>,
}

/// Mathematical value of a [`WatchTarget`].
pub struct WatchTargetView {
    pub path: Seq<u8>,
    pub kind: TargetKind,
    pub pattern: Seq<u8>,
}

impl View for WatchTarget {
    type V = WatchTargetView;

    open spec fn view(&self) -> WatchTargetView {
        WatchTargetView { path: self.path@, kind: self.kind, pattern: self.pattern@ }
    }
}

impl Clone for WatchTarget {
    fn clone(&self) -> (copy: Self)
        ensures
            copy@ == self@,
    {
        WatchTarget { path: self.path.clone(), kind: self.kind, pattern: self.pattern.clone() }
    }
}

/// The mathematical values of a run of targets.
pub open spec fn target_views(targets: Seq<WatchTarget>) -> Seq<WatchTargetView> {
    targets.map_values(|target: WatchTarget| target@)
}

/// Whether `path` lies strictly below the directory `dir`.
pub open spec fn under(dir: Seq<u8>, path: Seq<u8>) -> bool {
    &&& 0 < dir.len() < path.len()
    &&& path.subrange(0, dir.len() as int) == dir
    &&& (dir[dir.len() - 1] == SEPARATOR || path[dir.len() as int] == SEPARATOR)
}

impl WatchTargetView {
    /// Whether the target's watch reports on `path`: the target itself, or
    /// anything below it where it is a directory.
    pub open spec fn covers(self, path: Seq<u8>) -> bool {
        self.path == path || (self.kind == TargetKind::Directory && under(self.path, path))
    }
}

impl WatchTarget {
    /// Whether the target's watch reports on `path`.
    pub fn covers(&self, path: &Vec<u8>) -> (covers: bool)
        ensures
            covers == self@.covers(path@),
    {
        if same_path(&self.path, path) {
            return true;
        }
        let n = self.path.len();
        if self.kind != TargetKind::Directory || n == 0 || n >= path.len() {
            return false;
        }
        let mut i: usize = 0;
        while i < n
            invariant
                i <= n,
                n == self.path@.len(),
                n < path@.len(),
                forall|k: int| 0 <= k < i ==> self.path@[k] == path@[k],
            decreases n - i,
        {
            if self.path[i] != path[i] {
                assert(path@.subrange(0, n as int)[i as int] == path@[i as int]);
                return false;
            }
            i += 1;
        }
        assert(path@.subrange(0, n as int) =~= self.path@);
        self.path[n - 1] == SEPARATOR || path[n] == SEPARATOR
    }
}

/// Whether some target has exactly this path.
pub open spec fn watched(targets: Seq<WatchTargetView>, path: Seq<u8>) -> bool {
    exists|i: int| 0 <= i < targets.len() && (#[trigger] targets[i]).path == path
}

/// The position of the target with this path, where one exists.
pub open spec fn watch_slot(targets: Seq<WatchTargetView>, path: Seq<u8>) -> int {
    choose|i: int| 0 <= i < targets.len() && (#[trigger] targets[i]).path == path
}

/// Whether some target's watch reports on `path`.
pub open spec fn covered(targets: Seq<WatchTargetView>, path: Seq<u8>) -> bool {
    exists|i: int| 0 <= i < targets.len() && (#[trigger] targets[i]).covers(path)
}

/// No two targets share a path: there is one watch per path.
pub open spec fn distinct_targets(targets: Seq<WatchTargetView>) -> bool {
    forall|i: int, j: int|
        0 <= i < j < targets.len() ==> (#[trigger] targets[i]).path != (#[trigger] targets[j]).path
}

/// The targets after one more was asked for: a path that is watched
/// already gets no second watch.
pub open spec fn with_target(targets: Seq<WatchTargetView>, target: WatchTargetView) -> Seq<
    WatchTargetView,
> {
    if watched(targets, target.path) {
        targets
    } else {
        targets.push(target)
    }
}

/// The targets after the first `n` of `asked` were asked for, in order.
pub open spec fn with_targets(asked: Seq<WatchTargetView>, n: int) -> Seq<WatchTargetView>
    decreases n,
{
    if n <= 0 {
        Seq::empty()
    } else {
        with_target(with_targets(asked, n - 1), asked[n - 1])
    }
}

/// The targets after the watch on `path` was torn down.
pub open spec fn without_target(targets: Seq<WatchTargetView>, path: Seq<u8>) -> Seq<
    WatchTargetView,
> {
    if watched(targets, path) {
        targets.remove(watch_slot(targets, path))
    } else {
        targets
    }
}

/// What the watcher makes of a raw event. An event outside every target
/// is dropped. A rename that crosses the border of the watched area is
/// what it looks like from inside: a removal where the file left, a
/// creation where it came in.
pub open spec fn screened(targets: Seq<WatchTargetView>, event: ChangeEventView) -> Option<
    ChangeEventView,
> {
    match event.kind {
        ChangeKindView::Renamed { to, fingerprint } => {
            if covered(targets, event.path) {
                if covered(targets, to) {
                    Some(event)
                } else {
                    Some(ChangeEventView { kind: ChangeKindView::Removed, ..event })
                }
            } else if covered(targets, to) {
                Some(
                    ChangeEventView {
                        path: to,
                        kind: ChangeKindView::Created(fingerprint),
                        observed_at: event.observed_at,
                    },
                )
            } else {
                None
            }
        },
        _ => if covered(targets, event.path) {
            Some(event)
        } else {
            None
        },
    }
}

/// What the watcher makes of the first `n` raw events, in order.
pub open spec fn screened_all(
    targets: Seq<WatchTargetView>,
    events: Seq<ChangeEventView>,
    n: int,
) -> Seq<ChangeEventView>
    decreases n,
{
    if n <= 0 {
        Seq::empty()
    } else {
        let earlier = screened_all(targets, events, n - 1);
        match screened(targets, events[n - 1]) {
            Some(event) => earlier.push(event),
            None => earlier,
        }
    }
}

/// Those of the first `n` remote objects that lie under a target, in
/// order.
pub open spec fn scoped(targets: Seq<WatchTargetView>, objects: Seq<RemoteEntryView>, n: int) -> Seq<
    RemoteEntryView,
>
    decreases n,
{
    if n <= 0 {
        Seq::empty()
    } else {
        let earlier = scoped(targets, objects, n - 1);
        if covered(targets, objects[n - 1].path) {
            earlier.push(objects[n - 1])
        } else {
            earlier
        }
    }
}

/// Whether `later` was observed no more than `window` milliseconds after
/// `earlier`.
pub open spec fn within_window(earlier: ChangeEventView, later: ChangeEventView, window: u64) -> bool {
    later.observed_at <= earlier.observed_at + window
}

/// Whether event `i` is made redundant by a later event of the same burst:
/// one for the same path, observed within the window. A rename is never
/// redundant, because it also speaks of a second path.
pub open spec fn redundant_at(events: Seq<ChangeEventView>, window: u64, i: int) -> bool {
    &&& !(events[i].kind is Renamed)
    &&& exists|j: int|
        i < j < events.len() && (#[trigger] events[j]).path == events[i].path && within_window(
            events[i],
            events[j],
            window,
        )
}

/// The first `n` events with the redundant ones taken out; the others
/// keep their order.
pub open spec fn coalesced(events: Seq<ChangeEventView>, window: u64, n: int) -> Seq<
    ChangeEventView,
>
    decreases n,
{
    if n <= 0 {
        Seq::empty()
    } else {
        let earlier = coalesced(events, window, n - 1);
        if redundant_at(events, window, n - 1) {
            earlier
        } else {
            earlier.push(events[n - 1])
        }
    }
}

/// What reaches the index of a batch of raw events: those the targets
/// let through, with bursts collapsed to their latest event.
pub open spec fn delivered(
    targets: Seq<WatchTargetView>,
    window: u64,
    events: Seq<ChangeEventView>,
) -> Seq<ChangeEventView> {
    let inside = screened_all(targets, events, events.len() as int);
    coalesced(inside, window, inside.len() as int)
}

/// Something that went wrong while watching.
#[derive(Debug, PartialEq, Eq)]
pub enum WatchFailure {
    /// The watch on one target could not be set up.
    Target(Vec<u8>),
    /// The watch subsystem itself failed.
    Subsystem,
}

/// The set of watch targets and the coalescing window.
pub struct PoolWatcher {
    targets: Vec<WatchTarget>,
    window_ms: u64,
}

impl PoolWatcher {
    /// The targets under observation, in the order they were added.
    pub closed spec fn targets(&self) -> Seq<WatchTargetView> {
        target_views(self.targets@)
    }

    /// The coalescing window, in milliseconds.
    pub closed spec fn window(&self) -> u64 {
        self.window_ms
    }

    /// Validity of the watcher: one watch per path.
    pub open spec fn wf(&self) -> bool {
        distinct_targets(self.targets())
    }

    /// Where the target with this path stands.
    fn position(&self, path: &Vec<u8>) -> (slot: Option<usize>)
        requires
            self.wf(),
        ensures
            match slot {
                Some(i) => watched(self.targets(), path@) && i == watch_slot(
                    self.targets(),
                    path@,
                ),
                None => !watched(self.targets(), path@),
            },
    {
        let mut i: usize = 0;
        while i < self.targets.len()
            invariant
                i <= self.targets.len(),
                self.wf(),
                forall|k: int| 0 <= k < i ==> (#[trigger] self.targets()[k]).path != path@,
            decreases self.targets.len() - i,
        {
            if same_path(&self.targets[i].path, path) {
                proof {
                    let targets = self.targets();
                    assert(targets[i as int].path == path@);
                    let k = watch_slot(targets, path@);
                    if k < i {
                        assert(targets[k].path != targets[i as int].path);
                    } else if i < k {
                        assert(targets[i as int].path != targets[k].path);
                    }
                }
                return Some(i);
            }
            i += 1;
        }
        None
    }

    /// A watcher for the given targets. A path asked for twice is watched
    /// once, as its first target says.
    pub fn init(targets: Vec<WatchTarget>, window_ms: u64) -> (watcher: Self)
        ensures
            watcher.wf(),
            watcher.window() == window_ms,
            watcher.targets() == with_targets(target_views(targets@), targets@.len() as int),
    {
        let mut watcher = PoolWatcher { targets: Vec::new(), window_ms };
        assert(watcher.targets() =~= Seq::<WatchTargetView>::empty());
        let mut i: usize = 0;
        while i < targets.len()
            invariant
                i <= targets.len(),
                watcher.wf(),
                watcher.window() == window_ms,
                watcher.targets() == with_targets(target_views(targets@), i as int),
            decreases targets.len() - i,
        {
            watcher.add_target(targets[i].clone());
            i += 1;
        }
        watcher
    }

    /// Starts watching one more target. Returns whether a watch was added;
    /// the watches that exist are not disturbed either way.
    pub fn add_target(&mut self, target: WatchTarget) -> (added: bool)
        requires
            old(self).wf(),
        ensures
            final(self).wf(),
            final(self).window() == old(self).window(),
            added == !watched(old(self).targets(), target@.path),
            final(self).targets() == with_target(old(self).targets(), target@),
    {
        match self.position(&target.path) {
            Some(_) => false,
            None => {
                let ghost before = self.targets();
                self.targets.push(target);
                proof {
                    let after = self.targets();
                    assert(after =~= before.push(target@));
                    assert forall|a: int, b: int| 0 <= a < b < after.len() implies (
                    #[trigger] after[a]).path != (#[trigger] after[b]).path by {
                        if b < before.len() {
                            assert(before[a].path != before[b].path);
                        } else {
                            assert(after[a] == before[a]);
                        }
                    }
                }
                true
            },
        }
    }

    /// Stops watching the target with this path. Returns whether there was
    /// one. Every other watch stays as it is.
    pub fn remove_target(&mut self, path: &Vec<u8>) -> (removed: bool)
        requires
            old(self).wf(),
        ensures
            final(self).wf(),
            final(self).window() == old(self).window(),
            removed == watched(old(self).targets(), path@),
            final(self).targets() == without_target(old(self).targets(), path@),
    {
        match self.position(path) {
            Some(i) => {
                let ghost before = self.targets();
                self.targets.remove(i);
                proof {
                    let after = self.targets();
                    assert(after =~= before.remove(i as int));
                    assert forall|a: int, b: int| 0 <= a < b < after.len() implies (
                    #[trigger] after[a]).path != (#[trigger] after[b]).path by {
                        let a0 = if a < i {
                            a
                        } else {
                            a + 1
                        };
                        let b0 = if b < i {
                            b
                        } else {
                            b + 1
                        };
                        assert(after[a] == before[a0]);
                        assert(after[b] == before[b0]);
                        assert(before[a0].path != before[b0].path);
                    }
                }
                true
            },
            None => false,
        }
    }

    /// Takes note of a failure. A target whose watch could not be set up
    /// is given up and the others go on; a failure of the watch subsystem
    /// is fatal. Returns whether the daemon has to terminate.
    pub fn fail(&mut self, failure: &WatchFailure) -> (fatal: bool)
        requires
            old(self).wf(),
        ensures
            final(self).wf(),
            final(self).window() == old(self).window(),
            match *failure {
                WatchFailure::Target(path) => !fatal && final(self).targets() == without_target(
                    old(self).targets(),
                    path@,
                ),
                WatchFailure::Subsystem => fatal && final(self).targets() == old(self).targets(),
            },
    {
        match failure {
            WatchFailure::Target(path) => {
                self.remove_target(path);
                false
            },
            WatchFailure::Subsystem => true,
        }
    }

    /// A copy of the targets under observation.
    pub fn watch_targets(&self) -> (targets: Vec<WatchTarget>)
        ensures
            target_views(targets@) == self.targets(),
    {
        let mut targets: Vec<WatchTarget> = Vec::new();
        let mut i: usize = 0;
        while i < self.targets.len()
            invariant
                i <= self.targets.len(),
                targets@.len() == i,
                forall|k: int| 0 <= k < i ==> (#[trigger] targets@[k])@ == self.targets@[k]@,
            decreases self.targets.len() - i,
        {
            targets.push(self.targets[i].clone());
            i += 1;
        }
        assert(target_views(targets@) =~= self.targets());
        targets
    }

    /// Whether some target's watch reports on `path`.
    pub fn covers(&self, path: &Vec<u8>) -> (covers: bool)
        ensures
            covers == covered(self.targets(), path@),
    {
        let mut i: usize = 0;
        while i < self.targets.len()
            invariant
                i <= self.targets.len(),
                forall|k: int| 0 <= k < i ==> !(#[trigger] self.targets()[k]).covers(path@),
            decreases self.targets.len() - i,
        {
            if self.targets[i].covers(path) {
                assert(self.targets()[i as int].covers(path@));
                return true;
            }
            i += 1;
        }
        false
    }

    /// The part of a remote listing that concerns this watcher: the
    /// objects whose paths lie under a target.
    pub fn scope(&self, objects: &Vec<RemoteEntry>) -> (inside: Vec<RemoteEntry>)
        ensures
            remote_views(inside@) == scoped(
                self.targets(),
                remote_views(objects@),
                objects@.len() as int,
            ),
    {
        let ghost all = remote_views(objects@);
        let mut inside: Vec<RemoteEntry> = Vec::new();
        assert(remote_views(inside@) =~= Seq::<RemoteEntryView>::empty());
        let mut i: usize = 0;
        while i < objects.len()
            invariant
                i <= objects.len(),
                all == remote_views(objects@),
                remote_views(inside@) == scoped(self.targets(), all, i as int),
            decreases objects.len() - i,
        {
            assert(all[i as int] == objects@[i as int]@);
            if self.covers(&objects[i].path) {
                let ghost before = remote_views(inside@);
                inside.push(objects[i].clone());
                assert(remote_views(inside@) =~= before.push(all[i as int]));
            }
            i += 1;
        }
        inside
    }

    /// What the watcher makes of a raw event: see [`screened`].
    pub fn screen(&self, event: &ChangeEvent) -> (passed: Option<ChangeEvent>)
        ensures
            match passed {
                Some(inside) => screened(self.targets(), event@) == Some(inside@),
                None => screened(self.targets(), event@) is None,
            },
    {
        let from_inside = self.covers(&event.path);
        match &event.kind {
            ChangeKind::Renamed { to, fingerprint } => {
                let to_inside = self.covers(to);
                if from_inside && to_inside {
                    Some(event.clone())
                } else if from_inside {
                    Some(
                        ChangeEvent {
                            path: event.path.clone(),
                            kind: ChangeKind::Removed,
                            observed_at: event.observed_at,
                        },
                    )
                } else if to_inside {
                    Some(
                        ChangeEvent {
                            path: to.clone(),
                            kind: ChangeKind::Created(*fingerprint),
                            observed_at: event.observed_at,
                        },
                    )
                } else {
                    None
                }
            },
            _ => if from_inside {
                Some(event.clone())
            } else {
                None
            },
        }
    }

    /// Collapses bursts: of the events for one path that follow each other
    /// within the window only the latest stays. See [`coalesced`].
    pub fn coalesce(&self, events: &Vec<ChangeEvent>) -> (kept: Vec<ChangeEvent>)
        ensures
            event_views(kept@) == coalesced(
                event_views(events@),
                self.window(),
                events@.len() as int,
            ),
    {
        let ghost all = event_views(events@);
        let mut kept: Vec<ChangeEvent> = Vec::new();
        assert(event_views(kept@) =~= Seq::<ChangeEventView>::empty());
        let mut i: usize = 0;
        while i < events.len()
            invariant
                i <= events.len(),
                all == event_views(events@),
                event_views(kept@) == coalesced(all, self.window(), i as int),
            decreases events.len() - i,
        {
            if !redundant(events, i, self.window_ms) {
                let ghost before = event_views(kept@);
                kept.push(events[i].clone());
                assert(event_views(kept@) =~= before.push(all[i as int]));
            }
            i += 1;
        }
        kept
    }

    /// Hands a batch of raw events to the indexer: those the targets
    /// let through, bursts collapsed, applied in order.
    pub fn deliver(&self, events: &Vec<ChangeEvent>, index: &mut Indexer)
        requires
            old(index).wf(),
        ensures
            final(index).wf(),
            final(index)@ == apply_events(
                old(index)@,
                delivered(self.targets(), self.window(), event_views(events@)),
            ),
    {
        let ghost raw = event_views(events@);
        let mut inside: Vec<ChangeEvent> = Vec::new();
        assert(event_views(inside@) =~= Seq::<ChangeEventView>::empty());
        let mut i: usize = 0;
        while i < events.len()
            invariant
                i <= events.len(),
                raw == event_views(events@),
                event_views(inside@) == screened_all(self.targets(), raw, i as int),
            decreases events.len() - i,
        {
            match self.screen(&events[i]) {
                Some(event) => {
                    let ghost before = event_views(inside@);
                    inside.push(event);
                    assert(event_views(inside@) =~= before.push(event@));
                },
                None => {},
            }
            i += 1;
        }
        let kept = self.coalesce(&inside);
        let ghost due = event_views(kept@);
        let mut k: usize = 0;
        while k < kept.len()
            invariant
                k <= kept.len(),
                due == event_views(kept@),
                index.wf(),
                index@ == apply_events(old(index)@, due.take(k as int)),
            decreases kept.len() - k,
        {
            proof {
                assert(due.take(k as int + 1).drop_last() =~= due.take(k as int));
                assert(due.take(k as int + 1).last() == kept@[k as int]@);
            }
            index.apply(&kept[k]);
            k += 1;
        }
        assert(due.take(k as int) =~= due);
    }
}

/// Whether event `i` is made redundant by a later one: see
/// [`redundant_at`].
fn redundant(events: &Vec<ChangeEvent>, i: usize, window_ms: u64) -> (redundant: bool)
    requires
        i < events.len(),
    ensures
        redundant == redundant_at(event_views(events@), window_ms, i as int),
{
    let ghost all = event_views(events@);
    if let ChangeKind::Renamed { .. } = events[i].kind {
        return false;
    }
    let seen = events[i].observed_at;
    assert(all[i as int] == events@[i as int]@);
    let mut j: usize = i + 1;
    while j < events.len()
        invariant
            i < j <= events.len(),
            all == event_views(events@),
            seen == all[i as int].observed_at,
            !(all[i as int].kind is Renamed),
            forall|k: int|
                i < k < j ==> !((#[trigger] all[k]).path == all[i as int].path && within_window(
                    all[i as int],
                    all[k],
                    window_ms,
                )),
        decreases events.len() - j,
    {
        let later = events[j].observed_at;
        if same_path(&events[j].path, &events[i].path) && (later <= seen || later - seen
            <= window_ms) {
            assert(all[j as int].path == all[i as int].path && within_window(
                all[i as int],
                all[j as int],
                window_ms,
            ));
            return true;
        }
        j += 1;
    }
    false
}

} // verus!
