//! Coalescing is harmless: the index converges to the same content with
//! or without it.

use vstd::prelude::*;
use crate::indexer::convergence::law_index_converges;
use crate::indexer::entry::EntryView;
use crate::indexer::event::{last_observation, ChangeEventView};
use crate::indexer::model::{apply_events, content_at, index_wf};
use crate::watcher::{coalesced, redundant_at, within_window};

verus! {

/// As long as no event from position `n` on touches `path`, the first `n`
/// events leave the same at `path` coalesced as they do in full.
pub proof fn lemma_coalesced_prefix(
    events: Seq<ChangeEventView>,
    window: u64,
    path: Seq<u8>,
    n: int,
)
    requires
        0 <= n <= events.len(),
        forall|j: int| n <= j < events.len() ==> (#[trigger] events[j]).leaves(path) is None,
    ensures
        last_observation(coalesced(events, window, n), path) == last_observation(
            events.take(n),
            path,
        ),
    decreases n,
{
    if n > 0 {
        let event = events[n - 1];
        assert(events.take(n).drop_last() =~= events.take(n - 1));
        assert(events.take(n).last() == event);
        let earlier = coalesced(events, window, n - 1);
        if event.leaves(path) is Some {
            // The last event that touches the path is never redundant.
            if redundant_at(events, window, n - 1) {
                let j = choose|j: int|
                    n - 1 < j < events.len() && (#[trigger] events[j]).path == event.path
                        && within_window(event, events[j], window);
                assert(events[j].leaves(path) is None);
            }
            assert(earlier.push(event).last() == event);
        } else {
            lemma_coalesced_prefix(events, window, path, n - 1);
            if !redundant_at(events, window, n - 1) {
                assert(earlier.push(event).drop_last() =~= earlier);
                assert(earlier.push(event).last() == event);
            }
        }
    }
}

/// Coalescing keeps the last word on every path: a run of events and its
/// coalesced form leave the same content everywhere.
pub proof fn law_coalescing_keeps_last(events: Seq<ChangeEventView>, window: u64, path: Seq<u8>)
    ensures
        last_observation(coalesced(events, window, events.len() as int), path) == last_observation(
            events,
            path,
        ),
{
    lemma_coalesced_prefix(events, window, path, events.len() as int);
    assert(events.take(events.len() as int) =~= events);
}

/// Eventual convergence, regardless of coalescing: the content the index
/// records for any path after a run of events is the same whether bursts
/// were collapsed on the way or not, namely the content that the
/// filesystem was last seen to hold there.
pub proof fn law_converges_despite_coalescing(
    entries: Seq<EntryView>,
    events: Seq<ChangeEventView>,
    window: u64,
    path: Seq<u8>,
)
    requires
        index_wf(entries),
    ensures
        content_at(
            apply_events(entries, coalesced(events, window, events.len() as int)),
            path,
        ) == content_at(apply_events(entries, events), path),
{
    law_coalescing_keeps_last(events, window, path);
    law_index_converges(entries, events, path);
    law_index_converges(entries, coalesced(events, window, events.len() as int), path);
}

} // verus!
