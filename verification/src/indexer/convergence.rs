//! Eventual convergence: whatever events arrive, the index ends up
//! recording what the filesystem was last seen to hold.

use vstd::prelude::*;
use crate::indexer::entry::{EntryView, Fingerprint};
use crate::indexer::event::{last_observation, ChangeEventView, ChangeKindView};
use crate::indexer::model::{
    apply_event, apply_events, content_at, index_wf, lemma_apply_events_wf, lemma_observe, observe,
};

verus! {

/// What the index records for `path` after a run of events that started
/// from `recorded`: the word of the last event that touches the path.
pub open spec fn settled_content(
    recorded: Option<Fingerprint>,
    last: Option<Option<Fingerprint>>,
) -> Option<Fingerprint> {
    match last {
        Some(content) => content,
        None => recorded,
    }
}

/// One event leaves at every path it touches the content it reports, and
/// every other path as it was.
pub proof fn lemma_event_content(entries: Seq<EntryView>, event: ChangeEventView, path: Seq<u8>)
    requires
        index_wf(entries),
    ensures
        content_at(apply_event(entries, event), path) == settled_content(
            content_at(entries, path),
            event.leaves(path),
        ),
{
    match event.kind {
        ChangeKindView::Created(fingerprint) => {
            lemma_observe(entries, event.path, Some(fingerprint));
        },
        ChangeKindView::Modified(fingerprint) => {
            lemma_observe(entries, event.path, Some(fingerprint));
        },
        ChangeKindView::Removed => {
            lemma_observe(entries, event.path, None);
        },
        ChangeKindView::Renamed { to, fingerprint } => {
            let emptied = observe(entries, event.path, None);
            lemma_observe(entries, event.path, None);
            lemma_observe(emptied, to, Some(fingerprint));
        },
    }
}

/// Eventual convergence. After any run of events the content the index
/// records for a path is the content the last event touching that path
/// reported; a path no event touched keeps what was recorded. Nothing an
/// earlier event said survives a later one.
pub proof fn law_index_converges(
    entries: Seq<EntryView>,
    events: Seq<ChangeEventView>,
    path: Seq<u8>,
)
    requires
        index_wf(entries),
    ensures
        content_at(apply_events(entries, events), path) == settled_content(
            content_at(entries, path),
            last_observation(events, path),
        ),
    decreases events.len(),
{
    if events.len() > 0 {
        let earlier = events.drop_last();
        law_index_converges(entries, earlier, path);
        lemma_apply_events_wf(entries, earlier);
        lemma_event_content(apply_events(entries, earlier), events.last(), path);
    }
}

} // verus!
