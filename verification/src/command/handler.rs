//! The command handler: executes a decoded command against the daemon's
//! state.

use vstd::prelude::*;
use crate::command::wire::{Response, ResponseView};
use crate::indexer::entry::EntryView;
use crate::indexer::index::Indexer;
use crate::{Command, CommandView};

verus! {

/// The answer to a command, given what the index holds.
pub open spec fn handled(command: CommandView, entries: Seq<EntryView>) -> ResponseView {
    match command {
        CommandView::List => ResponseView::Listing(entries),
    }
}

/// Executes commands on the daemon's side.
#[derive(Clone, Copy, Debug, PartialEq, Eq)]
pub struct CommandHandler {}

impl CommandHandler {
    /// A handler.
    pub fn new() -> (handler: Self) {
        CommandHandler {  }
    }

    /// Executes one command. A listing is a point-in-time copy of the
    /// index, entry for entry and in index order.
    pub fn handle(&self, command: &Command, index: &Indexer) -> (response: Response)
        ensures
            response@ == handled(command@, index@),
    {
        match command {
            Command::List(_) => Response::Listing(index.snapshot()),
        }
    }
}

} // verus!
