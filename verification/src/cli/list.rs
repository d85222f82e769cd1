//! The `list` command: show every tracked entry.

use vstd::prelude::*;
use crate::command::pipe::{CommandWriter, TransportError};
use crate::{Command, CommandView, Handler};

verus! {

/// Asks the daemon for a listing of the index. It takes no arguments.
#[derive(Clone, Copy, Debug, PartialEq, Eq, Structural)]
pub struct ListCommand {}

impl Handler for ListCommand {
    open spec fn command(&self) -> CommandView {
        CommandView::List
    }

    fn handler(&self, command_bus: CommandWriter) -> (sent: Result<CommandWriter, TransportError>) {
        command_bus.send(&Command::List(*self))
    }
}

} // verus!
