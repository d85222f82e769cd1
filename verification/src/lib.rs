//! A background agent that keeps local paths synchronized with a remote
//! file service: the watcher, the index, the synchronizer and the local
//! command transport, without the input and output around them.

use vstd::prelude::*;

pub mod cli;
pub mod command;
pub mod indexer;
pub mod synchronizer;
pub mod watcher;

use crate::cli::list::ListCommand;
use crate::command::pipe::{CommandWriter, TransportError, WriterState};
use crate::command::wire::{command_bytes, framed};

verus! {

/// Why the command line named nothing to do.
#[derive(Clone, Copy, Debug, PartialEq, Eq, Structural)]
pub enum CliError {
    /// Neither daemon mode nor a command was asked for.
    NoCommand,
}

impl CliError {
    /// What to tell the operator.
    pub fn message(&self) -> (message: String)
        ensures
            message@ == "no command provided. To start client in daemon mode, use --daemon."@,
    {
        match self {
            CliError::NoCommand => {
                "no command provided. To start client in daemon mode, use --daemon.".to_owned()
            },
        }
    }
}

/// How much the process logs.
#[derive(Clone, Copy, Debug, PartialEq, Eq, Structural)]
pub enum LogLevel {
    Info,
    Debug,
    Trace,
}

/// A command for a running daemon.
#[derive(Clone, Copy, Debug, PartialEq, Eq)]
pub enum Command {
    /// List the tracked entries.
    List(ListCommand),
}

/// Mathematical value of a [`Command`]: its kind.
pub enum CommandView {
    List,
}

impl View for Command {
    type V = CommandView;

    open spec fn view(&self) -> CommandView {
        match *self {
            Command::List(_) => CommandView::List,
        }
    }
}

/// A command that can run against a daemon through a command writer.
pub trait Handler {
    /// The command that this handler sends.
    spec fn command(&self) -> CommandView;

    /// Executes the command handler: puts the command on the bus. The bus
    /// has to be connected and unused; it comes back waiting for the
    /// response, with the command's frame to write. On any other bus the
    /// handler fails with `OutOfTurn`.
    fn handler(&self, command_bus: CommandWriter) -> (sent: Result<CommandWriter, TransportError>)
        ensures
            match sent {
                Ok(bus) => command_bus.state() == WriterState::Send && command_bus.steps_to(
                    &bus,
                    WriterState::AwaitResponse,
                    framed(command_bytes(self.command())),
                ),
                Err(error) => command_bus.state() != WriterState::Send && error
                    == TransportError::OutOfTurn,
            },
    ;
}

/// The parsed command line.
#[derive(Debug)]
pub struct Cli {
    /// The level of verbosity: how often `--verbose` was given.
    pub verbose: usize,
    /// If set, the process runs as the daemon.
    pub daemon: bool,
    /// Files, directories or glob patterns to watch.
    pub files: Vec<String>,
    /// Path of a configuration file.
    pub config: Option<String>,
    /// The command to execute.
    pub command: Option<Command>,
}

impl Cli {
    /// Get the current command to execute: the handler of the command that
    /// was given, or `NoCommand` where none was.
    pub fn command(self) -> (handler: Result<Box<dyn Handler>, CliError>)
        ensures
            match self.command {
                Some(command) => handler matches Ok(chosen) && chosen.command() == command@,
                None => handler matches Err(error) && error == CliError::NoCommand,
            },
    {
        match self.command {
            Some(Command::List(cmd)) => Ok(Box::new(cmd)),
            None => Err(CliError::NoCommand),
        }
    }

    /// The log level that the verbosity asks for: `Debug` for one
    /// `--verbose`, `Trace` for two, `Info` for none or more.
    pub fn log_level(&self) -> (level: LogLevel)
        ensures
            level == if self.verbose == 1 {
                LogLevel::Debug
            } else if self.verbose == 2 {
                LogLevel::Trace
            } else {
                LogLevel::Info
            },
    {
        match self.verbose {
            1 => LogLevel::Debug,
            2 => LogLevel::Trace,
            _ => LogLevel::Info,
        }
    }
}

} // verus!

