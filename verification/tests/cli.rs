use polydrive::cli::list::ListCommand;
use polydrive::{Cli, CliError, Command, LogLevel};

fn cli(verbose: usize, daemon: bool, command: Option<Command>) -> Cli {
    Cli { verbose, daemon, files: vec!["/tmp".to_string()], config: None, command }
}

#[test]
fn command_gives_the_handler_of_the_subcommand() {
    assert!(cli(0, false, Some(Command::List(ListCommand {}))).command().is_ok());
}

#[test]
fn no_command_is_an_error() {
    assert_eq!(cli(0, false, None).command().err(), Some(CliError::NoCommand));
    assert_eq!(cli(0, true, None).command().err(), Some(CliError::NoCommand));
}

#[test]
fn no_command_message() {
    assert_eq!(
        CliError::NoCommand.message(),
        "no command provided. To start client in daemon mode, use --daemon."
    );
}

#[test]
fn verbosity_picks_the_log_level() {
    assert_eq!(cli(0, false, None).log_level(), LogLevel::Info);
    assert_eq!(cli(1, false, None).log_level(), LogLevel::Debug);
    assert_eq!(cli(2, false, None).log_level(), LogLevel::Trace);
    assert_eq!(cli(3, false, None).log_level(), LogLevel::Info);
    assert_eq!(cli(usize::MAX, false, None).log_level(), LogLevel::Info);
}
