//! The commands an operator can send to a running daemon.

pub mod list;
