//! The index of tracked paths and the rules that keep it current.

pub mod convergence;
pub mod entry;
pub mod event;
pub mod index;
pub mod model;
pub mod reconcile;
