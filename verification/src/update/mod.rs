//! Self-update of the daemon.
pub mod manager;
