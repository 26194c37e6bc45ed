//! Toast notifications.
pub mod manager;
