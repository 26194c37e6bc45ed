//! System Media Transport Controls.
pub mod manager;
