//! Inter-process communication with the .NET host.
pub mod protocol;
pub mod server;
