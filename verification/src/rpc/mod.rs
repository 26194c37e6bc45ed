//! JSON-RPC 2.0 between the .NET host and the daemon.
pub mod dispatcher;
pub mod methods;
pub mod types;
