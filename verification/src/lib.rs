//! Verified core of the PCL CE extension daemon: the wire framing of the
//! named-pipe protocol, HMAC request authentication over canonical JSON,
//! JSON-RPC dispatch and the pure parts of the SMTC, toast and update
//! subsystems.
pub mod text;
pub mod error;
pub mod ipc;
pub mod json;
pub mod json_syntax;
pub mod auth;
pub mod toast;
pub mod rpc;
pub mod smtc;
pub mod update;
