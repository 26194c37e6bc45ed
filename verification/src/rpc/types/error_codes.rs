//! Standard JSON-RPC error codes, and the daemon's own.
use vstd::prelude::*;

verus! {

/// Parse error: invalid JSON
pub const PARSE_ERROR: i32 = -32700;
/// Invalid Request: the JSON is valid but not a valid Request object
pub const INVALID_REQUEST: i32 = -32600;
/// Method not found
pub const METHOD_NOT_FOUND: i32 = -32601;
/// Invalid method parameter(s)
pub const INVALID_PARAMS: i32 = -32602;
/// Internal JSON-RPC error
pub const INTERNAL_ERROR: i32 = -32603;

/// Custom: HMAC authentication failed
pub const AUTH_FAILED: i32 = -32001;
/// Custom: HMAC nonce missing
pub const AUTH_NONCE_MISSING: i32 = -32002;
/// Custom: HMAC signature or timestamp missing
pub const AUTH_TS_MISSING: i32 = -32002;
/// Custom: Resource not initialized (e.g. SMTC)
pub const NOT_INITIALIZED: i32 = -32010;

} // verus!
