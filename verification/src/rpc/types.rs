//! JSON-RPC 2.0 messages.
use vstd::prelude::*;

use crate::json::JsonValue;

pub mod error_codes;

verus! {

/// Incoming JSON-RPC 2.0 request from .NET.
#[derive(Debug)]
pub struct RpcRequest {
    pub jsonrpc: Option<String>,
    pub method: String,
    /// `Null` when the request has no parameters.
    pub params: JsonValue,
    pub id: Option<JsonValue>,
    /// HMAC-SHA256 signature: hex(HMAC(secret, method.canonical(params).ts)) (`_hmac`).
    pub hmac: Option<String>,
    /// Timestamp of the request in Unix milliseconds (`_ts`).
    pub ts: Option<u64>,
    /// Unique nonce to prevent replay attacks (`_nonce`).
    pub nonce: Option<String>,
}

/// JSON-RPC 2.0 error object.
#[derive(Debug)]
pub struct RpcErrorData {
    pub code: i32,
    pub message: String,
    pub data: Option<JsonValue>,
}

/// Outgoing JSON-RPC 2.0 response.
#[derive(Debug)]
pub struct RpcResponse {
    pub jsonrpc: String,
    pub result: Option<JsonValue>,
    pub error: Option<RpcErrorData>,
    pub id: Option<JsonValue>,
    /// Signature of the response by the daemon (`_hmac`).
    pub hmac: Option<String>,
    /// Timestamp of the signature in Unix milliseconds (`_ts`).
    pub ts: Option<u64>,
}

/// A message sent from the daemon to .NET (not a response, but a method call).
/// Used for SMTC callbacks and progress updates.
#[derive(Debug)]
pub struct RpcNotification {
    pub jsonrpc: String,
    pub method: String,
    pub params: JsonValue,
}

impl RpcResponse {
    /// Create a success response.
    pub fn success(id: Option<JsonValue>, result: JsonValue) -> (r: Self)
        ensures
            r.jsonrpc@ == "2.0"@,
            r.result == Some(result),
            r.error is None,
            r.id == id,
            r.hmac is None,
            r.ts is None,
    {
        RpcResponse {
            jsonrpc: String::from_str("2.0"),
            result: Some(result),
            error: None,
            id,
            hmac: None,
            ts: None,
        }
    }

    /// Create an error response.
    pub fn error(id: Option<JsonValue>, code: i32, message: String) -> (r: Self)
        ensures
            r.jsonrpc@ == "2.0"@,
            r.result is None,
            r.error == Some(RpcErrorData { code, message, data: None }),
            r.id == id,
            r.hmac is None,
            r.ts is None,
    {
        RpcResponse {
            jsonrpc: String::from_str("2.0"),
            result: None,
            error: Some(RpcErrorData { code, message, data: None }),
            id,
            hmac: None,
            ts: None,
        }
    }

    /// Create an error response with additional data.
    pub fn error_with_data(id: Option<JsonValue>, code: i32, message: String, data: JsonValue) -> (r: Self)
        ensures
            r.jsonrpc@ == "2.0"@,
            r.result is None,
            r.error == Some(RpcErrorData { code, message, data: Some(data) }),
            r.id == id,
            r.hmac is None,
            r.ts is None,
    {
        RpcResponse {
            jsonrpc: String::from_str("2.0"),
            result: None,
            error: Some(RpcErrorData { code, message, data: Some(data) }),
            id,
            hmac: None,
            ts: None,
        }
    }
}

impl RpcNotification {
    /// A notification calling `method` with `params`.
    pub fn new(method: String, params: JsonValue) -> (r: Self)
        ensures
            r.jsonrpc@ == "2.0"@,
            r.method == method,
            r.params == params,
    {
        RpcNotification { jsonrpc: String::from_str("2.0"), method, params }
    }
}

} // verus!
