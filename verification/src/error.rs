//! The error type shared by the whole library.
use vstd::prelude::*;

use crate::text::{hex_upper_padded, push_hex_upper, signed_decimal};
use crate::json::push_signed;

verus! {

/// Everything that can go wrong in the daemon. Variants that wrap an error
/// of another library carry that error's message.
#[derive(Debug, PartialEq, Eq)]
pub enum AppError {
    MissingEnvironmentVariable(String),
    InvalidBase64(String),
    Utf8Error(String),
    Io(String),
    PipeServer(String),
    PipeConnection(String),
    PipeDisconnected,
    Protocol(String),
    HmacVerificationFailed,
    MissingHmac,
    InvalidHmacKeyLength,
    UnknownMethod(String),
    InvalidRpcParams(String),
    RpcError { code: i32, msg: String },
    Smtc(String),
    SmtcNotInitialized,
    Toast(String),
    Update(String),
    UpdateSignatureFailed,
    FileNotFound(String),
    Windows(String),
    HResult(i32),
}

impl AppError {
    /// The human-readable text of the error.
    pub open spec fn spec_message(&self) -> Seq<char> {
        match self {
            AppError::MissingEnvironmentVariable(s) => "Missing environment variable: "@ + s@,
            AppError::InvalidBase64(s) => "Invalid base64: "@ + s@,
            AppError::Utf8Error(s) => "UTF-8 decode error: "@ + s@,
            AppError::Io(s) => "IO error: "@ + s@,
            AppError::PipeServer(s) => "Pipe server error: "@ + s@,
            AppError::PipeConnection(s) => "Pipe connection error: "@ + s@,
            AppError::PipeDisconnected => "Pipe disconnected"@,
            AppError::Protocol(s) => "Protocol error: "@ + s@,
            AppError::HmacVerificationFailed => "HMAC verification failed"@,
            AppError::MissingHmac => "Missing HMAC signature in request"@,
            AppError::InvalidHmacKeyLength => "Invalid HMAC key length"@,
            AppError::UnknownMethod(s) => "Unknown RPC method: "@ + s@,
            AppError::InvalidRpcParams(s) => "Invalid RPC params: "@ + s@,
            AppError::RpcError { code, msg } => "RPC error: code="@ + signed_decimal(*code as int) + " msg="@ + msg@,
            AppError::Smtc(s) => "SMTC error: "@ + s@,
            AppError::SmtcNotInitialized => "SMTC not initialized"@,
            AppError::Toast(s) => "Toast error: "@ + s@,
            AppError::Update(s) => "Update error: "@ + s@,
            AppError::UpdateSignatureFailed => "Update signature verification failed"@,
            AppError::FileNotFound(s) => "File not found: "@ + s@,
            AppError::Windows(s) => "Windows API error: "@ + s@,
            AppError::HResult(h) => "Windows HRESULT: 0x"@ + hex_upper_padded((*h as u32) as nat, 8),
        }
    }

    /// The human-readable text of the error.
    pub fn message(&self) -> (r: String)
        ensures
            r@ == self.spec_message(),
    {
        match self {
            AppError::MissingEnvironmentVariable(s) => prefixed("Missing environment variable: ", s),
            AppError::InvalidBase64(s) => prefixed("Invalid base64: ", s),
            AppError::Utf8Error(s) => prefixed("UTF-8 decode error: ", s),
            AppError::Io(s) => prefixed("IO error: ", s),
            AppError::PipeServer(s) => prefixed("Pipe server error: ", s),
            AppError::PipeConnection(s) => prefixed("Pipe connection error: ", s),
            AppError::PipeDisconnected => String::from_str("Pipe disconnected"),
            AppError::Protocol(s) => prefixed("Protocol error: ", s),
            AppError::HmacVerificationFailed => String::from_str("HMAC verification failed"),
            AppError::MissingHmac => String::from_str("Missing HMAC signature in request"),
            AppError::InvalidHmacKeyLength => String::from_str("Invalid HMAC key length"),
            AppError::UnknownMethod(s) => prefixed("Unknown RPC method: ", s),
            AppError::InvalidRpcParams(s) => prefixed("Invalid RPC params: ", s),
            AppError::RpcError { code, msg } => {
                let mut out = String::from_str("RPC error: code=");
                push_signed(&mut out, *code as i64);
                out.append(" msg=");
                out.append(msg.as_str());
                out
            },
            AppError::Smtc(s) => prefixed("SMTC error: ", s),
            AppError::SmtcNotInitialized => String::from_str("SMTC not initialized"),
            AppError::Toast(s) => prefixed("Toast error: ", s),
            AppError::Update(s) => prefixed("Update error: ", s),
            AppError::UpdateSignatureFailed => String::from_str("Update signature verification failed"),
            AppError::FileNotFound(s) => prefixed("File not found: ", s),
            AppError::Windows(s) => prefixed("Windows API error: ", s),
            AppError::HResult(h) => {
                let mut out = String::from_str("Windows HRESULT: 0x");
                push_hex_upper(&mut out, *h as u32, 8);
                out
            },
        }
    }
}

fn prefixed(prefix: &str, s: &String) -> (r: String)
    ensures
        r@ == prefix@ + s@,
{
    let mut out = String::from_str(prefix);
    out.append(s.as_str());
    out
}

} // verus!
