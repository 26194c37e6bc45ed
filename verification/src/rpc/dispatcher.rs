//! Routing of requests to their handlers, and response signing.
use vstd::prelude::*;

use crate::auth::hmac::{
    compute_hmac_raw, hmac_hex, in_window, now_ms, request_signature, signature_accepted, verify_hmac_at,
};
use crate::error::AppError;
use crate::json::{canonical, field, push_canonical, push_quoted, push_signed, quoted, JsonNumber, JsonValue};
use crate::rpc::methods::{
    auth_free, is_auth_free_method, SMTC_SET_MEDIA_INFO, SMTC_SET_PLAYBACK_STATUS, SMTC_SET_THUMBNAIL,
    SMTC_SET_TIMELINE, SYSTEM_DELAY, SYSTEM_PING, SYSTEM_SHUTDOWN, TOAST_CLEAR, TOAST_SHOW, UPDATE_APPLY,
    UPDATE_STAGE_RESTART,
};
use crate::rpc::types::error_codes::{AUTH_FAILED, AUTH_TS_MISSING, INTERNAL_ERROR, METHOD_NOT_FOUND, PARSE_ERROR};
use crate::rpc::types::{RpcErrorData, RpcRequest, RpcResponse};
use crate::text::{decimal, push_char, push_decimal, signed_decimal, text_eq};
use crate::toast::manager::{parse_toast_params, toast_decoding, ToastManager};

verus! {

/// The value of a successful reply.
pub enum ReplyValue {
    /// `null`
    Null,
    /// A JSON string.
    Text(Seq<char>),
    /// `{"slept_ms": ms}`
    SleptMs(u64),
    /// `{"ok": true}`
    OkTrue,
}

/// What a request is answered with.
pub enum Reply {
    Value(ReplyValue),
    Failure { code: i32, message: Seq<char> },
}

/// How long `system/delay` waits: the `ms` parameter when it is a
/// non-negative integer, else zero.
pub open spec fn delay_of(params: JsonValue) -> u64 {
    match field(params, "ms"@) {
        Some(JsonValue::Number(JsonNumber::PosInt(ms))) => ms,
        _ => 0,
    }
}

/// The reply to a request routed to `method` (authentication passed).
pub open spec fn routed_reply(method: Seq<char>, params: JsonValue) -> Reply {
    if method == SMTC_SET_MEDIA_INFO@ || method == SMTC_SET_PLAYBACK_STATUS@
        || method == SMTC_SET_TIMELINE@ || method == SMTC_SET_THUMBNAIL@ {
        Reply::Value(ReplyValue::Null)
    } else if method == TOAST_SHOW@ {
        match toast_decoding(params) {
            Ok(_) => Reply::Value(ReplyValue::OkTrue),
            Err(m) => Reply::Failure { code: INTERNAL_ERROR, message: "Invalid RPC params: "@ + m },
        }
    } else if method == TOAST_CLEAR@ {
        match field(params, "tag"@) {
            Some(JsonValue::String(_)) => Reply::Value(ReplyValue::OkTrue),
            _ => Reply::Failure {
                code: INTERNAL_ERROR,
                message: "Invalid RPC params: "@ + "missing 'tag' field"@,
            },
        }
    } else if method == UPDATE_APPLY@ || method == UPDATE_STAGE_RESTART@ {
        Reply::Value(ReplyValue::Null)
    } else if method == SYSTEM_PING@ {
        Reply::Value(ReplyValue::Text("pong"@))
    } else if method == SYSTEM_DELAY@ {
        Reply::Value(ReplyValue::SleptMs(delay_of(params)))
    } else if method == SYSTEM_SHUTDOWN@ {
        Reply::Value(ReplyValue::Text("shutting_down"@))
    } else {
        Reply::Failure { code: METHOD_NOT_FOUND, message: "Unknown method: "@ + method }
    }
}

/// The reply to a request received at time `now_ms`: methods other than
/// the ping must carry a signature and a timestamp, and the signature must
/// be accepted, before the request is routed.
pub open spec fn reply_to(now_ms: u64, hmac_key: Seq<u8>, req: RpcRequest) -> Reply {
    if !auth_free(req.method@) && (req.hmac is None || req.ts is None) {
        Reply::Failure { code: AUTH_TS_MISSING, message: "Missing HMAC signature or timestamp"@ }
    } else if !auth_free(req.method@) && !signature_accepted(
        now_ms,
        hmac_key,
        req.method@,
        req.params,
        req.ts->0,
        req.hmac->0@,
    ) {
        Reply::Failure { code: AUTH_FAILED, message: "HMAC verification failed"@ }
    } else {
        routed_reply(req.method@, req.params)
    }
}

/// Whether a result value is the one a reply describes.
pub open spec fn value_matches(x: JsonValue, v: ReplyValue) -> bool {
    match v {
        ReplyValue::Null => x is Null,
        ReplyValue::Text(t) => (x matches JsonValue::String(s) && s@ == t),
        ReplyValue::SleptMs(ms) => (x matches JsonValue::Object(es) && es@.len() == 1 && es@[0].0@
            == "slept_ms"@ && es@[0].1 == JsonValue::Number(JsonNumber::PosInt(ms))),
        ReplyValue::OkTrue => (x matches JsonValue::Object(es) && es@.len() == 1 && es@[0].0@ == "ok"@
            && es@[0].1 == JsonValue::Bool(true)),
    }
}

/// Whether a response carries `reply` for the request with `id`, unsigned.
pub open spec fn response_matches(r: RpcResponse, id: Option<JsonValue>, reply: Reply) -> bool {
    &&& r.jsonrpc@ == "2.0"@
    &&& r.id == id
    &&& r.hmac is None
    &&& r.ts is None
    &&& match reply {
        Reply::Value(v) => r.error is None && (r.result matches Some(x) && value_matches(x, v)),
        Reply::Failure { code, message } => r.result is None && (r.error matches Some(e) && e.code
            == code && e.message@ == message && e.data is None),
    }
}

/// A response, and how long to wait before sending it.
pub struct Dispatched {
    pub response: RpcResponse,
    /// Milliseconds the host waits before it sends the response
    /// (`system/delay`); zero for every other method.
    pub delay_ms: u64,
}

/// How long the host waits before answering a request.
pub open spec fn delay_for(now_ms: u64, hmac_key: Seq<u8>, req: RpcRequest) -> u64 {
    match reply_to(now_ms, hmac_key, req) {
        Reply::Value(ReplyValue::SleptMs(ms)) => ms,
        _ => 0,
    }
}

/// The reply to a frame that is not a JSON-RPC request:
/// `{"jsonrpc": "2.0", "error": {"code": -32700, "message": "Parse error"}, "id": null}`.
/// It is sent unsigned.
pub fn parse_error_reply() -> (r: JsonValue)
    ensures
        r matches JsonValue::Object(es) && es@.len() == 3
            && es@[0].0@ == "jsonrpc"@ && (es@[0].1 matches JsonValue::String(v) && v@ == "2.0"@)
            && es@[1].0@ == "error"@ && (es@[1].1 matches JsonValue::Object(e) && e@.len() == 2
                && e@[0].0@ == "code"@ && e@[0].1 == JsonValue::Number(JsonNumber::NegInt(PARSE_ERROR as i64))
                && e@[1].0@ == "message"@ && (e@[1].1 matches JsonValue::String(m) && m@ == "Parse error"@))
            && es@[2].0@ == "id"@ && es@[2].1 == JsonValue::Null,
{
    let mut error: Vec<(String, JsonValue)> = Vec::new();
    error.push((String::from_str("code"), JsonValue::Number(JsonNumber::NegInt(PARSE_ERROR as i64))));
    error.push((String::from_str("message"), JsonValue::String(String::from_str("Parse error"))));
    let mut es: Vec<(String, JsonValue)> = Vec::new();
    es.push((String::from_str("jsonrpc"), JsonValue::String(String::from_str("2.0"))));
    es.push((String::from_str("error"), JsonValue::Object(error)));
    es.push((String::from_str("id"), JsonValue::Null));
    JsonValue::Object(es)
}

/// Verify the HMAC signature on a request (with timestamp replay check).
fn verify_request_hmac(now_ms: u64, hmac_key: &[u8], request: &RpcRequest) -> (r: Result<(), AppError>)
    ensures
        (request.hmac is None || request.ts is None) ==> r == Err::<(), AppError>(AppError::MissingHmac),
        !(request.hmac is None || request.ts is None) ==> if signature_accepted(
            now_ms,
            hmac_key@,
            request.method@,
            request.params,
            request.ts->0,
            request.hmac->0@,
        ) {
            r is Ok
        } else {
            r == Err::<(), AppError>(AppError::HmacVerificationFailed)
        },
{
    let hmac_val = match &request.hmac {
        Some(h) => h,
        None => return Err(AppError::MissingHmac),
    };
    let ts = match request.ts {
        Some(t) => t,
        None => return Err(AppError::MissingHmac),
    };
    let valid = verify_hmac_at(
        now_ms,
        hmac_key,
        request.method.as_str(),
        &request.params,
        ts,
        hmac_val.as_str(),
    );
    if valid {
        Ok(())
    } else {
        Err(AppError::HmacVerificationFailed)
    }
}

/// `{"key": value}` with a single entry.
fn single_entry(key: &str, value: JsonValue) -> (r: JsonValue)
    ensures
        r matches JsonValue::Object(es) && es@.len() == 1 && es@[0].0@ == key@ && es@[0].1 == value,
{
    let mut es: Vec<(String, JsonValue)> = Vec::new();
    es.push((String::from_str(key), value));
    JsonValue::Object(es)
}

/// Wrap a handler's outcome into a JSON-RPC response.
fn handle_result(id: Option<JsonValue>, result: Result<JsonValue, AppError>) -> (r: RpcResponse)
    ensures
        match result {
            Ok(v) => r.jsonrpc@ == "2.0"@ && r.id == id && r.result == Some(v) && r.error is None
                && r.hmac is None && r.ts is None,
            Err(e) => r.jsonrpc@ == "2.0"@ && r.id == id && r.result is None && r.hmac is None
                && r.ts is None && (r.error matches Some(d) && d.code == INTERNAL_ERROR
                && d.message@ == e.spec_message() && d.data is None),
        },
{
    match result {
        Ok(value) => RpcResponse::success(id, value),
        Err(e) => RpcResponse::error(id, INTERNAL_ERROR, e.message()),
    }
}

fn ok_true() -> (r: JsonValue)
    ensures
        value_matches(r, ReplyValue::OkTrue),
{
    single_entry("ok", JsonValue::Bool(true))
}

fn handle_toast_show(params: &JsonValue) -> (r: Result<JsonValue, AppError>)
    ensures
        match toast_decoding(*params) {
            Ok(_) => r matches Ok(v) && value_matches(v, ReplyValue::OkTrue),
            Err(m) => r matches Err(AppError::InvalidRpcParams(e)) && e@ == m,
        },
{
    let notification = match parse_toast_params(params) {
        Ok(n) => n,
        Err(e) => return Err(e),
    };
    let manager = ToastManager::new(String::from_str("PCL-Community.PCL"));
    match manager.show(&notification) {
        Ok(()) => {},
        Err(e) => return Err(e),
    }
    Ok(ok_true())
}

fn handle_toast_clear(params: &JsonValue) -> (r: Result<JsonValue, AppError>)
    ensures
        match field(*params, "tag"@) {
            Some(JsonValue::String(_)) => r matches Ok(v) && value_matches(v, ReplyValue::OkTrue),
            _ => r matches Err(AppError::InvalidRpcParams(e)) && e@ == "missing 'tag' field"@,
        },
{
    let tag = match params.get("tag") {
        Some(v) => match v.as_str() {
            Some(t) => t,
            None => return Err(AppError::InvalidRpcParams(String::from_str("missing 'tag' field"))),
        },
        None => return Err(AppError::InvalidRpcParams(String::from_str("missing 'tag' field"))),
    };
    let manager = ToastManager::new(String::from_str("PCL-Community.PCL"));
    match manager.clear_by_tag(tag) {
        Ok(()) => {},
        Err(e) => return Err(e),
    }
    Ok(ok_true())
}

/// Dispatch an RPC request, received at time `now_ms`, to its handler.
///
/// This function always returns a valid `RpcResponse` — errors are encoded
/// as JSON-RPC error responses.
pub fn dispatch_at(now_ms: u64, hmac_key: &[u8], request: RpcRequest) -> (d: Dispatched)
    ensures
        response_matches(d.response, request.id, reply_to(now_ms, hmac_key@, request)),
        d.delay_ms == delay_for(now_ms, hmac_key@, request),
{
    if !is_auth_free_method(request.method.as_str()) {
        match verify_request_hmac(now_ms, hmac_key, &request) {
            Ok(()) => {},
            Err(e) => {
                let id = request.id;
                let response = match e {
                    AppError::MissingHmac => RpcResponse::error(
                        id,
                        AUTH_TS_MISSING,
                        String::from_str("Missing HMAC signature or timestamp"),
                    ),
                    AppError::HmacVerificationFailed => RpcResponse::error(
                        id,
                        AUTH_FAILED,
                        String::from_str("HMAC verification failed"),
                    ),
                    _ => RpcResponse::error(id, AUTH_FAILED, String::from_str("Authentication error")),
                };
                return Dispatched { response, delay_ms: 0 };
            },
        }
    }
    let method = request.method;
    let params = request.params;
    let id = request.id;
    let m = method.as_str();
    if text_eq(m, SMTC_SET_MEDIA_INFO) || text_eq(m, SMTC_SET_PLAYBACK_STATUS) || text_eq(m, SMTC_SET_TIMELINE)
        || text_eq(m, SMTC_SET_THUMBNAIL) {
        Dispatched { response: handle_result(id, Ok(JsonValue::Null)), delay_ms: 0 }
    } else if text_eq(m, TOAST_SHOW) {
        Dispatched { response: handle_result(id, handle_toast_show(&params)), delay_ms: 0 }
    } else if text_eq(m, TOAST_CLEAR) {
        Dispatched { response: handle_result(id, handle_toast_clear(&params)), delay_ms: 0 }
    } else if text_eq(m, UPDATE_APPLY) || text_eq(m, UPDATE_STAGE_RESTART) {
        Dispatched { response: handle_result(id, Ok(JsonValue::Null)), delay_ms: 0 }
    } else if text_eq(m, SYSTEM_PING) {
        Dispatched { response: RpcResponse::success(id, JsonValue::String(String::from_str("pong"))), delay_ms: 0 }
    } else if text_eq(m, SYSTEM_DELAY) {
        let ms = match params.get("ms") {
            Some(v) => match v.as_u64() {
                Some(u) => u,
                None => 0,
            },
            None => 0,
        };
        let slept = single_entry("slept_ms", JsonValue::Number(JsonNumber::PosInt(ms)));
        Dispatched { response: handle_result(id, Ok(slept)), delay_ms: ms }
    } else if text_eq(m, SYSTEM_SHUTDOWN) {
        Dispatched {
            response: handle_result(id, Ok(JsonValue::String(String::from_str("shutting_down")))),
            delay_ms: 0,
        }
    } else {
        let mut message = String::from_str("Unknown method: ");
        message.append(m);
        Dispatched { response: RpcResponse::error(id, METHOD_NOT_FOUND, message), delay_ms: 0 }
    }
}

/// Dispatch an RPC request to its handler, checking its timestamp against
/// the current time.
pub fn dispatch(hmac_key: &[u8], request: RpcRequest) -> (d: Dispatched)
    ensures
        exists|now_ms: u64|
            response_matches(d.response, request.id, #[trigger] reply_to(now_ms, hmac_key@, request))
                && d.delay_ms == delay_for(now_ms, hmac_key@, request),
{
    let now = now_ms();
    let ghost req = request;
    let d = dispatch_at(now, hmac_key, request);
    assert(response_matches(d.response, req.id, reply_to(now, hmac_key@, req)));
    d
}

/// The canonical JSON of an error object `{"code", "message", "data"}`
/// (`data` only when present): keys in sorted order.
pub open spec fn error_content(e: RpcErrorData) -> Seq<char> {
    seq!['{'] + quoted("code"@) + seq![':'] + signed_decimal(e.code as int) + match e.data {
        Some(d) => seq![','] + quoted("data"@) + seq![':'] + canonical(d),
        None => Seq::empty(),
    } + seq![','] + quoted("message"@) + seq![':'] + quoted(e.message@) + seq!['}']
}

/// What a response signature covers: the result, else the error, else `null`.
pub open spec fn signed_content(r: RpcResponse) -> Seq<char> {
    match r.result {
        Some(x) => canonical(x),
        None => match r.error {
            Some(e) => error_content(e),
            None => "null"@,
        },
    }
}

/// The payload of a response signature: `$response.content.ts`.
pub open spec fn response_payload(r: RpcResponse, ts_ms: u64) -> Seq<char> {
    "$response."@ + signed_content(r) + seq!['.'] + decimal(ts_ms as nat)
}

/// Appends the canonical JSON of an error object.
fn push_error_content(out: &mut String, e: &RpcErrorData)
    ensures
        final(out)@ == old(out)@ + error_content(*e),
{
    let ghost start = old(out)@;
    push_char(out, '{');
    push_quoted(out, "code");
    push_char(out, ':');
    push_signed(out, e.code as i64);
    match &e.data {
        Some(d) => {
            push_char(out, ',');
            push_quoted(out, "data");
            push_char(out, ':');
            push_canonical(out, d);
        },
        None => {},
    }
    push_char(out, ',');
    push_quoted(out, "message");
    push_char(out, ':');
    push_quoted(out, e.message.as_str());
    push_char(out, '}');
    assert(out@ == start + error_content(*e));
}

/// Sign a response with the daemon's server HMAC key at time `ts_ms`.
///
/// Adds `_hmac` and `_ts` fields so .NET can verify the response
/// came from the genuine daemon (bidirectional auth with replay protection).
pub fn sign_response_at(response: &mut RpcResponse, server_key: &[u8], ts_ms: u64)
    ensures
        final(response).hmac matches Some(h) && h@ == hmac_hex(server_key@, response_payload(*old(response), ts_ms)),
        final(response).ts == Some(ts_ms),
        final(response).jsonrpc == old(response).jsonrpc,
        final(response).result == old(response).result,
        final(response).error == old(response).error,
        final(response).id == old(response).id,
{
    let ghost content = signed_content(*response);
    let mut payload = String::from_str("$response.");
    match &response.result {
        Some(r) => push_canonical(&mut payload, r),
        None => match &response.error {
            Some(e) => push_error_content(&mut payload, e),
            None => payload.append("null"),
        },
    }
    assert(payload@ == "$response."@ + content);
    push_char(&mut payload, '.');
    push_decimal(&mut payload, ts_ms);
    assert(payload@ == response_payload(*response, ts_ms));
    let hmac = compute_hmac_raw(server_key, payload.as_str());
    response.hmac = Some(hmac);
    response.ts = Some(ts_ms);
}

/// Sign a response with the daemon's server HMAC key at the current time.
pub fn sign_response(response: &mut RpcResponse, server_key: &[u8])
    ensures
        final(response).ts is Some,
        final(response).hmac matches Some(h) && h@ == hmac_hex(
            server_key@,
            response_payload(*old(response), final(response).ts->0),
        ),
        final(response).jsonrpc == old(response).jsonrpc,
        final(response).result == old(response).result,
        final(response).error == old(response).error,
        final(response).id == old(response).id,
{
    let ts = now_ms();
    sign_response_at(response, server_key, ts);
}

/// A request for any method but the ping that does not carry an accepted
/// signature is refused with an authentication error, before any handler
/// runs.
pub proof fn lemma_unsigned_requests_refused(now_ms: u64, hmac_key: Seq<u8>, req: RpcRequest)
    requires
        !auth_free(req.method@),
        req.hmac is None || req.ts is None || !signature_accepted(
            now_ms,
            hmac_key,
            req.method@,
            req.params,
            req.ts->0,
            req.hmac->0@,
        ),
    ensures
        reply_to(now_ms, hmac_key, req) matches Reply::Failure { code, .. } && (code == AUTH_TS_MISSING
            || code == AUTH_FAILED),
{
}

/// A request signed with the shared key, whose timestamp lies in the
/// replay window, reaches its handler.
pub proof fn lemma_signed_requests_routed(now_ms: u64, hmac_key: Seq<u8>, req: RpcRequest)
    requires
        req.ts is Some,
        req.hmac is Some,
        req.hmac->0@ == request_signature(hmac_key, req.method@, req.params, req.ts->0),
        in_window(now_ms, req.ts->0),
    ensures
        reply_to(now_ms, hmac_key, req) == routed_reply(req.method@, req.params),
{
}

/// The ping is answered with `"pong"`, signed or not.
pub proof fn lemma_ping_needs_no_signature(now_ms: u64, hmac_key: Seq<u8>, req: RpcRequest)
    requires
        req.method@ == SYSTEM_PING@,
    ensures
        reply_to(now_ms, hmac_key, req) == Reply::Value(ReplyValue::Text("pong"@)),
{
    reveal_strlit("system/ping");
    reveal_strlit("smtc/setMediaInfo");
    reveal_strlit("smtc/setPlaybackStatus");
    reveal_strlit("smtc/setTimeline");
    reveal_strlit("smtc/setThumbnail");
    reveal_strlit("toast/show");
    reveal_strlit("toast/clear");
    reveal_strlit("update/apply");
    reveal_strlit("update/stageRestart");
    assert(SYSTEM_PING@ == "system/ping"@);
    assert(SYSTEM_PING@.len() == 11);
    assert(SYSTEM_PING@ != SMTC_SET_MEDIA_INFO@);
    assert(SYSTEM_PING@ != TOAST_SHOW@);
    assert(SYSTEM_PING@ != UPDATE_APPLY@);
    assert(SYSTEM_PING@ != TOAST_CLEAR@) by {
        assert(SYSTEM_PING@[0] != TOAST_CLEAR@[0]);
    }
}

/// Every authenticated request that names no known method is answered
/// with "method not found", naming the method.
pub proof fn lemma_unknown_method(now_ms: u64, hmac_key: Seq<u8>, req: RpcRequest)
    requires
        req.method@ != SMTC_SET_MEDIA_INFO@,
        req.method@ != SMTC_SET_PLAYBACK_STATUS@,
        req.method@ != SMTC_SET_TIMELINE@,
        req.method@ != SMTC_SET_THUMBNAIL@,
        req.method@ != TOAST_SHOW@,
        req.method@ != TOAST_CLEAR@,
        req.method@ != UPDATE_APPLY@,
        req.method@ != UPDATE_STAGE_RESTART@,
        req.method@ != SYSTEM_PING@,
        req.method@ != SYSTEM_DELAY@,
        req.method@ != SYSTEM_SHUTDOWN@,
        req.ts is Some,
        req.hmac is Some,
        signature_accepted(now_ms, hmac_key, req.method@, req.params, req.ts->0, req.hmac->0@),
    ensures
        reply_to(now_ms, hmac_key, req) == (Reply::Failure {
            code: METHOD_NOT_FOUND,
            message: "Unknown method: "@ + req.method@,
        }),
{
}

/// The delay that the host waits before answering `system/delay` is the
/// one the reply reports.
pub proof fn lemma_delay_reported(now_ms: u64, hmac_key: Seq<u8>, req: RpcRequest)
    ensures
        reply_to(now_ms, hmac_key, req) matches Reply::Value(ReplyValue::SleptMs(ms)) ==> delay_for(
            now_ms,
            hmac_key,
            req,
        ) == ms,
        !(reply_to(now_ms, hmac_key, req) is Value && reply_to(now_ms, hmac_key, req)->Value_0 is SleptMs)
            ==> delay_for(now_ms, hmac_key, req) == 0,
{
}

} // verus!
