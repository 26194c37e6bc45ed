use pcl_ce_extension::auth::hmac::{compute_hmac, compute_hmac_raw};
use pcl_ce_extension::json::{canonical_json, JsonNumber, JsonValue};
use pcl_ce_extension::rpc::dispatcher::{dispatch, dispatch_at, parse_error_reply, sign_response, sign_response_at};
use pcl_ce_extension::rpc::types::error_codes;
use pcl_ce_extension::rpc::types::{RpcRequest, RpcResponse};

const KEY: &[u8] = b"shared-secret";
const NOW: u64 = 1_700_000_000_000;

fn obj(entries: Vec<(&str, JsonValue)>) -> JsonValue {
    JsonValue::Object(entries.into_iter().map(|(k, v)| (k.to_string(), v)).collect())
}

fn text(s: &str) -> JsonValue {
    JsonValue::String(s.to_string())
}

fn request(method: &str, params: JsonValue, signed: bool) -> RpcRequest {
    let (hmac, ts) = if signed {
        (Some(compute_hmac(KEY, method, &params, NOW)), Some(NOW))
    } else {
        (None, None)
    };
    RpcRequest {
        jsonrpc: Some("2.0".to_string()),
        method: method.to_string(),
        params,
        id: Some(JsonValue::Number(JsonNumber::PosInt(7))),
        hmac,
        ts,
        nonce: None,
    }
}

fn error_of(r: &RpcResponse) -> (i32, String) {
    assert!(r.result.is_none());
    let e = r.error.as_ref().unwrap();
    (e.code, e.message.clone())
}

#[test]
fn ping_needs_no_signature() {
    let d = dispatch_at(NOW, KEY, request("system/ping", JsonValue::Null, false));
    assert_eq!(d.response.result, Some(text("pong")));
    assert!(d.response.error.is_none());
    assert_eq!(d.response.id, Some(JsonValue::Number(JsonNumber::PosInt(7))));
    assert_eq!(d.response.jsonrpc, "2.0");
    assert_eq!(d.delay_ms, 0);
}

#[test]
fn unsigned_request_refused() {
    let d = dispatch_at(NOW, KEY, request("smtc/setMediaInfo", JsonValue::Null, false));
    assert_eq!(
        error_of(&d.response),
        (error_codes::AUTH_TS_MISSING, "Missing HMAC signature or timestamp".to_string())
    );
}

#[test]
fn signature_without_timestamp_refused() {
    let mut req = request("toast/clear", JsonValue::Null, true);
    req.ts = None;
    let d = dispatch_at(NOW, KEY, req);
    assert_eq!(error_of(&d.response).0, error_codes::AUTH_TS_MISSING);
}

#[test]
fn bad_signature_refused() {
    let mut req = request("smtc/setTimeline", JsonValue::Null, true);
    req.hmac = Some("00".repeat(32));
    let d = dispatch_at(NOW, KEY, req);
    assert_eq!(error_of(&d.response), (error_codes::AUTH_FAILED, "HMAC verification failed".to_string()));
}

#[test]
fn stale_signature_refused() {
    let req = request("smtc/setTimeline", JsonValue::Null, true);
    let d = dispatch_at(NOW + 30_001, KEY, req);
    assert_eq!(error_of(&d.response).0, error_codes::AUTH_FAILED);
    let req = request("smtc/setTimeline", JsonValue::Null, true);
    let d = dispatch_at(NOW + 30_000, KEY, req);
    assert_eq!(d.response.result, Some(JsonValue::Null));
}

#[test]
fn signed_handlers_answer() {
    for m in ["smtc/setMediaInfo", "smtc/setPlaybackStatus", "smtc/setTimeline", "smtc/setThumbnail", "update/apply", "update/stageRestart"] {
        let d = dispatch_at(NOW, KEY, request(m, obj(vec![("x", text("y"))]), true));
        assert_eq!(d.response.result, Some(JsonValue::Null), "{m}");
        assert!(d.response.error.is_none());
    }
    let d = dispatch_at(NOW, KEY, request("system/shutdown", JsonValue::Null, true));
    assert_eq!(d.response.result, Some(text("shutting_down")));
}

#[test]
fn delay_reports_and_requests_wait() {
    let d = dispatch_at(NOW, KEY, request("system/delay", obj(vec![("ms", JsonValue::Number(JsonNumber::PosInt(250)))]), true));
    assert_eq!(d.delay_ms, 250);
    assert_eq!(d.response.result, Some(obj(vec![("slept_ms", JsonValue::Number(JsonNumber::PosInt(250)))])));
    let d = dispatch_at(NOW, KEY, request("system/delay", obj(vec![("ms", text("250"))]), true));
    assert_eq!(d.delay_ms, 0);
    assert_eq!(d.response.result, Some(obj(vec![("slept_ms", JsonValue::Number(JsonNumber::PosInt(0)))])));
}

#[test]
fn unknown_method_named() {
    let d = dispatch_at(NOW, KEY, request("nope/nothing", JsonValue::Null, true));
    assert_eq!(error_of(&d.response), (error_codes::METHOD_NOT_FOUND, "Unknown method: nope/nothing".to_string()));
    let d = dispatch_at(NOW, KEY, request("update/progress", JsonValue::Null, true));
    assert_eq!(error_of(&d.response).0, error_codes::METHOD_NOT_FOUND);
}

#[test]
fn toast_show_and_clear() {
    let params = obj(vec![("title", text("Hi")), ("tag", text("t1"))]);
    let d = dispatch_at(NOW, KEY, request("toast/show", params, true));
    assert_eq!(d.response.result, Some(obj(vec![("ok", JsonValue::Bool(true))])));

    let d = dispatch_at(NOW, KEY, request("toast/show", obj(vec![("title", JsonValue::Number(JsonNumber::PosInt(5)))]), true));
    assert_eq!(
        error_of(&d.response),
        (error_codes::INTERNAL_ERROR, "Invalid RPC params: invalid type: integer `5`, expected a string".to_string())
    );

    let d = dispatch_at(NOW, KEY, request("toast/clear", obj(vec![("tag", text("t1"))]), true));
    assert_eq!(d.response.result, Some(obj(vec![("ok", JsonValue::Bool(true))])));

    let d = dispatch_at(NOW, KEY, request("toast/clear", JsonValue::Null, true));
    assert_eq!(
        error_of(&d.response),
        (error_codes::INTERNAL_ERROR, "Invalid RPC params: missing 'tag' field".to_string())
    );
}

#[test]
fn dispatch_uses_clock() {
    let d = dispatch(KEY, request("system/ping", JsonValue::Null, false));
    assert_eq!(d.response.result, Some(text("pong")));
    // Signed long ago: refused against the current clock.
    let d = dispatch(KEY, request("update/apply", JsonValue::Null, true));
    assert_eq!(error_of(&d.response).0, error_codes::AUTH_FAILED);
}

#[test]
fn response_signature_covers_result() {
    let mut r = RpcResponse::success(None, text("pong"));
    sign_response_at(&mut r, b"server", 123);
    assert_eq!(r.ts, Some(123));
    assert_eq!(r.hmac, Some(compute_hmac_raw(b"server", "$response.\"pong\".123")));
    assert_eq!(r.result, Some(text("pong")));
}

#[test]
fn response_signature_covers_error() {
    let mut r = RpcResponse::error(Some(JsonValue::Null), -32601, "Unknown method: x".to_string());
    sign_response_at(&mut r, b"server", 9);
    assert_eq!(
        r.hmac,
        Some(compute_hmac_raw(b"server", r#"$response.{"code":-32601,"message":"Unknown method: x"}.9"#))
    );
    let mut r = RpcResponse::error_with_data(None, 5, "m".to_string(), JsonValue::Bool(false));
    sign_response_at(&mut r, b"server", 9);
    assert_eq!(
        r.hmac,
        Some(compute_hmac_raw(b"server", r#"$response.{"code":5,"data":false,"message":"m"}.9"#))
    );
}

#[test]
fn response_signature_without_content() {
    let mut r = RpcResponse::success(None, JsonValue::Null);
    r.result = None;
    sign_response(&mut r, b"k");
    let ts = r.ts.unwrap();
    assert_eq!(r.hmac, Some(compute_hmac_raw(b"k", &format!("$response.null.{ts}"))));
}

#[test]
fn result_content_is_canonical() {
    let v = obj(vec![("b", JsonValue::Null), ("a", JsonValue::Bool(true))]);
    let mut r = RpcResponse::success(None, v);
    sign_response_at(&mut r, b"k", 1);
    let c = canonical_json(r.result.as_ref().unwrap());
    assert_eq!(c, r#"{"a":true,"b":null}"#);
    assert_eq!(r.hmac, Some(compute_hmac_raw(b"k", &format!("$response.{c}.1"))));
}

#[test]
fn parse_error_reply_shape() {
    assert_eq!(
        canonical_json(&parse_error_reply()),
        r#"{"error":{"code":-32700,"message":"Parse error"},"id":null,"jsonrpc":"2.0"}"#
    );
}
