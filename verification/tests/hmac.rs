use pcl_ce_extension::error::AppError;
use pcl_ce_extension::auth::hmac::{
    compute_hmac, compute_hmac_raw, decode_hmac_key, now_ms, ts_in_window, ts_within_window, verify_hmac, verify_hmac_at,
    TS_WINDOW_MS,
};
use pcl_ce_extension::json::{JsonNumber, JsonValue};

fn obj(entries: Vec<(&str, JsonValue)>) -> JsonValue {
    JsonValue::Object(entries.into_iter().map(|(k, v)| (k.to_string(), v)).collect())
}

fn text(s: &str) -> JsonValue {
    JsonValue::String(s.to_string())
}

#[test]
fn test_hmac_roundtrip() {
    let secret = b"super-secret-key-32-bytes-long!!";
    let params = obj(vec![("title", text("Song")), ("artist", text("Me"))]);
    let ts = now_ms();
    let sig = compute_hmac(secret, "smtc/setMediaInfo", &params, ts);
    assert!(verify_hmac(secret, "smtc/setMediaInfo", &params, ts, &sig));
    // Different ts → different sig → fails
    assert!(!verify_hmac(secret, "smtc/setMediaInfo", &params, ts + 1, &sig));
}

#[test]
fn test_ts_outside_window() {
    let secret = b"test-key-16-bytes!";
    let params = obj(vec![("a", JsonValue::Number(JsonNumber::PosInt(1)))]);
    let old_ts = now_ms() - TS_WINDOW_MS - 1;
    let sig = compute_hmac(secret, "m", &params, old_ts);
    // Even with correct HMAC, stale timestamp should fail
    assert!(!verify_hmac(secret, "m", &params, old_ts, &sig));
}

#[test]
fn hmac_matches_rfc4231_vector() {
    assert_eq!(
        compute_hmac_raw(b"Jefe", "what do ya want for nothing?"),
        "5bdcc146bf60754e6a042426089575c75a003f089d2739839dec58b964ec3843"
    );
}

#[test]
fn hmac_covers_method_canonical_params_and_ts() {
    let secret = b"k";
    let params = obj(vec![("z", text("1")), ("a", JsonValue::Null)]);
    assert_eq!(
        compute_hmac(secret, "toast/show", &params, 1700000000123),
        compute_hmac_raw(secret, r#"toast/show.{"a":null,"z":"1"}.1700000000123"#)
    );
}

#[test]
fn window_edges() {
    assert!(ts_within_window(100000, 70000));
    assert!(!ts_within_window(100000, 69999));
    assert!(ts_within_window(100000, 130000));
    assert!(!ts_within_window(100000, 130001));
    assert!(ts_within_window(0, 30000));
    assert!(!ts_within_window(u64::MAX, 0));
}

#[test]
fn verify_at_fixed_time() {
    let secret = b"secret";
    let params = JsonValue::Null;
    let sig = compute_hmac(secret, "update/apply", &params, 5000);
    assert!(verify_hmac_at(20000, secret, "update/apply", &params, 5000, &sig));
    assert!(!verify_hmac_at(40000, secret, "update/apply", &params, 5000, &sig));
    assert!(!verify_hmac_at(20000, b"other", "update/apply", &params, 5000, &sig));
    assert!(!verify_hmac_at(20000, secret, "update/apply", &params, 5000, &sig[1..]));
    assert!(!verify_hmac_at(20000, secret, "update/applx", &params, 5000, &sig));
    let upper = sig.to_uppercase();
    assert!(!verify_hmac_at(20000, secret, "update/apply", &params, 5000, &upper));
}

#[test]
fn clock_is_current() {
    assert!(now_ms() > 1_600_000_000_000);
    assert!(ts_in_window(now_ms()));
    assert!(!ts_in_window(0));
}

#[test]
fn hmac_hex_is_64_characters() {
    assert_eq!(compute_hmac_raw(b"k", "").len(), 64);
    assert_eq!(compute_hmac_raw(b"", "a much longer payload than the key").len(), 64);
}

#[test]
fn decodes_the_request_key() {
    assert_eq!(decode_hmac_key("aGVsbG8="), Ok(b"hello".to_vec()));
    assert_eq!(
        decode_hmac_key("!!!!"),
        Err(AppError::InvalidBase64("Invalid symbol 33, offset 0.".to_string()))
    );
}
