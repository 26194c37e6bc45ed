//! HMAC-SHA256 request signatures over `method.canonical_params.ts_ms`,
//! with a replay window on the timestamp.
use vstd::prelude::*;

use crate::json::{canonical, canonical_json, JsonValue};
use crate::error::AppError;
use crate::update::manager::{base64_decode, base64_decoding};
use crate::text::{decimal, lemma_decimal_injective, push_char, push_decimal};
use vstd::utf8::encode_utf8;
use ::hmac::Mac;

verus! {

/// Maximum allowed clock skew / replay window: 30 seconds.
pub const TS_WINDOW_MS: u64 = 30000;

/// Whether `ts_ms` lies within the replay window around `now_ms`.
pub open spec fn in_window(now_ms: u64, ts_ms: u64) -> bool {
    -(TS_WINDOW_MS as int) <= now_ms - ts_ms <= TS_WINDOW_MS as int
}

/// The HMAC-SHA256 tag of `message` under `key`.
pub uninterp spec fn hmac_sha256_tag(key: Seq<u8>, message: Seq<u8>) -> Seq<u8>;

/// Computes HMAC-SHA256 with the `hmac` and `sha2` crates
/// (`Hmac::<Sha256>::new_from_slice`, `update`, `finalize`). The contract
/// claims only that the tag is a function of the key and the message,
/// named `hmac_sha256_tag`, and that it is 32 bytes long, the output size
/// of SHA-256. `new_from_slice` accepts keys of every length for HMAC, so
/// the `expect` never fires.
#[verifier::external_body]
fn hmac_sha256(key: &[u8], message: &[u8]) -> (tag: Vec<u8>)
    ensures
        tag@ == hmac_sha256_tag(key@, message@),
        tag@.len() == 32,
{
    let mut mac = ::hmac::Hmac::<::sha2::Sha256>::new_from_slice(key)
        .expect("HMAC key length should be valid");
    mac.update(message);
    mac.finalize().into_bytes().to_vec()
}

/// The lower-case hexadecimal digit for a value below sixteen.
pub open spec fn hex_digit_lower(d: nat) -> char {
    if d < 10 {
        crate::text::digit_char(d)
    } else if d == 10 { 'a' }
    else if d == 11 { 'b' }
    else if d == 12 { 'c' }
    else if d == 13 { 'd' }
    else if d == 14 { 'e' }
    else { 'f' }
}

/// Lower-case hexadecimal text of some bytes, two digits per byte, high
/// digit first.
pub open spec fn hex_lower(bytes: Seq<u8>) -> Seq<char>
    decreases bytes.len(),
{
    if bytes.len() == 0 {
        Seq::empty()
    } else {
        hex_lower(bytes.drop_last()) + seq![
            hex_digit_lower((bytes.last() / 16) as nat),
            hex_digit_lower((bytes.last() % 16) as nat),
        ]
    }
}

/// Two hexadecimal digits per byte.
pub proof fn lemma_hex_lower_len(bytes: Seq<u8>)
    ensures
        hex_lower(bytes).len() == 2 * bytes.len(),
    decreases bytes.len(),
{
    if bytes.len() > 0 {
        lemma_hex_lower_len(bytes.drop_last());
    }
}

/// Calls `hex::encode`, which writes each byte as two lower-case
/// hexadecimal digits, high digit first.
#[verifier::external_body]
fn hex_encode(bytes: &[u8]) -> (r: String)
    ensures
        r@ == hex_lower(bytes@),
{
    ::hex::encode(bytes)
}

/// Milliseconds since the Unix epoch, from the system clock; zero when the
/// clock reads earlier than the epoch. Nothing is claimed of the value.
#[verifier::external_body]
fn clock_millis() -> u128 {
    std::time::SystemTime::now().duration_since(std::time::UNIX_EPOCH).unwrap_or_default().as_millis()
}

/// Get current Unix timestamp in milliseconds.
pub fn now_ms() -> u64 {
    let ms = clock_millis();
    (ms % 18446744073709551616u128) as u64
}

/// Whether `ts_ms` lies within the replay window around `now_ms`.
pub fn ts_within_window(now_ms: u64, ts_ms: u64) -> (r: bool)
    ensures
        r == in_window(now_ms, ts_ms),
{
    let diff = if now_ms >= ts_ms { now_ms - ts_ms } else { ts_ms - now_ms };
    diff <= TS_WINDOW_MS
}

/// Check whether a timestamp is within the allowed replay window of the
/// current time.
pub fn ts_in_window(ts_ms: u64) -> bool {
    let now = now_ms();
    ts_within_window(now, ts_ms)
}

/// The lower-case hex HMAC of the UTF-8 bytes of `payload`.
pub open spec fn hmac_hex(secret: Seq<u8>, payload: Seq<char>) -> Seq<char> {
    hex_lower(hmac_sha256_tag(secret, encode_utf8(payload)))
}

/// The payload that a request signature covers: `method.canonical_params.ts_ms`.
pub open spec fn hmac_payload(method: Seq<char>, params: JsonValue, ts_ms: u64) -> Seq<char> {
    method + seq!['.'] + canonical(params) + seq!['.'] + decimal(ts_ms as nat)
}

/// The signature of a request.
pub open spec fn request_signature(secret: Seq<u8>, method: Seq<char>, params: JsonValue, ts_ms: u64) -> Seq<char> {
    hmac_hex(secret, hmac_payload(method, params, ts_ms))
}

/// Whether a request signature is accepted at time `now_ms`.
pub open spec fn signature_accepted(
    now_ms: u64,
    secret: Seq<u8>,
    method: Seq<char>,
    params: JsonValue,
    ts_ms: u64,
    expected_hex: Seq<char>,
) -> bool {
    in_window(now_ms, ts_ms) && request_signature(secret, method, params, ts_ms) == expected_hex
}

/// Compute HMAC-SHA256 of `method`.`canonical_params`.`ts_ms` and return hex.
pub fn compute_hmac(secret: &[u8], method: &str, params: &JsonValue, ts_ms: u64) -> (r: String)
    ensures
        r@ == request_signature(secret@, method@, *params, ts_ms),
        r@.len() == 64,
{
    let payload = build_hmac_payload(method, params, ts_ms);
    compute_hmac_raw(secret, payload.as_str())
}

/// Compute HMAC for an arbitrary payload string (already formatted).
pub fn compute_hmac_raw(secret: &[u8], payload: &str) -> (r: String)
    ensures
        r@ == hmac_hex(secret@, payload@),
        r@.len() == 64,
{
    let tag = hmac_sha256(secret, payload.as_bytes());
    proof {
        lemma_hex_lower_len(tag@);
    }
    hex_encode(tag.as_slice())
}

/// Build the canonical HMAC payload: `method`.`canonical_params`.`ts_ms`
fn build_hmac_payload(method: &str, params: &JsonValue, ts_ms: u64) -> (r: String)
    ensures
        r@ == hmac_payload(method@, *params, ts_ms),
{
    let mut out = String::from_str(method);
    push_char(&mut out, '.');
    let params_str = canonical_json(params);
    out.append(params_str.as_str());
    push_char(&mut out, '.');
    push_decimal(&mut out, ts_ms);
    out
}

/// Decodes the shared request key, which the host hands over as standard
/// base64; text that is not base64 is refused with the decoder's message.
pub fn decode_hmac_key(key_b64: &str) -> (r: Result<Vec<u8>, AppError>)
    ensures
        match base64_decoding(key_b64@) {
            Ok(bytes) => r matches Ok(k) && k@ == bytes,
            Err(m) => r matches Err(AppError::InvalidBase64(e)) && e@ == m,
        },
{
    match base64_decode(key_b64) {
        Ok(k) => Ok(k),
        Err(e) => Err(AppError::InvalidBase64(e)),
    }
}

/// Verify a HMAC signature at a given time, including the timestamp
/// replay-window check.
pub fn verify_hmac_at(
    now_ms: u64,
    secret: &[u8],
    method: &str,
    params: &JsonValue,
    ts_ms: u64,
    expected_hex: &str,
) -> (r: bool)
    ensures
        r == signature_accepted(now_ms, secret@, method@, *params, ts_ms, expected_hex@),
{
    if !ts_within_window(now_ms, ts_ms) {
        return false;
    }
    let computed = compute_hmac(secret, method, params, ts_ms);
    let same = constant_time_eq(computed.as_str().as_bytes(), expected_hex.as_bytes());
    proof {
        vstd::utf8::encode_utf8_decode_utf8(computed@);
        vstd::utf8::encode_utf8_decode_utf8(expected_hex@);
    }
    same
}

/// Verify a HMAC signature, including timestamp replay-window check
/// against the current time.
/// Returns `true` only if both timestamp and HMAC are valid.
pub fn verify_hmac(secret: &[u8], method: &str, params: &JsonValue, ts_ms: u64, expected_hex: &str) -> (r: bool)
    ensures
        r ==> request_signature(secret@, method@, *params, ts_ms) == expected_hex@,
{
    let now = now_ms();
    verify_hmac_at(now, secret, method, params, ts_ms, expected_hex)
}

/// Compares two byte strings, taking time that depends on their lengths
/// only.
fn constant_time_eq(a: &[u8], b: &[u8]) -> (r: bool)
    ensures
        r == (a@ == b@),
{
    if a.len() != b.len() {
        return false;
    }
    let mut result: u8 = 0;
    let mut i: usize = 0;
    while i < a.len()
        invariant
            a@.len() == b@.len(),
            i <= a@.len(),
            (result == 0) == (forall|k: int| 0 <= k < i ==> a@[k] == b@[k]),
        decreases a@.len() - i,
    {
        let x = a[i];
        let y = b[i];
        let next = result | (x ^ y);
        assert((next == 0) == (result == 0 && x == y)) by (bit_vector)
            requires
                next == result | (x ^ y),
        ;
        result = next;
        i = i + 1;
    }
    if result == 0 {
        assert(a@ =~= b@);
    }
    result == 0
}

/// A signature computed for a request is accepted exactly when its
/// timestamp lies in the replay window.
pub proof fn lemma_signature_roundtrip(
    now_ms: u64,
    secret: Seq<u8>,
    method: Seq<char>,
    params: JsonValue,
    ts_ms: u64,
)
    ensures
        signature_accepted(now_ms, secret, method, params, ts_ms, request_signature(secret, method, params, ts_ms))
            == in_window(now_ms, ts_ms),
{
}

/// A timestamp outside the replay window is refused, whatever signature
/// comes with it.
pub proof fn lemma_stale_rejected(
    now_ms: u64,
    secret: Seq<u8>,
    method: Seq<char>,
    params: JsonValue,
    ts_ms: u64,
    expected_hex: Seq<char>,
)
    requires
        !in_window(now_ms, ts_ms),
    ensures
        !signature_accepted(now_ms, secret, method, params, ts_ms, expected_hex),
{
}

/// The signed payload binds the timestamp: the same request at two
/// different timestamps has two different payloads.
pub proof fn lemma_payload_binds_timestamp(method: Seq<char>, params: JsonValue, t1: u64, t2: u64)
    requires
        t1 != t2,
    ensures
        hmac_payload(method, params, t1) != hmac_payload(method, params, t2),
{
    let prefix = method + seq!['.'] + canonical(params) + seq!['.'];
    if hmac_payload(method, params, t1) == hmac_payload(method, params, t2) {
        let p1 = hmac_payload(method, params, t1);
        let p2 = hmac_payload(method, params, t2);
        assert(p1.skip(prefix.len() as int) == decimal(t1 as nat));
        assert(p2.skip(prefix.len() as int) == decimal(t2 as nat));
        lemma_decimal_injective(t1 as nat, t2 as nat);
    }
}

} // verus!
