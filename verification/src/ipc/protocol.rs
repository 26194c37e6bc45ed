//! Length-prefixed framing: `[4-byte LE payload length][payload]`.
use vstd::prelude::*;

use crate::error::AppError;
use crate::text::{decimal, push_decimal};

verus! {

/// Maximum frame payload size: 1 MiB.
pub const MAX_PAYLOAD_SIZE: u32 = 1048576;

/// Frame header size (4-byte LE length prefix).
pub const HEADER_SIZE: usize = 4;

/// The four little-endian bytes of `n`.
pub open spec fn le_bytes(n: u32) -> Seq<u8> {
    seq![
        (n % 256) as u8,
        ((n / 256) % 256) as u8,
        ((n / 65536) % 256) as u8,
        (n / 16777216) as u8,
    ]
}

/// The number that four little-endian bytes encode.
pub open spec fn le_value(b: Seq<u8>) -> int {
    b[0] + 256 * b[1] + 65536 * b[2] + 16777216 * b[3]
}

/// The frame that carries `payload`.
pub open spec fn frame_of(payload: Seq<u8>) -> Seq<u8> {
    le_bytes(payload.len() as u32) + payload
}

/// The message of the error for an oversized payload of `len` bytes.
pub open spec fn too_large_message(len: nat) -> Seq<char> {
    "Payload too large: "@ + decimal(len) + " bytes (max "@ + decimal(MAX_PAYLOAD_SIZE as nat) + ")"@
}

/// What `decode_frame_header` returns for `data`.
pub open spec fn header_of(data: Seq<u8>) -> Option<(u32, usize)> {
    if data.len() < 4 || le_value(data) > MAX_PAYLOAD_SIZE {
        None
    } else {
        Some((le_value(data) as u32, 4usize))
    }
}

/// What `decode_frame_payload` returns for `data` and a payload length.
pub open spec fn payload_of(data: Seq<u8>, payload_len: u32) -> Option<Seq<u8>> {
    if data.len() < 4 + payload_len {
        None
    } else {
        Some(data.subrange(4, 4 + payload_len))
    }
}

proof fn lemma_le_roundtrip(n: u32)
    ensures
        le_value(le_bytes(n)) == n,
{
    let b = le_bytes(n);
    assert(b[0] == n % 256);
    assert(b[1] == (n / 256) % 256);
    assert(b[2] == (n / 65536) % 256);
    assert(b[3] == n / 16777216);
    assert(n == n % 256 + 256 * ((n / 256) % 256) + 65536 * ((n / 65536) % 256) + 16777216 * (n / 16777216)) by (nonlinear_arith);
}

/// Encode a payload into a binary frame.
///
/// Format: `[4-byte LE payload_length][N-byte payload]`
pub fn encode_frame(payload: &[u8]) -> (r: Result<Vec<u8>, AppError>)
    ensures
        r is Ok <==> payload@.len() <= MAX_PAYLOAD_SIZE,
        r matches Ok(frame) ==> frame@ == frame_of(payload@),
        r matches Err(e) ==> e matches AppError::Protocol(m) && m@ == too_large_message(payload@.len()),
{
    let len = payload.len();
    if len > MAX_PAYLOAD_SIZE as usize {
        let mut m = String::from_str("Payload too large: ");
        push_decimal(&mut m, len as u64);
        m.append(" bytes (max ");
        push_decimal(&mut m, MAX_PAYLOAD_SIZE as u64);
        m.append(")");
        return Err(AppError::Protocol(m));
    }
    let n = len as u32;
    let mut frame: Vec<u8> = Vec::with_capacity(HEADER_SIZE + len);
    frame.push((n % 256) as u8);
    frame.push(((n / 256) % 256) as u8);
    frame.push(((n / 65536) % 256) as u8);
    frame.push((n / 16777216) as u8);
    let mut i: usize = 0;
    while i < len
        invariant
            i <= len,
            len == payload@.len(),
            frame@ == le_bytes(n) + payload@.subrange(0, i as int),
        decreases len - i,
    {
        frame.push(payload[i]);
        i = i + 1;
        assert(payload@.subrange(0, i as int) == payload@.subrange(0, i - 1).push(payload@[i - 1]));
    }
    assert(payload@.subrange(0, len as int) == payload@);
    Ok(frame)
}

/// Decode the payload length from a frame header.
/// Returns `None` if not enough data is available, or if the announced
/// length exceeds `MAX_PAYLOAD_SIZE`.
pub fn decode_frame_header(data: &[u8]) -> (r: Option<(u32, usize)>)
    ensures
        r == header_of(data@),
{
    if data.len() < HEADER_SIZE {
        return None;
    }
    let payload_len: u32 = data[0] as u32 + 256 * (data[1] as u32) + 65536 * (data[2] as u32)
        + 16777216 * (data[3] as u32);
    if payload_len > MAX_PAYLOAD_SIZE {
        return None;
    }
    Some((payload_len, HEADER_SIZE))
}

/// Extract the payload from a complete frame.
/// Returns `None` if the full payload isn't available yet.
pub fn decode_frame_payload(data: &[u8], payload_len: u32) -> (r: Option<&[u8]>)
    ensures
        r matches Some(p) ==> payload_of(data@, payload_len) == Some(p@),
        r is None <==> payload_of(data@, payload_len) is None,
{
    let total: u64 = 4 + payload_len as u64;
    if (data.len() as u64) < total {
        return None;
    }
    Some(vstd::slice::slice_subrange(data, HEADER_SIZE, total as usize))
}

/// Checks the length announced by a frame header read from a stream and
/// returns the payload length to read next. A header that announces more
/// than `MAX_PAYLOAD_SIZE` bytes is refused with a protocol error.
pub fn frame_payload_len(header: &[u8]) -> (r: Result<u32, AppError>)
    requires
        header@.len() == HEADER_SIZE,
    ensures
        r is Ok <==> le_value(header@) <= MAX_PAYLOAD_SIZE,
        r matches Ok(n) ==> n == le_value(header@),
        r matches Err(e) ==> e matches AppError::Protocol(m)
            && m@ == "Frame payload too large: "@ + decimal(le_value(header@) as nat) + " bytes"@,
{
    let payload_len: u32 = header[0] as u32 + 256 * (header[1] as u32) + 65536 * (header[2] as u32)
        + 16777216 * (header[3] as u32);
    if payload_len > MAX_PAYLOAD_SIZE {
        let mut m = String::from_str("Frame payload too large: ");
        push_decimal(&mut m, payload_len as u64);
        m.append(" bytes");
        return Err(AppError::Protocol(m));
    }
    Ok(payload_len)
}

/// A frame is self-delimiting: reading the header and then the payload of
/// an encoded frame, whatever bytes follow it, gives back the payload's
/// length, a header size of 4, and the payload itself.
pub proof fn lemma_frame_roundtrip(payload: Seq<u8>, rest: Seq<u8>)
    requires
        payload.len() <= MAX_PAYLOAD_SIZE,
    ensures
        header_of(frame_of(payload) + rest) == Some((payload.len() as u32, HEADER_SIZE)),
        payload_of(frame_of(payload) + rest, payload.len() as u32) == Some(payload),
{
    let n = payload.len() as u32;
    lemma_le_roundtrip(n);
    let data = frame_of(payload) + rest;
    assert(data.subrange(0, 4) == le_bytes(n));
    assert(le_value(data) == le_value(le_bytes(n)));
    assert(data.subrange(4, 4 + n) == payload);
}

/// A frame cut short anywhere before its last byte yields no payload.
pub proof fn lemma_truncated_frame(payload: Seq<u8>, k: int)
    requires
        payload.len() <= MAX_PAYLOAD_SIZE,
        0 <= k < frame_of(payload).len(),
    ensures
        payload_of(frame_of(payload).take(k), payload.len() as u32) is None,
{
}

/// The header of every frame that `encode_frame` produces decodes: its
/// length never exceeds the maximum.
pub proof fn lemma_encoded_header_accepted(payload: Seq<u8>)
    requires
        payload.len() <= MAX_PAYLOAD_SIZE,
    ensures
        le_value(frame_of(payload).take(4)) == payload.len(),
{
    lemma_le_roundtrip(payload.len() as u32);
    assert(frame_of(payload).take(4) == le_bytes(payload.len() as u32));
}

} // verus!
