use pcl_ce_extension::ipc::server::{AcceptAction, AcceptEvent, AcceptLoop, ACCEPT_RETRY_MS};
use pcl_ce_extension::error::AppError;
use pcl_ce_extension::ipc::protocol::{
    decode_frame_header, decode_frame_payload, encode_frame, frame_payload_len, MAX_PAYLOAD_SIZE,
};

#[test]
fn test_encode_decode_roundtrip() {
    let payload = b"Hello, world!";
    let frame = encode_frame(payload).unwrap();

    let (payload_len, header_size) = decode_frame_header(&frame).unwrap();
    assert_eq!(header_size, 4);
    assert_eq!(payload_len, payload.len() as u32);

    let decoded = decode_frame_payload(&frame, payload_len).unwrap();
    assert_eq!(decoded, payload);
}

#[test]
fn test_incomplete_header_returns_none() {
    assert!(decode_frame_header(&[0x00, 0x01]).is_none());
}

#[test]
fn test_incomplete_payload_returns_none() {
    let payload = b"data";
    let frame = encode_frame(payload).unwrap();
    // Truncate the frame to only have header + partial payload
    let truncated = &frame[..6];
    let (payload_len, _) = decode_frame_header(truncated).unwrap();
    assert!(decode_frame_payload(truncated, payload_len).is_none());
}

#[test]
fn frame_header_is_little_endian() {
    let payload = vec![7u8; 0x0102];
    let frame = encode_frame(&payload).unwrap();
    assert_eq!(&frame[..4], &[0x02, 0x01, 0x00, 0x00]);
    assert_eq!(frame.len(), 4 + 0x0102);
}

#[test]
fn empty_payload_roundtrip() {
    let frame = encode_frame(&[]).unwrap();
    assert_eq!(frame, vec![0, 0, 0, 0]);
    let (len, _) = decode_frame_header(&frame).unwrap();
    assert_eq!(len, 0);
    assert_eq!(decode_frame_payload(&frame, len).unwrap(), &[] as &[u8]);
}

#[test]
fn maximal_payload_accepted() {
    let payload = vec![1u8; MAX_PAYLOAD_SIZE as usize];
    let frame = encode_frame(&payload).unwrap();
    assert_eq!(decode_frame_header(&frame), Some((MAX_PAYLOAD_SIZE, 4)));
}

#[test]
fn oversized_payload_refused() {
    let payload = vec![0u8; MAX_PAYLOAD_SIZE as usize + 1];
    assert_eq!(
        encode_frame(&payload),
        Err(AppError::Protocol("Payload too large: 1048577 bytes (max 1048576)".to_string()))
    );
}

#[test]
fn oversized_header_refused() {
    // 0x00100001 = MAX_PAYLOAD_SIZE + 1
    assert!(decode_frame_header(&[0x01, 0x00, 0x10, 0x00, 9, 9]).is_none());
    assert_eq!(decode_frame_header(&[0x00, 0x00, 0x10, 0x00]), Some((MAX_PAYLOAD_SIZE, 4)));
}

#[test]
fn trailing_bytes_after_frame_ignored() {
    let mut data = encode_frame(b"abc").unwrap();
    data.extend_from_slice(b"next frame");
    let (len, _) = decode_frame_header(&data).unwrap();
    assert_eq!(decode_frame_payload(&data, len).unwrap(), b"abc");
}

#[test]
fn stream_header_checked() {
    assert_eq!(frame_payload_len(&[5, 0, 0, 0]), Ok(5));
    assert_eq!(
        frame_payload_len(&[0xff, 0xff, 0xff, 0xff]),
        Err(AppError::Protocol("Frame payload too large: 4294967295 bytes".to_string()))
    );
}

#[test]
fn accept_loop_decisions() {
    let mut l = AcceptLoop::new();
    assert_eq!(l.step(AcceptEvent::Ready { shutdown: false }), AcceptAction::Accept);
    assert_eq!(l.step(AcceptEvent::AcceptFailed { shutdown: false }), AcceptAction::RetryAfter(ACCEPT_RETRY_MS));
    assert_eq!(ACCEPT_RETRY_MS, 1000);
    assert_eq!(l.step(AcceptEvent::Connected { shutdown: false }), AcceptAction::Serve { first: true });
    assert_eq!(l.step(AcceptEvent::Disconnected), AcceptAction::CheckShutdown);
    assert_eq!(l.step(AcceptEvent::Connected { shutdown: false }), AcceptAction::Serve { first: false });
    assert_eq!(l.step(AcceptEvent::AcceptFailed { shutdown: true }), AcceptAction::Stop);
    assert_eq!(l.step(AcceptEvent::Ready { shutdown: true }), AcceptAction::Stop);
}

#[test]
fn client_connecting_after_shutdown_is_not_served() {
    let mut l = AcceptLoop::new();
    assert_eq!(l.step(AcceptEvent::Ready { shutdown: false }), AcceptAction::Accept);
    assert_eq!(l.step(AcceptEvent::Connected { shutdown: true }), AcceptAction::Stop);
    // Nothing was served, so a later client would still be the first.
    assert_eq!(l.step(AcceptEvent::Connected { shutdown: false }), AcceptAction::Serve { first: true });
}
