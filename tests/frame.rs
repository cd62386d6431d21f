use kv::error::KvError;
use kv::frame::{decode_frame, encode_frame, COMPRESSION_LIMIT, MAX_FRAME};

#[test]
fn small_payload_round_trips_uncompressed() {
    let payload = b"hello".to_vec();
    let frame = encode_frame(&payload).unwrap();
    assert_eq!(frame, vec![0, 0, 0, 5, b'h', b'e', b'l', b'l', b'o']);
    let mut buf = frame.clone();
    buf.extend_from_slice(&[9, 9]);
    assert_eq!(decode_frame(&mut buf).unwrap(), Some(payload));
    assert_eq!(buf, vec![9, 9]);
}

#[test]
fn large_payload_is_compressed_and_round_trips() {
    let payload: Vec<u8> = (0..5000u32).map(|i| (i % 7) as u8).collect();
    assert!(payload.len() > COMPRESSION_LIMIT);
    let frame = encode_frame(&payload).unwrap();
    assert_eq!(frame[0] & 0x80, 0x80);
    assert!(frame.len() < payload.len());
    let mut buf = frame;
    assert_eq!(decode_frame(&mut buf).unwrap(), Some(payload));
    assert!(buf.is_empty());
}

#[test]
fn payload_at_the_limit_is_not_compressed() {
    let payload = vec![1u8; COMPRESSION_LIMIT];
    let frame = encode_frame(&payload).unwrap();
    assert_eq!(frame.len(), COMPRESSION_LIMIT + 4);
    assert_eq!(frame[0] & 0x80, 0);
}

#[test]
fn partial_frame_is_kept_until_complete() {
    let frame = encode_frame(&b"abcdef".to_vec()).unwrap();
    let mut buf = frame[..3].to_vec();
    assert_eq!(decode_frame(&mut buf).unwrap(), None);
    assert_eq!(buf, frame[..3].to_vec());
    buf.extend_from_slice(&frame[3..7]);
    assert_eq!(decode_frame(&mut buf).unwrap(), None);
    assert_eq!(buf.len(), 7);
    buf.extend_from_slice(&frame[7..]);
    assert_eq!(decode_frame(&mut buf).unwrap(), Some(b"abcdef".to_vec()));
}

#[test]
fn oversized_frame_fails_and_leaves_buffer_intact() {
    let declared = (MAX_FRAME as u32) + 1;
    let mut buf = declared.to_be_bytes().to_vec();
    buf.extend_from_slice(&[1, 2, 3]);
    let before = buf.clone();
    assert_eq!(decode_frame(&mut buf), Err(KvError::FrameError));
    assert_eq!(buf, before);
    let mut next = encode_frame(&b"ok".to_vec()).unwrap();
    assert_eq!(decode_frame(&mut next).unwrap(), Some(b"ok".to_vec()));
}

#[test]
fn corrupt_compressed_body_is_a_decode_error() {
    let mut buf = vec![0x80, 0, 0, 3, 1, 2, 3, 42];
    assert_eq!(decode_frame(&mut buf), Err(KvError::DecodeError));
    assert_eq!(buf, vec![42]);
}

#[test]
fn two_frames_decode_in_order() {
    let mut buf = encode_frame(&b"one".to_vec()).unwrap();
    buf.extend(encode_frame(&b"two".to_vec()).unwrap());
    assert_eq!(decode_frame(&mut buf).unwrap(), Some(b"one".to_vec()));
    assert_eq!(decode_frame(&mut buf).unwrap(), Some(b"two".to_vec()));
    assert_eq!(decode_frame(&mut buf).unwrap(), None);
}
