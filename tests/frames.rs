use hostcall::codec::{
    decode_length, decode_tagged, decode_untagged, encode_length, encode_tagged, encode_untagged,
    FrameError, Tag,
};

#[test]
fn length_field_is_little_endian() {
    assert_eq!(encode_length(0x0102_0304), vec![4, 3, 2, 1]);
    assert_eq!(encode_length(5), vec![5, 0, 0, 0]);
    assert_eq!(encode_length(u32::MAX), vec![255, 255, 255, 255]);
    assert_eq!(decode_length(&[4, 3, 2, 1]), Ok(0x0102_0304));
    assert_eq!(decode_length(&[0, 1, 0, 0, 9]), Ok(256));
}

#[test]
fn length_field_short_input() {
    assert_eq!(decode_length(&[]), Err(FrameError::ShortRead));
    assert_eq!(decode_length(&[4, 0]), Err(FrameError::ShortRead));
    assert_eq!(decode_length(&[4, 0, 0]), Err(FrameError::ShortRead));
}

#[test]
fn initial_request_decodes_hello() {
    let input = [5, 0, 0, 0, b'h', b'e', b'l', b'l', b'o'];
    let (payload, consumed) = decode_untagged(&input, 64).unwrap();
    assert_eq!(payload, b"hello".to_vec());
    assert_eq!(consumed, 9);
}

#[test]
fn untagged_round_trip() {
    let payload: Vec<u8> = (0..=255u8).collect();
    let frame = encode_untagged(&payload);
    assert_eq!(frame.len(), 4 + 256);
    assert_eq!(&frame[..4], &[0, 1, 0, 0]);
    let (back, consumed) = decode_untagged(&frame, 256).unwrap();
    assert_eq!(back, payload);
    assert_eq!(consumed, frame.len());
}

#[test]
fn tagged_round_trip() {
    let tag = Tag::new(*b"GETB");
    let frame = encode_tagged(&tag, b"Argument from wasm");
    let (t, back, consumed) = decode_tagged(&frame, 18).unwrap();
    assert_eq!(t, tag);
    assert_eq!(back, b"Argument from wasm".to_vec());
    assert_eq!(consumed, 4 + 4 + 18);
}

#[test]
fn nested_call_frame_bytes() {
    let frame = encode_tagged(&Tag::new(*b"GETB"), b"ping");
    assert_eq!(frame, b"GETB\x04\x00\x00\x00ping".to_vec());
}

#[test]
fn completion_frame_bytes() {
    let frame = encode_tagged(&Tag::completion(), b"final");
    assert_eq!(frame, b"DONE\x05\x00\x00\x00final".to_vec());
    assert_eq!(Tag::completion().bytes(), *b"DONE");
}

#[test]
fn empty_payload_frames() {
    assert_eq!(encode_untagged(&[]), vec![0, 0, 0, 0]);
    assert_eq!(encode_tagged(&Tag::new(*b"GETB"), &[]), b"GETB\x00\x00\x00\x00".to_vec());
    let (payload, consumed) = decode_untagged(&[0, 0, 0, 0, 7, 7], 0).unwrap();
    assert!(payload.is_empty());
    assert_eq!(consumed, 4);
}

#[test]
fn consecutive_untagged_frames() {
    let mut input = encode_untagged(b"first");
    input.extend_from_slice(&encode_untagged(b"xy"));
    let (one, n) = decode_untagged(&input, 16).unwrap();
    assert_eq!(one, b"first".to_vec());
    assert_eq!(n, 9);
    let (two, m) = decode_untagged(&input[n..], 16).unwrap();
    assert_eq!(two, b"xy".to_vec());
    assert_eq!(n + m, input.len());
}

#[test]
fn consecutive_tagged_frames() {
    let mut input = encode_tagged(&Tag::new(*b"GETB"), b"abc");
    input.extend_from_slice(&encode_tagged(&Tag::completion(), b""));
    let (t1, p1, n) = decode_tagged(&input, 8).unwrap();
    assert_eq!(t1.bytes(), *b"GETB");
    assert_eq!(p1, b"abc".to_vec());
    assert_eq!(n, 11);
    let (t2, p2, m) = decode_tagged(&input[n..], 8).unwrap();
    assert_eq!(t2, Tag::completion());
    assert!(p2.is_empty());
    assert_eq!(n + m, input.len());
}

#[test]
fn payload_beyond_capacity_overflows() {
    let frame = encode_untagged(b"hello");
    assert_eq!(decode_untagged(&frame, 4), Err(FrameError::BufferOverflow));
    assert!(decode_untagged(&frame, 5).is_ok());
    // the capacity is checked before the payload is needed
    assert_eq!(decode_untagged(&[9, 0, 0, 0], 4), Err(FrameError::BufferOverflow));
}

#[test]
fn truncated_frames_are_short_reads() {
    assert_eq!(decode_untagged(&[5, 0], 64), Err(FrameError::ShortRead));
    assert_eq!(decode_untagged(&[5, 0, 0, 0, b'h', b'e'], 64), Err(FrameError::ShortRead));
    assert_eq!(decode_tagged(b"GET", 64), Err(FrameError::ShortRead));
    assert_eq!(decode_tagged(b"GETB\x02\x00", 64), Err(FrameError::ShortRead));
    assert_eq!(decode_tagged(b"GETB\x02\x00\x00\x00x", 64), Err(FrameError::ShortRead));
}
