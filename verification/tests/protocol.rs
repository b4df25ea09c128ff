use concord::protocol::{decode_frame, encode_frame, payload_len, FrameError, HEADER_LEN, SERVER_PORT};

#[test]
fn frame_carries_big_endian_length() {
    let frame = encode_frame(b"hello");
    assert_eq!(frame, vec![0, 0, 0, 5, b'h', b'e', b'l', b'l', b'o']);
}

#[test]
fn empty_payload_frame_is_header_only() {
    assert_eq!(encode_frame(&[]), vec![0, 0, 0, 0]);
    assert_eq!(decode_frame(&[0, 0, 0, 0]), Ok((vec![], 4)));
}

#[test]
fn long_payload_length_bytes() {
    let payload = vec![7u8; 0x0102_03];
    let frame = encode_frame(&payload);
    assert_eq!(&frame[..4], &[0x00, 0x01, 0x02, 0x03]);
    assert_eq!(frame.len(), 4 + 0x0102_03);
}

#[test]
fn header_decodes_to_length() {
    assert_eq!(payload_len([0, 0, 1, 0]), 256);
    assert_eq!(payload_len([1, 2, 3, 4]), 0x0102_0304);
    assert_eq!(payload_len([0xff, 0xff, 0xff, 0xff]), 0xffff_ffff);
}

#[test]
fn roundtrip_with_trailing_bytes() {
    let payload = br#"{"SendMessage":"hi"}"#.to_vec();
    let mut buf = encode_frame(&payload);
    buf.extend_from_slice(&[9, 9, 9]);
    assert_eq!(decode_frame(&buf), Ok((payload.clone(), HEADER_LEN + payload.len())));
}

#[test]
fn short_header_is_reported() {
    assert_eq!(decode_frame(&[]), Err(FrameError::IncompleteHeader));
    assert_eq!(decode_frame(&[0, 0, 0]), Err(FrameError::IncompleteHeader));
}

#[test]
fn short_payload_is_reported() {
    assert_eq!(decode_frame(&[0, 0, 0, 3, 1, 2]), Err(FrameError::IncompletePayload));
    assert_eq!(decode_frame(&[0, 0, 0, 3, 1, 2, 3]), Ok((vec![1, 2, 3], 7)));
}

#[test]
fn two_frames_back_to_back() {
    let mut buf = encode_frame(b"ab");
    buf.extend(encode_frame(b"c"));
    let (first, used) = decode_frame(&buf).unwrap();
    assert_eq!(first, b"ab".to_vec());
    assert_eq!(used, 6);
    let (second, used2) = decode_frame(&buf[used..]).unwrap();
    assert_eq!(second, b"c".to_vec());
    assert_eq!(used2, 5);
}

#[test]
fn server_port_value() {
    assert_eq!(SERVER_PORT, 15555);
}
