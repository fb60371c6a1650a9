//! Tests of the frame codec: round trips, exact length encodings,
//! masking, and parse failures.

use deezy::frame::{
    build_close_frame_payload, build_message, parse_frame, BufferPart, Frame, FrameError, OpCode,
    StatusCode,
};

#[test]
fn round_trip_all_boundary_lengths() {
    for &len in &[0usize, 1, 125, 126, 65535, 65536] {
        let payload = vec![0x5Au8; len];
        let msg = build_message(OpCode::Text, &payload);
        let bytes = msg.frames[0].serialize();
        let frame = parse_frame(&bytes).expect("round trip must parse");
        assert_eq!(frame.opcode, OpCode::Text);
        assert!(frame.fin);
        assert!(!frame.mask);
        assert_eq!(frame.payload_len, len as u64);
        assert_eq!(frame.payload, payload);
    }
}

#[test]
fn round_trip_all_opcodes() {
    for &op in &[
        OpCode::Text,
        OpCode::Continuation,
        OpCode::Ping,
        OpCode::Pong,
        OpCode::Close,
    ] {
        let msg = build_message(op, b"xyz");
        let bytes = msg.frames[0].serialize();
        let frame = parse_frame(&bytes).expect("round trip must parse");
        assert_eq!(frame.opcode, op);
        assert_eq!(frame.payload, b"xyz".to_vec());
    }
}

#[test]
fn length_125_encodes_in_base_byte() {
    let payload = vec![7u8; 125];
    let bytes = build_message(OpCode::Text, &payload).frames[0].serialize();
    assert_eq!(bytes.len(), 2 + 125);
    assert_eq!(bytes[0], 0x81);
    assert_eq!(bytes[1], 125);
    assert_eq!(&bytes[2..], &payload[..]);
}

#[test]
fn length_126_uses_16_bit_extended_form() {
    let payload = vec![7u8; 126];
    let bytes = build_message(OpCode::Text, &payload).frames[0].serialize();
    assert_eq!(bytes.len(), 4 + 126);
    assert_eq!(bytes[0], 0x81);
    assert_eq!(bytes[1], 126);
    assert_eq!(bytes[2], 0x00);
    assert_eq!(bytes[3], 126);
    assert_eq!(&bytes[4..], &payload[..]);
}

#[test]
fn length_65535_uses_16_bit_extended_form() {
    let payload = vec![1u8; 65535];
    let bytes = build_message(OpCode::Text, &payload).frames[0].serialize();
    assert_eq!(bytes.len(), 4 + 65535);
    assert_eq!(bytes[1], 126);
    assert_eq!(bytes[2], 0xFF);
    assert_eq!(bytes[3], 0xFF);
}

#[test]
fn length_65536_uses_64_bit_extended_form() {
    let payload = vec![2u8; 65536];
    let bytes = build_message(OpCode::Text, &payload).frames[0].serialize();
    assert_eq!(bytes.len(), 10 + 65536);
    assert_eq!(bytes[1], 127);
    assert_eq!(&bytes[2..10], &[0, 0, 0, 0, 0, 1, 0, 0]);
}

#[test]
fn masked_frame_unmasks_payload() {
    let buf = [
        0x81u8, 0x85, 0x01, 0x02, 0x03, 0x04, 0x10, 0x20, 0x30, 0x40, 0x50,
    ];
    let frame = parse_frame(&buf).expect("masked frame must parse");
    assert!(frame.mask);
    assert!(frame.fin);
    assert_eq!(frame.opcode, OpCode::Text);
    assert_eq!(frame.payload_len, 5);
    assert_eq!(frame.payload, vec![0x11, 0x22, 0x33, 0x44, 0x51]);
}

#[test]
fn unmasked_frame_copies_payload_verbatim() {
    let buf = [0x82u8, 0x03, 0xAA, 0xBB, 0xCC];
    let frame = parse_frame(&buf).expect("unmasked frame must parse");
    assert!(!frame.mask);
    assert_eq!(frame.opcode, OpCode::Unknown);
    assert_eq!(frame.payload, vec![0xAA, 0xBB, 0xCC]);
}

#[test]
fn too_small_for_header() {
    assert!(matches!(
        parse_frame(&[]),
        Err(FrameError::BufferTooSmall(BufferPart::Header))
    ));
    assert!(matches!(
        parse_frame(&[0x81]),
        Err(FrameError::BufferTooSmall(BufferPart::Header))
    ));
}

#[test]
fn too_small_for_extended_length_16() {
    assert!(matches!(
        parse_frame(&[0x81, 126, 0]),
        Err(FrameError::BufferTooSmall(BufferPart::ExtendedLen16))
    ));
}

#[test]
fn too_small_for_extended_length_64() {
    assert!(matches!(
        parse_frame(&[0x81, 127, 0, 0, 0, 0, 0, 0, 0]),
        Err(FrameError::BufferTooSmall(BufferPart::ExtendedLen64))
    ));
}

#[test]
fn too_small_for_masking_key() {
    assert!(matches!(
        parse_frame(&[0x81, 0x81, 1, 2, 3]),
        Err(FrameError::BufferTooSmall(BufferPart::MaskingKey))
    ));
}

#[test]
fn too_small_for_payload() {
    assert!(matches!(
        parse_frame(&[0x81, 2, 0]),
        Err(FrameError::BufferTooSmall(BufferPart::Payload))
    ));
}

#[test]
fn close_frame_payload_layout() {
    let payload = build_close_frame_payload(StatusCode::Unexpected, "x");
    assert_eq!(payload, vec![0x03, 0xF3, b'x']);
}

#[test]
fn message_serialize_keeps_frame_boundaries() {
    let mut msg = build_message(OpCode::Text, b"he");
    msg.frames.push(Frame {
        fin: true,
        opcode: OpCode::Continuation,
        mask: false,
        payload_len: 3,
        payload: b"llo".to_vec(),
    });
    let bytes = msg.serialize();
    assert_eq!(
        bytes,
        vec![0x81, 2, b'h', b'e', 0x80, 3, b'l', b'l', b'o']
    );
}
