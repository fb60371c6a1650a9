//! Tests of the session state machine: control-frame echoes,
//! termination, buffering, and the buffer reset after a flush.

use deezy::session::{Session, SessionStatus};

#[test]
fn unknown_opcode_terminates_with_1011_close() {
    let mut session = Session::new();
    let (outs, status) = session.handle_input(&[0x82, 0x00]);
    assert_eq!(status, SessionStatus::Terminated);
    assert_eq!(outs.len(), 1);
    let mut expected = vec![0x88u8, 16, 0x03, 0xF3];
    expected.extend_from_slice(b"Unknown OpCode");
    assert_eq!(outs[0], expected);
}

#[test]
fn ping_is_answered_with_pong_and_buffer_untouched() {
    let mut session = Session::new();
    let (outs, status) = session.handle_input(&[0x89, 3, b'a', b'b', b'c']);
    assert_eq!(status, SessionStatus::Open);
    assert_eq!(outs.len(), 1);
    assert_eq!(outs[0], vec![0x8A, 3, b'a', b'b', b'c']);

    let (outs, status) = session.handle_input(&[0x81, 2, b'h', b'i']);
    assert_eq!(status, SessionStatus::Open);
    assert_eq!(outs.len(), 1);
    assert_eq!(outs[0], vec![0x81, 2, b'h', b'i']);
}

#[test]
fn pong_is_also_answered_with_pong() {
    let mut session = Session::new();
    let (outs, status) = session.handle_input(&[0x8A, 1, b'p']);
    assert_eq!(status, SessionStatus::Open);
    assert_eq!(outs.len(), 1);
    assert_eq!(outs[0], vec![0x8A, 1, b'p']);
}

#[test]
fn final_text_frame_is_echoed() {
    let mut session = Session::new();
    let (outs, status) = session.handle_input(&[0x81, 5, b'h', b'e', b'l', b'l', b'o']);
    assert_eq!(status, SessionStatus::Open);
    assert_eq!(outs.len(), 1);
    assert_eq!(outs[0], vec![0x81, 5, b'h', b'e', b'l', b'l', b'o']);
}

#[test]
fn fragmented_message_replays_frame_boundaries() {
    let mut session = Session::new();
    let (outs, status) = session.handle_input(&[0x01, 2, b'h', b'e']);
    assert_eq!(status, SessionStatus::Open);
    assert!(outs.is_empty());

    let (outs, status) = session.handle_input(&[0x80, 3, b'l', b'l', b'o']);
    assert_eq!(status, SessionStatus::Open);
    assert_eq!(outs.len(), 1);
    assert_eq!(
        outs[0],
        vec![0x01, 2, b'h', b'e', 0x80, 3, b'l', b'l', b'o']
    );
}

#[test]
fn buffer_is_reset_after_flush() {
    let mut session = Session::new();
    let _ = session.handle_input(&[0x81, 2, b'h', b'i']);
    let (outs, status) = session.handle_input(&[0x81, 2, b'y', b'o']);
    assert_eq!(status, SessionStatus::Open);
    assert_eq!(outs.len(), 1);
    assert_eq!(outs[0], vec![0x81, 2, b'y', b'o']);
}

#[test]
fn close_flushes_buffer_then_echoes_close() {
    let mut session = Session::new();
    let (outs, status) = session.handle_input(&[0x01, 2, b'h', b'e']);
    assert_eq!(status, SessionStatus::Open);
    assert!(outs.is_empty());

    let (outs, status) = session.handle_input(&[0x88, 2, 0x03, 0xE8]);
    assert_eq!(status, SessionStatus::Terminated);
    assert_eq!(outs.len(), 2);
    assert_eq!(outs[0], vec![0x01, 2, b'h', b'e']);
    assert_eq!(outs[1], vec![0x88, 2, 0x03, 0xE8]);
}

#[test]
fn close_with_empty_buffer_sends_empty_flush_and_echo() {
    let mut session = Session::new();
    let (outs, status) = session.handle_input(&[0x88, 0]);
    assert_eq!(status, SessionStatus::Terminated);
    assert_eq!(outs.len(), 2);
    assert_eq!(outs[0], Vec::<u8>::new());
    assert_eq!(outs[1], vec![0x88, 0]);
}

#[test]
fn masked_inbound_text_is_echoed_unmasked() {
    let mut session = Session::new();
    let masked = [
        0x81u8,
        0x82,
        0x01,
        0x02,
        0x03,
        0x04,
        b'h' ^ 0x01,
        b'i' ^ 0x02,
    ];
    let (outs, status) = session.handle_input(&masked);
    assert_eq!(status, SessionStatus::Open);
    assert_eq!(outs.len(), 1);
    assert_eq!(outs[0], vec![0x81, 2, b'h', b'i']);
}

#[test]
fn undecodable_input_is_dropped_silently() {
    let mut session = Session::new();
    let (outs, status) = session.handle_input(&[0x81]);
    assert_eq!(status, SessionStatus::Open);
    assert!(outs.is_empty());

    let (outs, status) = session.handle_input(&[0x81, 2, b'o', b'k']);
    assert_eq!(status, SessionStatus::Open);
    assert_eq!(outs.len(), 1);
    assert_eq!(outs[0], vec![0x81, 2, b'o', b'k']);
}
