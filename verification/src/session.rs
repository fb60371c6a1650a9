//! The per-connection session state machine: consumes decoded
//! inbound frames, decides what bytes to send back, and signals when
//! the connection must end. The surrounding I/O loop performs the
//! reads and writes.

use vstd::prelude::*;
use vstd::string::StringSliceAdditionalSpecFns;
use crate::frame::{
    build_close_frame_payload,
    build_message,
    frame_wf,
    lemma_serialize_single,
    parse_frame,
    spec_close_payload,
    spec_parse_frame,
    spec_serialize_frame,
    spec_serialize_frames,
    Frame,
    FrameModel,
    Message,
    OpCode,
    StatusCode,
};

verus! {

/// Whether the session keeps running after a step.
#[derive(Copy, Clone, PartialEq, Eq, Structural, Debug)]
pub enum SessionStatus {
    Open,
    Terminated,
}

/// A single-frame server message with the given opcode and payload.
pub open spec fn spec_single_frame(opcode: OpCode, payload: Seq<u8>) -> FrameModel {
    FrameModel {
        fin: true,
        opcode,
        mask: false,
        payload_len: payload.len() as u64,
        payload,
    }
}

/// The bytes of the Pong frame echoing a payload.
pub open spec fn spec_pong_bytes(payload: Seq<u8>) -> Seq<u8> {
    spec_serialize_frame(spec_single_frame(OpCode::Pong, payload))
}

/// The bytes of a Close frame carrying a payload.
pub open spec fn spec_close_bytes(payload: Seq<u8>) -> Seq<u8> {
    spec_serialize_frame(spec_single_frame(OpCode::Close, payload))
}

/// The bytes of the Close frame sent on an unknown opcode: status
/// 1011 and the fixed reason text.
pub open spec fn spec_unknown_close_bytes() -> Seq<u8> {
    spec_close_bytes(spec_close_payload(StatusCode::Unexpected, "Unknown OpCode".spec_bytes()))
}

/// The inbound buffer only ever holds well-formed Text and
/// Continuation frames.
pub open spec fn session_wf(frames: Seq<FrameModel>) -> bool {
    forall|i: int|
        0 <= i < frames.len() ==> frame_wf(#[trigger] frames[i]) && (frames[i].opcode
            == OpCode::Text || frames[i].opcode == OpCode::Continuation)
}

/// What one decoded inbound frame makes the session do: the buffer
/// it keeps, the byte buffers it sends (in order), and whether it
/// goes on.
pub open spec fn spec_frame_step(
    before: Seq<FrameModel>,
    f: FrameModel,
    after: Seq<FrameModel>,
    outs: Seq<Seq<u8>>,
    status: SessionStatus,
) -> bool {
    match f.opcode {
        OpCode::Ping | OpCode::Pong => after == before && status == SessionStatus::Open && outs
            == seq![spec_pong_bytes(f.payload)],
        OpCode::Close => after == before && status == SessionStatus::Terminated && outs == seq![
            spec_serialize_frames(before),
            spec_close_bytes(f.payload),
        ],
        OpCode::Unknown => after == before && status == SessionStatus::Terminated && outs == seq![
            spec_unknown_close_bytes(),
        ],
        OpCode::Text | OpCode::Continuation => status == SessionStatus::Open && if f.fin {
            after == Seq::<FrameModel>::empty() && outs == seq![
                spec_serialize_frames(before.push(f)),
            ]
        } else {
            after == before.push(f) && outs == Seq::<Seq<u8>>::empty()
        },
    }
}

/// One connection's protocol state after the handshake: the
/// in-arrival-order buffer of the not-yet-finished inbound message.
pub struct Session {
    pub inbound: Message,
}

impl View for Session {
    type V = Seq<FrameModel>;

    open spec fn view(&self) -> Seq<FrameModel> {
        self.inbound@
    }
}

impl Session {
    /// A fresh session with an empty inbound buffer.
    pub fn new() -> (s: Session)
        ensures
            s@ == Seq::<FrameModel>::empty(),
    {
        let s = Session { inbound: Message { frames: Vec::new() } };
        assert(s@ =~= Seq::<FrameModel>::empty());
        s
    }

    /// Consumes one decoded inbound frame: Ping and Pong are answered
    /// with a Pong echo; Close flushes the buffer, echoes the Close,
    /// and terminates; an unknown opcode answers with a 1011 Close and
    /// terminates; Text and Continuation are buffered, and a final
    /// frame flushes the whole buffer as the echo and resets it.
    pub fn handle_frame(&mut self, frame: Frame) -> (r: (Vec<Vec<u8>>, SessionStatus))
        requires
            session_wf(old(self)@),
            frame_wf(frame@),
        ensures
            session_wf(final(self)@),
            spec_frame_step(
                old(self)@,
                frame@,
                final(self)@,
                r.0@.map(|i: int, v: Vec<u8>| v@),
                r.1,
            ),
    {
        let mut outs: Vec<Vec<u8>> = Vec::new();
        match frame.opcode {
            OpCode::Ping | OpCode::Pong => {
                let msg = build_message(OpCode::Pong, frame.payload.as_slice());
                let bytes = msg.serialize();
                proof {
                    assert(msg@ =~= seq![spec_single_frame(OpCode::Pong, frame@.payload)]);
                    lemma_serialize_single(spec_single_frame(OpCode::Pong, frame@.payload));
                    assert(bytes@ == spec_pong_bytes(frame@.payload));
                }
                outs.push(bytes);
                assert(outs@.map(|i: int, v: Vec<u8>| v@) =~= seq![
                    spec_pong_bytes(frame@.payload),
                ]);
                (outs, SessionStatus::Open)
            },
            OpCode::Close => {
                let flushed = self.inbound.serialize();
                let echo_msg = build_message(OpCode::Close, frame.payload.as_slice());
                let echo = echo_msg.serialize();
                proof {
                    assert(echo_msg@ =~= seq![spec_single_frame(OpCode::Close, frame@.payload)]);
                    lemma_serialize_single(spec_single_frame(OpCode::Close, frame@.payload));
                    assert(echo@ == spec_close_bytes(frame@.payload));
                }
                outs.push(flushed);
                outs.push(echo);
                assert(outs@.map(|i: int, v: Vec<u8>| v@) =~= seq![
                    spec_serialize_frames(old(self)@),
                    spec_close_bytes(frame@.payload),
                ]);
                (outs, SessionStatus::Terminated)
            },
            OpCode::Unknown => {
                let close_payload = build_close_frame_payload(
                    StatusCode::Unexpected,
                    "Unknown OpCode",
                );
                let msg = build_message(OpCode::Close, close_payload.as_slice());
                let bytes = msg.serialize();
                proof {
                    let cp = spec_close_payload(
                        StatusCode::Unexpected,
                        "Unknown OpCode".spec_bytes(),
                    );
                    assert(msg@ =~= seq![spec_single_frame(OpCode::Close, cp)]);
                    lemma_serialize_single(spec_single_frame(OpCode::Close, cp));
                    assert(bytes@ == spec_unknown_close_bytes());
                }
                outs.push(bytes);
                assert(outs@.map(|i: int, v: Vec<u8>| v@) =~= seq![spec_unknown_close_bytes()]);
                (outs, SessionStatus::Terminated)
            },
            OpCode::Text | OpCode::Continuation => {
                let is_fin = frame.fin;
                let ghost before = self@;
                let ghost fm = frame@;
                self.inbound.frames.push(frame);
                assert(self@ =~= before.push(fm));
                if is_fin {
                    assert(session_wf(self@));
                    let bytes = self.inbound.serialize();
                    self.inbound.frames.truncate(0);
                    assert(self@ =~= Seq::<FrameModel>::empty());
                    outs.push(bytes);
                    assert(outs@.map(|i: int, v: Vec<u8>| v@) =~= seq![
                        spec_serialize_frames(before.push(fm)),
                    ]);
                    (outs, SessionStatus::Open)
                } else {
                    assert(outs@.map(|i: int, v: Vec<u8>| v@) =~= Seq::<Seq<u8>>::empty());
                    (outs, SessionStatus::Open)
                }
            },
        }
    }

    /// Consumes one transport read taken as one complete frame: a
    /// frame that does not decode is dropped silently and the session
    /// stays open; a decoded frame is handled as by `handle_frame`.
    pub fn handle_input(&mut self, buf: &[u8]) -> (r: (Vec<Vec<u8>>, SessionStatus))
        requires
            session_wf(old(self)@),
        ensures
            session_wf(final(self)@),
            match spec_parse_frame(buf@) {
                Ok(f) => spec_frame_step(
                    old(self)@,
                    f,
                    final(self)@,
                    r.0@.map(|i: int, v: Vec<u8>| v@),
                    r.1,
                ),
                Err(_) => final(self)@ == old(self)@ && r.0@.len() == 0 && r.1
                    == SessionStatus::Open,
            },
    {
        match parse_frame(buf) {
            Ok(frame) => self.handle_frame(frame),
            Err(_) => (Vec::new(), SessionStatus::Open),
        }
    }
}

} // verus!
