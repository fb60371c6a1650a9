//! The WebSocket frame codec: parsing and serializing the binary
//! wire format of RFC 6455 section 5.2.

use vstd::prelude::*;
use vstd::string::StringSliceAdditionalSpecFns;
use crate::ascii::append_bytes;

verus! {

/// The 4-bit opcode of a frame, as this server distinguishes them.
#[derive(Copy, Clone, PartialEq, Eq, Structural, Debug)]
pub enum OpCode {
    Text,
    Continuation,
    Ping,
    Pong,
    Close,
    Unknown,
}

/// The wire value of an opcode; `Unknown` stands for every value
/// that names none of the others.
pub open spec fn spec_opcode_bits(op: OpCode) -> u8 {
    match op {
        OpCode::Continuation => 0,
        OpCode::Text => 1,
        OpCode::Close => 8,
        OpCode::Ping => 9,
        OpCode::Pong => 10,
        OpCode::Unknown => 15,
    }
}

/// Maps an opcode to its 4-bit wire value; `Unknown` has none.
pub fn serialize_opcode(opcode: OpCode) -> (r: u8)
    requires
        opcode != OpCode::Unknown,
    ensures
        r == spec_opcode_bits(opcode),
{
    match opcode {
        OpCode::Continuation => 0,
        OpCode::Text => 1,
        OpCode::Close => 8,
        OpCode::Ping => 9,
        OpCode::Pong => 10,
        OpCode::Unknown => 15,
    }
}

/// The opcode denoted by a 4-bit wire value.
pub open spec fn spec_opcode_of(op: u8) -> OpCode {
    if op == 0 {
        OpCode::Continuation
    } else if op == 1 {
        OpCode::Text
    } else if op == 8 {
        OpCode::Close
    } else if op == 9 {
        OpCode::Ping
    } else if op == 10 {
        OpCode::Pong
    } else {
        OpCode::Unknown
    }
}

/// Maps a 4-bit wire value to the opcode it denotes.
pub fn deserialize_opcode(op: u8) -> (r: OpCode)
    ensures
        r == spec_opcode_of(op),
{
    match op {
        0 => OpCode::Continuation,
        1 => OpCode::Text,
        8 => OpCode::Close,
        9 => OpCode::Ping,
        10 => OpCode::Pong,
        _ => OpCode::Unknown,
    }
}

/// The mathematical content of one frame.
pub ghost struct FrameModel {
    pub fin: bool,
    pub opcode: OpCode,
    pub mask: bool,
    pub payload_len: u64,
    pub payload: Seq<u8>,
}

/// One unit of the WebSocket wire format.
pub struct Frame {
    pub fin: bool,
    pub opcode: OpCode,
    pub mask: bool,
    pub payload_len: u64,
    pub payload: Vec<u8>,
}

impl View for Frame {
    type V = FrameModel;

    open spec fn view(&self) -> FrameModel {
        FrameModel {
            fin: self.fin,
            opcode: self.opcode,
            mask: self.mask,
            payload_len: self.payload_len,
            payload: self.payload@,
        }
    }
}

/// The frame's recorded payload length matches its payload.
pub open spec fn frame_wf(f: FrameModel) -> bool {
    f.payload.len() == f.payload_len
}

/// The two big-endian bytes of a 16-bit number.
pub open spec fn spec_u16_be(n: u16) -> Seq<u8> {
    seq![((n >> 8) & 0xFF) as u8, (n & 0xFF) as u8]
}

/// The eight big-endian bytes of a 64-bit number.
pub open spec fn spec_u64_be(n: u64) -> Seq<u8> {
    seq![
        ((n >> 56) & 0xFF) as u8,
        ((n >> 48) & 0xFF) as u8,
        ((n >> 40) & 0xFF) as u8,
        ((n >> 32) & 0xFF) as u8,
        ((n >> 24) & 0xFF) as u8,
        ((n >> 16) & 0xFF) as u8,
        ((n >> 8) & 0xFF) as u8,
        (n & 0xFF) as u8,
    ]
}

/// The 16-bit number read from two big-endian bytes.
pub open spec fn spec_u16_from_be(b0: u8, b1: u8) -> u16 {
    ((b0 as u16) << 8) | (b1 as u16)
}

/// The 64-bit number read from eight big-endian bytes.
pub open spec fn spec_u64_from_be(
    b0: u8,
    b1: u8,
    b2: u8,
    b3: u8,
    b4: u8,
    b5: u8,
    b6: u8,
    b7: u8,
) -> u64 {
    ((b0 as u64) << 56) | ((b1 as u64) << 48) | ((b2 as u64) << 40) | ((b3 as u64) << 32) | ((
    b4 as u64) << 24) | ((b5 as u64) << 16) | ((b6 as u64) << 8) | (b7 as u64)
}

/// Reading back the two big-endian bytes of a 16-bit number gives it back.
pub proof fn lemma_u16_be_round(n: u16)
    ensures
        spec_u16_from_be(spec_u16_be(n)[0], spec_u16_be(n)[1]) == n,
{
    assert(((((n >> 8) & 0xFF) as u8 as u16) << 8) | ((n & 0xFF) as u8 as u16) == n)
        by (bit_vector);
}

/// Reading back the eight big-endian bytes of a 64-bit number gives it back.
pub proof fn lemma_u64_be_round(n: u64)
    ensures
        spec_u64_from_be(
            spec_u64_be(n)[0],
            spec_u64_be(n)[1],
            spec_u64_be(n)[2],
            spec_u64_be(n)[3],
            spec_u64_be(n)[4],
            spec_u64_be(n)[5],
            spec_u64_be(n)[6],
            spec_u64_be(n)[7],
        ) == n,
{
    assert((((((n >> 56) & 0xFF) as u8) as u64) << 56) | (((((n >> 48) & 0xFF) as u8) as u64)
        << 48) | (((((n >> 40) & 0xFF) as u8) as u64) << 40) | (((((n >> 32) & 0xFF) as u8) as u64)
        << 32) | (((((n >> 24) & 0xFF) as u8) as u64) << 24) | (((((n >> 16) & 0xFF) as u8) as u64)
        << 16) | (((((n >> 8) & 0xFF) as u8) as u64) << 8) | (((n & 0xFF) as u8) as u64) == n)
        by (bit_vector);
}

/// The first serialized byte: the fin bit above the opcode nibble.
pub open spec fn spec_header_byte(fin: bool, op: OpCode) -> u8 {
    if fin {
        spec_opcode_bits(op) | 0x80
    } else {
        spec_opcode_bits(op)
    }
}

/// The base length byte of an outbound frame (its mask bit is clear).
pub open spec fn spec_len_field(n: u64) -> u8 {
    if n <= 125 {
        n as u8
    } else if n <= 0xFFFF {
        126
    } else {
        127
    }
}

/// The extended length bytes of an outbound frame, empty when the
/// base byte already carries the length.
pub open spec fn spec_ext_len_bytes(n: u64) -> Seq<u8> {
    if n <= 125 {
        seq![]
    } else if n <= 0xFFFF {
        spec_u16_be(n as u16)
    } else {
        spec_u64_be(n)
    }
}

/// The serialized form of one outbound frame: header byte, length
/// byte, extended length, then the payload verbatim. No masking key
/// is emitted: a server never masks.
pub open spec fn spec_serialize_frame(f: FrameModel) -> Seq<u8> {
    seq![spec_header_byte(f.fin, f.opcode), spec_len_field(f.payload_len)] + spec_ext_len_bytes(
        f.payload_len,
    ) + f.payload
}

impl Frame {
    /// Serializes this frame for the server-to-client direction,
    /// with the mask bit always clear.
    pub fn serialize(&self) -> (r: Vec<u8>)
        requires
            frame_wf(self@),
            self.opcode != OpCode::Unknown,
        ensures
            r@ == spec_serialize_frame(self@),
    {
        let op = serialize_opcode(self.opcode);
        let b0: u8 = if self.fin {
            op | 0x80
        } else {
            op
        };
        let mut out: Vec<u8> = Vec::new();
        out.push(b0);
        if self.payload_len <= 125 {
            out.push(self.payload_len as u8);
        } else if self.payload_len <= 0xFFFF {
            out.push(126);
            let n16 = self.payload_len as u16;
            out.push(((n16 >> 8) & 0xFF) as u8);
            out.push((n16 & 0xFF) as u8);
        } else {
            out.push(127);
            let n = self.payload_len;
            out.push(((n >> 56) & 0xFF) as u8);
            out.push(((n >> 48) & 0xFF) as u8);
            out.push(((n >> 40) & 0xFF) as u8);
            out.push(((n >> 32) & 0xFF) as u8);
            out.push(((n >> 24) & 0xFF) as u8);
            out.push(((n >> 16) & 0xFF) as u8);
            out.push(((n >> 8) & 0xFF) as u8);
            out.push((n & 0xFF) as u8);
        }
        append_bytes(&mut out, self.payload.as_slice());
        assert(out@ =~= spec_serialize_frame(self@));
        out
    }
}

/// A sequence of frames handled as one unit.
pub struct Message {
    pub frames: Vec<Frame>,
}

impl View for Message {
    type V = Seq<FrameModel>;

    open spec fn view(&self) -> Seq<FrameModel> {
        self.frames@.map(|i: int, f: Frame| f@)
    }
}

/// Every frame can be serialized: its length is consistent and its
/// opcode has a wire value.
pub open spec fn frames_serializable(frames: Seq<FrameModel>) -> bool {
    forall|i: int|
        0 <= i < frames.len() ==> frame_wf(#[trigger] frames[i]) && frames[i].opcode
            != OpCode::Unknown
}

/// The concatenation of each frame's serialized form, in order.
pub open spec fn spec_serialize_frames(frames: Seq<FrameModel>) -> Seq<u8>
    decreases frames.len(),
{
    if frames.len() == 0 {
        Seq::empty()
    } else {
        spec_serialize_frames(frames.drop_last()) + spec_serialize_frame(frames.last())
    }
}

impl Message {
    /// Serializes each contained frame independently and
    /// concatenates the encodings in order; frame boundaries are
    /// kept, never merged.
    pub fn serialize(&self) -> (r: Vec<u8>)
        requires
            frames_serializable(self@),
        ensures
            r@ == spec_serialize_frames(self@),
    {
        let mut out: Vec<u8> = Vec::new();
        let mut i: usize = 0;
        assert(self@.subrange(0, 0) =~= Seq::<FrameModel>::empty());
        while i < self.frames.len()
            invariant
                0 <= i <= self.frames.len(),
                self.frames@.len() == self@.len(),
                frames_serializable(self@),
                forall|j: int| 0 <= j < self@.len() ==> self@[j] == #[trigger] self.frames@[j]@,
                out@ == spec_serialize_frames(self@.subrange(0, i as int)),
            decreases self.frames.len() - i,
        {
            let part = self.frames[i].serialize();
            append_bytes(&mut out, part.as_slice());
            assert(self@.subrange(0, i as int + 1).drop_last() =~= self@.subrange(0, i as int));
            assert(self@.subrange(0, i as int + 1).last() == self@[i as int]);
            i = i + 1;
        }
        assert(self@.subrange(0, self@.len() as int) =~= self@);
        out
    }
}

/// Why a buffer could not be parsed as a frame: the part of the
/// frame it is too small to hold.
#[derive(Copy, Clone, PartialEq, Eq, Structural, Debug)]
pub enum BufferPart {
    Header,
    ExtendedLen16,
    ExtendedLen64,
    MaskingKey,
    Payload,
}

/// A recoverable parse failure; the caller may keep reading.
#[derive(Copy, Clone, PartialEq, Eq, Structural, Debug)]
pub enum FrameError {
    BufferTooSmall(BufferPart),
}

/// Each payload byte XOR-ed with the masking key byte at its
/// position modulo four.
pub open spec fn spec_unmask(data: Seq<u8>, key: Seq<u8>) -> Seq<u8> {
    Seq::new(data.len(), |i: int| data[i] ^ key[i % 4])
}

/// Parsing after the length is known: the optional masking key, the
/// payload length check, and the (unmasked) payload.
pub open spec fn spec_parse_rest(
    buf: Seq<u8>,
    offset: int,
    fin: bool,
    opcode: OpCode,
    masked: bool,
    plen: u64,
) -> Result<FrameModel, FrameError> {
    if masked {
        if buf.len() < offset + 4 {
            Err(FrameError::BufferTooSmall(BufferPart::MaskingKey))
        } else {
            let key = buf.subrange(offset, offset + 4);
            if buf.len() - (offset + 4) < plen {
                Err(FrameError::BufferTooSmall(BufferPart::Payload))
            } else {
                Ok(
                    FrameModel {
                        fin,
                        opcode,
                        mask: true,
                        payload_len: plen,
                        payload: spec_unmask(
                            buf.subrange(offset + 4, offset + 4 + plen),
                            key,
                        ),
                    },
                )
            }
        }
    } else {
        if buf.len() - offset < plen {
            Err(FrameError::BufferTooSmall(BufferPart::Payload))
        } else {
            Ok(
                FrameModel {
                    fin,
                    opcode,
                    mask: false,
                    payload_len: plen,
                    payload: buf.subrange(offset, offset + plen),
                },
            )
        }
    }
}

/// The frame denoted by a byte buffer, or the reason it denotes none,
/// following RFC 6455 section 5.2.
pub open spec fn spec_parse_frame(buf: Seq<u8>) -> Result<FrameModel, FrameError> {
    if buf.len() < 2 {
        Err(FrameError::BufferTooSmall(BufferPart::Header))
    } else {
        let fin = (buf[0] & 0x80) != 0;
        let opcode = spec_opcode_of(buf[0] & 0x0F);
        let masked = (buf[1] & 0x80) != 0;
        let base = (buf[1] & 0x7F) as u64;
        if base == 126 {
            if buf.len() < 4 {
                Err(FrameError::BufferTooSmall(BufferPart::ExtendedLen16))
            } else {
                spec_parse_rest(
                    buf,
                    4,
                    fin,
                    opcode,
                    masked,
                    spec_u16_from_be(buf[2], buf[3]) as u64,
                )
            }
        } else if base == 127 {
            if buf.len() < 10 {
                Err(FrameError::BufferTooSmall(BufferPart::ExtendedLen64))
            } else {
                spec_parse_rest(
                    buf,
                    10,
                    fin,
                    opcode,
                    masked,
                    spec_u64_from_be(
                        buf[2],
                        buf[3],
                        buf[4],
                        buf[5],
                        buf[6],
                        buf[7],
                        buf[8],
                        buf[9],
                    ),
                )
            }
        } else {
            spec_parse_rest(buf, 2, fin, opcode, masked, base)
        }
    }
}

/// Decodes one frame from a byte buffer. The returned payload is
/// already unmasked and its recorded length always matches it.
pub fn parse_frame(buf: &[u8]) -> (r: Result<Frame, FrameError>)
    ensures
        (r is Ok) == (spec_parse_frame(buf@) is Ok),
        r is Ok ==> r->Ok_0@ == spec_parse_frame(buf@)->Ok_0 && frame_wf(r->Ok_0@),
        r is Err ==> r->Err_0 == spec_parse_frame(buf@)->Err_0,
{
    if buf.len() < 2 {
        return Err(FrameError::BufferTooSmall(BufferPart::Header));
    }
    let b0 = buf[0];
    let b1 = buf[1];
    let is_fin = (b0 & 0x80) != 0;
    let opcode = deserialize_opcode(b0 & 0x0F);
    let is_masked = (b1 & 0x80) != 0;
    let mut payload_len: u64 = (b1 & 0x7F) as u64;
    let mut offset: usize = 2;

    if payload_len == 126 {
        if buf.len() < 4 {
            return Err(FrameError::BufferTooSmall(BufferPart::ExtendedLen16));
        }
        payload_len = (((buf[2] as u16) << 8) | (buf[3] as u16)) as u64;
        offset = 4;
    } else if payload_len == 127 {
        if buf.len() < 10 {
            return Err(FrameError::BufferTooSmall(BufferPart::ExtendedLen64));
        }
        payload_len = ((buf[2] as u64) << 56) | ((buf[3] as u64) << 48) | ((buf[4] as u64) << 40)
            | ((buf[5] as u64) << 32) | ((buf[6] as u64) << 24) | ((buf[7] as u64) << 16) | ((
        buf[8] as u64) << 8) | (buf[9] as u64);
        offset = 10;
    }

    let ghost off0: int = offset as int;
    let mut key: Vec<u8> = Vec::new();
    if is_masked {
        if buf.len() < offset + 4 {
            return Err(FrameError::BufferTooSmall(BufferPart::MaskingKey));
        }
        key.push(buf[offset]);
        key.push(buf[offset + 1]);
        key.push(buf[offset + 2]);
        key.push(buf[offset + 3]);
        assert(key@ =~= buf@.subrange(off0, off0 + 4));
        offset = offset + 4;
    }

    if ((buf.len() - offset) as u64) < payload_len {
        return Err(FrameError::BufferTooSmall(BufferPart::Payload));
    }
    let plen: usize = payload_len as usize;

    let mut payload: Vec<u8> = Vec::new();
    let mut i: usize = 0;
    while i < plen
        invariant
            0 <= i <= plen,
            buf@.len() <= usize::MAX,
            offset + plen <= buf@.len(),
            is_masked ==> key@.len() == 4,
            payload@.len() == i,
            forall|j: int|
                0 <= j < i ==> payload@[j] == if is_masked {
                    buf@[offset + j] ^ key@[j % 4]
                } else {
                    buf@[offset + j]
                },
        decreases plen - i,
    {
        let byte = buf[offset + i];
        if is_masked {
            payload.push(byte ^ key[i % 4]);
        } else {
            payload.push(byte);
        }
        i = i + 1;
    }

    if is_masked {
        assert(payload@ =~= spec_unmask(
            buf@.subrange(off0 + 4, off0 + 4 + payload_len),
            buf@.subrange(off0, off0 + 4),
        ));
    } else {
        assert(payload@ =~= buf@.subrange(off0, off0 + payload_len));
    }

    Ok(
        Frame {
            fin: is_fin,
            opcode,
            mask: is_masked,
            payload_len,
            payload,
        },
    )
}

/// The concatenation of one frame's serialized form is that form.
pub proof fn lemma_serialize_single(m: FrameModel)
    ensures
        spec_serialize_frames(seq![m]) == spec_serialize_frame(m),
{
    assert(seq![m].drop_last() =~= Seq::<FrameModel>::empty());
    assert(spec_serialize_frames(Seq::<FrameModel>::empty()) == Seq::<u8>::empty());
    assert(seq![m].last() == m);
    assert(Seq::<u8>::empty() + spec_serialize_frame(m) =~= spec_serialize_frame(m));
}

/// Builds a single-frame message with `fin` set, carrying the
/// payload verbatim; the server never masks, so `mask` is clear.
pub fn build_message(opcode: OpCode, payload: &[u8]) -> (m: Message)
    ensures
        m@ == seq![
            FrameModel {
                fin: true,
                opcode,
                mask: false,
                payload_len: payload@.len() as u64,
                payload: payload@,
            },
        ],
        frame_wf(m@[0]),
        opcode != OpCode::Unknown ==> frames_serializable(m@),
{
    let mut body: Vec<u8> = Vec::new();
    append_bytes(&mut body, payload);
    let frame = Frame {
        fin: true,
        opcode,
        mask: false,
        payload_len: payload.len() as u64,
        payload: body,
    };
    let mut frames: Vec<Frame> = Vec::new();
    frames.push(frame);
    let m = Message { frames };
    assert(m@ =~= seq![
        FrameModel {
            fin: true,
            opcode,
            mask: false,
            payload_len: payload@.len() as u64,
            payload: payload@,
        },
    ]);
    assert(frame_wf(m@[0]));
    m
}

/// An RFC 6455 close status code modeled by this server.
#[derive(Copy, Clone, PartialEq, Eq, Structural, Debug)]
pub enum StatusCode {
    Unexpected,
}

/// The 16-bit wire value of a close status code.
pub open spec fn spec_status_value(code: StatusCode) -> u16 {
    match code {
        StatusCode::Unexpected => 1011,
    }
}

impl StatusCode {
    /// The 16-bit wire value of this close status code.
    pub fn serialize(&self) -> (r: u16)
        ensures
            r == spec_status_value(*self),
    {
        match self {
            StatusCode::Unexpected => 1011,
        }
    }
}

/// A close frame payload: the big-endian status code, then the
/// UTF-8 bytes of the reason.
pub open spec fn spec_close_payload(code: StatusCode, reason: Seq<u8>) -> Seq<u8> {
    spec_u16_be(spec_status_value(code)) + reason
}

/// Builds the payload of a Close frame: the big-endian status code
/// followed by the reason text.
pub fn build_close_frame_payload(code: StatusCode, reason: &str) -> (r: Vec<u8>)
    ensures
        r@ == spec_close_payload(code, reason.spec_bytes()),
{
    let mut payload: Vec<u8> = Vec::new();
    let status_code = code.serialize();
    payload.push(((status_code >> 8) & 0xFF) as u8);
    payload.push((status_code & 0xFF) as u8);
    append_bytes(&mut payload, reason.as_bytes());
    assert(payload@ =~= spec_close_payload(code, reason.spec_bytes()));
    payload
}

/// Round trip of the codec: parsing the serialized form of any
/// serializable frame gives the frame back, with only the mask flag
/// cleared, for every payload length.
pub proof fn lemma_frame_round_trip(f: FrameModel)
    requires
        frame_wf(f),
        f.opcode != OpCode::Unknown,
    ensures
        spec_parse_frame(spec_serialize_frame(f)) == Ok::<FrameModel, FrameError>(
            FrameModel {
                fin: f.fin,
                opcode: f.opcode,
                mask: false,
                payload_len: f.payload_len,
                payload: f.payload,
            },
        ),
{
    let s = spec_serialize_frame(f);
    let op = spec_opcode_bits(f.opcode);
    let h = spec_header_byte(f.fin, f.opcode);
    let lf = spec_len_field(f.payload_len);
    let ext = spec_ext_len_bytes(f.payload_len);
    let n = f.payload_len;
    assert(op == 0 || op == 1 || op == 8 || op == 9 || op == 10);
    assert((op & 0x80) == 0 && (op & 0x0F) == op && ((op | 0x80) & 0x80) != 0 && ((op | 0x80)
        & 0x0F) == op) by (bit_vector)
        requires
            op <= 15,
    ;
    assert(s[0] == h && s[1] == lf);
    assert(s.len() == 2 + ext.len() + f.payload.len());
    assert(((s[0] & 0x80) != 0) == f.fin);
    assert((s[0] & 0x0F) == op);
    assert(spec_opcode_of(op) == f.opcode);
    if n <= 125 {
        assert(((n as u8) & 0x80) == 0 && (((n as u8) & 0x7F) as u64) == n) by (bit_vector)
            requires
                n <= 125,
        ;
        assert(ext.len() == 0);
        assert(((s[1] & 0x7F) as u64) == n && n != 126 && n != 127);
        assert(spec_parse_frame(s) == spec_parse_rest(
            s,
            2,
            f.fin,
            f.opcode,
            false,
            n,
        ));
        assert(s.subrange(2, 2 + n as int) =~= f.payload);
    } else if n <= 0xFFFF {
        assert(lf == 126);
        assert(((126u8 & 0x80) == 0) && (((126u8 & 0x7F) as u64) == 126)) by (bit_vector);
        assert(ext == spec_u16_be(n as u16));
        assert(s[2] == ext[0] && s[3] == ext[1]);
        lemma_u16_be_round(n as u16);
        assert(((n as u16) as u64) == n) by (bit_vector)
            requires
                n <= 0xFFFF,
        ;
        assert(spec_u16_from_be(s[2], s[3]) as u64 == n);
        assert(spec_parse_frame(s) == spec_parse_rest(
            s,
            4,
            f.fin,
            f.opcode,
            false,
            n,
        ));
        assert(s.subrange(4, 4 + n as int) =~= f.payload);
    } else {
        assert(lf == 127);
        assert(((127u8 & 0x80) == 0) && (((127u8 & 0x7F) as u64) == 127)) by (bit_vector);
        assert(ext == spec_u64_be(n));
        assert(s[2] == ext[0] && s[3] == ext[1] && s[4] == ext[2] && s[5] == ext[3] && s[6]
            == ext[4] && s[7] == ext[5] && s[8] == ext[6] && s[9] == ext[7]);
        lemma_u64_be_round(n);
        assert(spec_u64_from_be(s[2], s[3], s[4], s[5], s[6], s[7], s[8], s[9]) == n);
        assert(spec_parse_frame(s) == spec_parse_rest(
            s,
            10,
            f.fin,
            f.opcode,
            false,
            n,
        ));
        assert(s.subrange(10, 10 + n as int) =~= f.payload);
    }
}

} // verus!
