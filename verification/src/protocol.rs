//! Framed wire protocol, shared by the daemon and every client.
//!
//! Frames travel over any ordered byte stream. The header is 8 bytes, little
//! endian: payload length (u32, capped), frame type (u8), flags (u8, reserved),
//! two reserved bytes. Only [`FrameType::Exited`] means that the shell died;
//! end of stream without it means that the link was lost.
use crate::text::{from_utf8_lossy, hex_byte, lossy_text, number_text, push_hex_byte, push_number};
use vstd::prelude::*;
use vstd::string::StringExecFns;
use vstd::utf8::{encode_utf8, encode_utf8_decode_utf8, encode_utf8_valid_utf8};

verus! {

pub const PROTOCOL_VERSION: u32 = 1;

/// The largest payload of one frame.
pub const MAX_PAYLOAD: usize = 64 * 1024;

pub const HEADER_LEN: usize = 8;

/// Reasons carried by [`FrameType::Detached`].
pub const DETACH_SERVER_SHUTDOWN: u8 = 0;

pub const DETACH_REPLACED: u8 = 1;

pub const DETACH_SLOW_CONSUMER: u8 = 2;

/// Error codes carried by [`FrameType::Error`].
pub const ERROR_VERSION_MISMATCH: u8 = 1;

/// Feature bits carried in a client hello.
pub const FEATURE_NO_REPLAY: u32 = 1;

pub const SHELL_RUNNING: u8 = 0;

pub const SHELL_EXITED: u8 = 1;

/// The fixed part of a server hello.
pub const SERVER_HELLO_LEN: usize = 17;

#[derive(Clone, Copy, Debug, PartialEq, Eq, Structural)]
pub struct FrameHeader {
    pub len: u32,
    pub typ: u8,
    pub flags: u8,
}

/// Frame types: the first six go from client to server, the rest back.
#[derive(Clone, Copy, Debug, PartialEq, Eq, Structural)]
pub enum FrameType {
    ClientHello,
    Stdin,
    Resize,
    Kill,
    Detach,
    Ping,
    ServerHello,
    Output,
    ReplayBegin,
    ReplayEnd,
    Exited,
    Detached,
    Error,
    Pong,
}

/// The type byte of a frame type.
pub open spec fn type_byte(typ: FrameType) -> u8 {
    match typ {
        FrameType::ClientHello => 0x01,
        FrameType::Stdin => 0x02,
        FrameType::Resize => 0x03,
        FrameType::Kill => 0x04,
        FrameType::Detach => 0x05,
        FrameType::Ping => 0x06,
        FrameType::ServerHello => 0x81,
        FrameType::Output => 0x82,
        FrameType::ReplayBegin => 0x83,
        FrameType::ReplayEnd => 0x84,
        FrameType::Exited => 0x85,
        FrameType::Detached => 0x86,
        FrameType::Error => 0x87,
        FrameType::Pong => 0x88,
    }
}

/// Whether some frame type has this byte.
pub open spec fn is_type_byte(v: u8) -> bool {
    0x01 <= v <= 0x06 || 0x81 <= v <= 0x88
}

impl FrameType {
    /// The frame type with the given type byte.
    pub fn from_u8(v: u8) -> (typ: Option<FrameType>)
        ensures
            typ is Some <==> is_type_byte(v),
            typ matches Some(t) ==> type_byte(t) == v,
    {
        match v {
            0x01 => Some(FrameType::ClientHello),
            0x02 => Some(FrameType::Stdin),
            0x03 => Some(FrameType::Resize),
            0x04 => Some(FrameType::Kill),
            0x05 => Some(FrameType::Detach),
            0x06 => Some(FrameType::Ping),
            0x81 => Some(FrameType::ServerHello),
            0x82 => Some(FrameType::Output),
            0x83 => Some(FrameType::ReplayBegin),
            0x84 => Some(FrameType::ReplayEnd),
            0x85 => Some(FrameType::Exited),
            0x86 => Some(FrameType::Detached),
            0x87 => Some(FrameType::Error),
            0x88 => Some(FrameType::Pong),
            _ => None,
        }
    }

    /// The type byte.
    pub fn to_u8(self) -> (v: u8)
        ensures
            v == type_byte(self),
    {
        match self {
            FrameType::ClientHello => 0x01,
            FrameType::Stdin => 0x02,
            FrameType::Resize => 0x03,
            FrameType::Kill => 0x04,
            FrameType::Detach => 0x05,
            FrameType::Ping => 0x06,
            FrameType::ServerHello => 0x81,
            FrameType::Output => 0x82,
            FrameType::ReplayBegin => 0x83,
            FrameType::ReplayEnd => 0x84,
            FrameType::Exited => 0x85,
            FrameType::Detached => 0x86,
            FrameType::Error => 0x87,
            FrameType::Pong => 0x88,
        }
    }
}

/// A violation after which the stream must be closed.
#[derive(Clone, Copy, Debug, PartialEq, Eq, Structural)]
pub enum ProtocolError {
    Oversize(u32),
    UnknownType(u8),
}

impl ProtocolError {
    /// The violation in words.
    pub fn message(&self) -> (text: String)
        ensures
            text@ == match *self {
                ProtocolError::Oversize(n) => "frame payload "@ + number_text(n as nat)
                    + " exceeds cap"@,
                ProtocolError::UnknownType(t) => "unknown frame type 0x"@ + hex_byte(t),
            },
    {
        match *self {
            ProtocolError::Oversize(n) => {
                let mut text: String = "frame payload ".to_owned();
                push_number(&mut text, n as u64);
                text.append(" exceeds cap");
                text
            },
            ProtocolError::UnknownType(t) => {
                let mut text: String = "unknown frame type 0x".to_owned();
                push_hex_byte(&mut text, t);
                text
            },
        }
    }
}

/// A payload that no frame can carry.
#[derive(Clone, Copy, Debug, PartialEq, Eq, Structural)]
pub struct PayloadTooLarge {
    pub len: usize,
}

/// A 16-bit value in little-endian order.
pub open spec fn le16(v: u16) -> Seq<u8> {
    seq![(v % 256) as u8, (v / 256) as u8]
}

/// The 16-bit value of two little-endian bytes.
pub open spec fn le16_at(bytes: Seq<u8>, i: int) -> u16 {
    (bytes[i] + bytes[i + 1] * 256) as u16
}

/// A 32-bit value in little-endian order.
pub open spec fn le32(v: u32) -> Seq<u8> {
    seq![
        (v % 256) as u8,
        (v / 256 % 256) as u8,
        (v / 65536 % 256) as u8,
        (v / 16777216) as u8,
    ]
}

/// The 32-bit value of four little-endian bytes.
pub open spec fn le32_at(bytes: Seq<u8>, i: int) -> u32 {
    (bytes[i] + bytes[i + 1] * 256 + bytes[i + 2] * 65536 + bytes[i + 3] * 16777216) as u32
}

/// The unsigned value with the same 32 bits.
pub open spec fn bits_of(v: i32) -> u32 {
    if v >= 0 {
        v as u32
    } else {
        (v + 0x1_0000_0000) as u32
    }
}

/// The signed value with the same 32 bits.
pub open spec fn signed_of(v: u32) -> i32 {
    if v < 0x8000_0000 {
        v as i32
    } else {
        (v - 0x1_0000_0000) as i32
    }
}

/// Appends a 32-bit value in little-endian order.
pub fn push_u32(out: &mut Vec<u8>, v: u32)
    ensures
        final(out)@ == old(out)@ + le32(v),
{
    out.push((v % 256) as u8);
    out.push((v / 256 % 256) as u8);
    out.push((v / 65536 % 256) as u8);
    out.push((v / 16777216) as u8);
    assert(out@ =~= old(out)@ + le32(v));
}

/// Reads a 16-bit little-endian value.
pub fn read_u16(bytes: &[u8], i: usize) -> (v: u16)
    requires
        i + 2 <= bytes@.len(),
    ensures
        v == le16_at(bytes@, i as int),
{
    bytes[i] as u16 + bytes[i + 1] as u16 * 256
}

/// Reads a 32-bit little-endian value.
pub fn read_u32(bytes: &[u8], i: usize) -> (v: u32)
    requires
        i + 4 <= bytes@.len(),
    ensures
        v == le32_at(bytes@, i as int),
{
    bytes[i] as u32 + bytes[i + 1] as u32 * 256 + bytes[i + 2] as u32 * 65536 + bytes[i + 3] as u32
        * 16777216
}

/// The wire form of one frame.
pub open spec fn frame_bytes(typ: FrameType, payload: Seq<u8>) -> Seq<u8> {
    le32(payload.len() as u32) + seq![type_byte(typ), 0u8, 0u8, 0u8] + payload
}

/// What the front of a byte stream holds.
pub enum Front {
    /// Not yet a whole frame.
    Incomplete,
    /// No frame can follow.
    Violation(ProtocolError),
    /// A frame and what comes after it.
    Frame { header: FrameHeader, payload: Seq<u8>, rest: Seq<u8> },
}

/// Reads the front of a byte stream.
pub open spec fn front(bytes: Seq<u8>) -> Front {
    if bytes.len() < HEADER_LEN {
        Front::Incomplete
    } else {
        let len = le32_at(bytes, 0);
        if len > MAX_PAYLOAD {
            Front::Violation(ProtocolError::Oversize(len))
        } else if !is_type_byte(bytes[4]) {
            Front::Violation(ProtocolError::UnknownType(bytes[4]))
        } else if bytes.len() < HEADER_LEN + len {
            Front::Incomplete
        } else {
            Front::Frame {
                header: FrameHeader { len, typ: bytes[4], flags: bytes[5] },
                payload: bytes.subrange(HEADER_LEN as int, HEADER_LEN + len),
                rest: bytes.skip(HEADER_LEN + len),
            }
        }
    }
}

/// Incremental frame decoder. Feed arbitrary byte chunks, take complete frames.
pub struct Decoder {
    buf: Vec<u8>,
    off: usize,
}

impl View for Decoder {
    type V = Seq<u8>;

    /// The bytes not yet taken.
    closed spec fn view(&self) -> Seq<u8> {
        self.buf@.skip(self.off as int)
    }
}

impl Decoder {
    /// What every decoder keeps.
    pub closed spec fn wf(&self) -> bool {
        self.off <= self.buf@.len()
    }

    pub fn new() -> (decoder: Decoder)
        ensures
            decoder.wf(),
            decoder@ == Seq::<u8>::empty(),
    {
        let decoder = Decoder { buf: Vec::new(), off: 0 };
        assert(decoder@ =~= Seq::<u8>::empty());
        decoder
    }

    /// Appends received bytes.
    pub fn feed(&mut self, bytes: &[u8])
        requires
            old(self).wf(),
        ensures
            final(self).wf(),
            final(self)@ == old(self)@ + bytes@,
    {
        // Compact only when the dead prefix dominates.
        if self.off > 0 && self.off >= self.buf.len() / 2 {
            let rest = self.buf.split_off(self.off);
            *self = Decoder { buf: rest, off: 0 };
        }
        assert(self@ =~= old(self)@);
        self.buf.extend_from_slice(bytes);
        assert(self@ =~= old(self)@ + bytes@);
    }

    /// Bytes fed and not yet taken. A peer that streams faster than frames are
    /// taken must be disconnected, not buffered for ever.
    pub fn buffered(&self) -> (n: usize)
        requires
            self.wf(),
        ensures
            n == self@.len(),
    {
        self.buf.len() - self.off
    }

    /// Takes the next frame. `Ok(None)` asks for more bytes; after an error the
    /// stream must be closed.
    pub fn next_frame(&mut self) -> (result: Result<
        Option<(FrameHeader, Vec<u8>)>,
        ProtocolError,
    >)
        requires
            old(self).wf(),
        ensures
            final(self).wf(),
            match front(old(self)@) {
                Front::Incomplete => result matches Ok(None) && final(self)@ == old(self)@,
                Front::Violation(error) => result == Err::<
                    Option<(FrameHeader, Vec<u8>)>,
                    ProtocolError,
                >(error) && final(self)@ == old(self)@,
                Front::Frame { header, payload, rest } => {
                    &&& result matches Ok(Some(frame))
                    &&& frame.0 == header
                    &&& frame.1@ == payload
                    &&& final(self)@ == rest
                },
            },
    {
        let ghost pending = self@;
        let avail: usize = self.buf.len() - self.off;
        if avail < HEADER_LEN {
            return Ok(None);
        }
        let len: u32 = read_u32(self.buf.as_slice(), self.off);
        let typ: u8 = self.buf[self.off + 4];
        let flags: u8 = self.buf[self.off + 5];
        assert(len == le32_at(pending, 0));
        if len as usize > MAX_PAYLOAD {
            return Err(ProtocolError::Oversize(len));
        }
        if FrameType::from_u8(typ).is_none() {
            return Err(ProtocolError::UnknownType(typ));
        }
        if avail < HEADER_LEN + len as usize {
            return Ok(None);
        }
        let start: usize = self.off + HEADER_LEN;
        let end: usize = start + len as usize;
        let payload: Vec<u8> = vstd::slice::slice_to_vec(
            vstd::slice::slice_subrange(self.buf.as_slice(), start, end),
        );
        self.off = end;
        proof {
            assert(payload@ =~= pending.subrange(HEADER_LEN as int, HEADER_LEN + len));
            assert(self@ =~= pending.skip(HEADER_LEN + len));
        }
        Ok(Some((FrameHeader { len, typ, flags }, payload)))
    }
}

/// Appends one frame. A payload above the cap is refused here rather than by
/// the receiver, which would drop the link.
pub fn write_frame(out: &mut Vec<u8>, typ: FrameType, payload: &[u8]) -> (result: Result<
    (),
    PayloadTooLarge,
>)
    ensures
        payload@.len() <= MAX_PAYLOAD ==> result is Ok && final(out)@ == old(out)@ + frame_bytes(
            typ,
            payload@,
        ),
        payload@.len() > MAX_PAYLOAD ==> result == Err::<(), PayloadTooLarge>(
            PayloadTooLarge { len: payload@.len() as usize },
        ) && final(out)@ == old(out)@,
{
    if payload.len() > MAX_PAYLOAD {
        return Err(PayloadTooLarge { len: payload.len() });
    }
    push_u32(out, payload.len() as u32);
    out.push(typ.to_u8());
    out.push(0);
    out.push(0);
    out.push(0);
    out.extend_from_slice(payload);
    assert(out@ =~= old(out)@ + frame_bytes(typ, payload@));
    Ok(())
}

/// Bytes cut into frames of one type, each as large as a frame can be.
pub open spec fn chunked(typ: FrameType, bytes: Seq<u8>) -> Seq<u8>
    decreases bytes.len(),
{
    if bytes.len() == 0 {
        Seq::empty()
    } else if bytes.len() <= MAX_PAYLOAD {
        frame_bytes(typ, bytes)
    } else {
        frame_bytes(typ, bytes.take(MAX_PAYLOAD as int)) + chunked(
            typ,
            bytes.skip(MAX_PAYLOAD as int),
        )
    }
}

/// Appends bytes cut into frames.
pub fn write_chunked(out: &mut Vec<u8>, typ: FrameType, bytes: &[u8])
    ensures
        final(out)@ == old(out)@ + chunked(typ, bytes@),
{
    let mut at: usize = 0;
    assert(bytes@.skip(0) =~= bytes@);
    while bytes.len() - at > MAX_PAYLOAD
        invariant
            at <= bytes@.len(),
            out@ + chunked(typ, bytes@.skip(at as int)) == old(out)@ + chunked(typ, bytes@),
        decreases bytes.len() - at,
    {
        let ghost before = out@;
        let ghost rest = bytes@.skip(at as int);
        let chunk = vstd::slice::slice_subrange(bytes, at, at + MAX_PAYLOAD);
        let _ = write_frame(out, typ, chunk);
        proof {
            assert(chunk@ =~= rest.take(MAX_PAYLOAD as int));
            assert(rest.skip(MAX_PAYLOAD as int) =~= bytes@.skip(at + MAX_PAYLOAD));
            assert(out@ + chunked(typ, bytes@.skip(at + MAX_PAYLOAD)) =~= before + chunked(
                typ,
                rest,
            ));
        }
        at = at + MAX_PAYLOAD;
    }
    let ghost before = out@;
    let ghost rest = bytes@.skip(at as int);
    if at < bytes.len() {
        let chunk = vstd::slice::slice_subrange(bytes, at, bytes.len());
        assert(chunk@ =~= rest);
        let _ = write_frame(out, typ, chunk);
    } else {
        assert(before + chunked(typ, rest) =~= before);
    }
}

/// The payload of a client hello without feature bits.
pub fn encode_client_hello() -> (payload: Vec<u8>)
    ensures
        payload@ == le32(PROTOCOL_VERSION) + le32(0),
{
    encode_client_hello_with(0)
}

/// The payload of a client hello: protocol version, then feature bits.
pub fn encode_client_hello_with(features: u32) -> (payload: Vec<u8>)
    ensures
        payload@ == le32(PROTOCOL_VERSION) + le32(features),
{
    let mut payload: Vec<u8> = Vec::new();
    push_u32(&mut payload, PROTOCOL_VERSION);
    push_u32(&mut payload, features);
    assert(payload@ =~= le32(PROTOCOL_VERSION) + le32(features));
    payload
}

/// The protocol version of a client hello.
pub fn decode_client_hello(payload: &[u8]) -> (version: Option<u32>)
    ensures
        version == if payload@.len() < 4 {
            None::<u32>
        } else {
            Some(le32_at(payload@, 0))
        },
{
    if payload.len() < 4 {
        None
    } else {
        Some(read_u32(payload, 0))
    }
}

/// The feature bits of a client hello, none where they are absent.
pub fn decode_client_hello_features(payload: &[u8]) -> (features: u32)
    ensures
        features == if payload@.len() < 8 {
            0u32
        } else {
            le32_at(payload@, 4)
        },
{
    if payload.len() < 8 {
        0
    } else {
        read_u32(payload, 4)
    }
}

/// What the daemon answers to a client hello: version, daemon pid, shell pid,
/// shell state, exit status, then JSON metadata.
pub struct ServerHello {
    pub version: u32,
    pub daemon_pid: u32,
    pub shell_pid: u32,
    pub shell_state: u8,
    pub exit_status: i32,
    pub meta_json: String,
}

/// The mathematical value of a [`ServerHello`].
pub struct ServerHelloView {
    pub version: u32,
    pub daemon_pid: u32,
    pub shell_pid: u32,
    pub shell_state: u8,
    pub exit_status: i32,
    pub meta_json: Seq<char>,
}

impl View for ServerHello {
    type V = ServerHelloView;

    open spec fn view(&self) -> ServerHelloView {
        ServerHelloView {
            version: self.version,
            daemon_pid: self.daemon_pid,
            shell_pid: self.shell_pid,
            shell_state: self.shell_state,
            exit_status: self.exit_status,
            meta_json: self.meta_json@,
        }
    }
}

/// The payload of a server hello.
pub open spec fn server_hello_bytes(h: ServerHelloView) -> Seq<u8> {
    le32(h.version) + le32(h.daemon_pid) + le32(h.shell_pid) + seq![h.shell_state] + le32(
        bits_of(h.exit_status),
    ) + encode_utf8(h.meta_json)
}

/// The server hello of a payload.
pub open spec fn server_hello_of(payload: Seq<u8>) -> Option<ServerHelloView> {
    if payload.len() < SERVER_HELLO_LEN {
        None
    } else {
        Some(
            ServerHelloView {
                version: le32_at(payload, 0),
                daemon_pid: le32_at(payload, 4),
                shell_pid: le32_at(payload, 8),
                shell_state: payload[12],
                exit_status: signed_of(le32_at(payload, 13)),
                meta_json: lossy_text(payload.skip(SERVER_HELLO_LEN as int)),
            },
        )
    }
}

impl ServerHello {
    pub fn encode(&self) -> (payload: Vec<u8>)
        ensures
            payload@ == server_hello_bytes(self@),
    {
        let mut payload: Vec<u8> = Vec::new();
        push_u32(&mut payload, self.version);
        push_u32(&mut payload, self.daemon_pid);
        push_u32(&mut payload, self.shell_pid);
        payload.push(self.shell_state);
        let bits: u32 = if self.exit_status >= 0 {
            self.exit_status as u32
        } else {
            (self.exit_status as i64 + 0x1_0000_0000) as u32
        };
        push_u32(&mut payload, bits);
        payload.extend_from_slice(self.meta_json.as_str().as_bytes());
        assert(payload@ =~= server_hello_bytes(self@));
        payload
    }

    pub fn decode(payload: &[u8]) -> (hello: Option<ServerHello>)
        ensures
            match server_hello_of(payload@) {
                None => hello is None,
                Some(expected) => hello matches Some(h) && h@ == expected,
            },
    {
        if payload.len() < SERVER_HELLO_LEN {
            return None;
        }
        let bits: u32 = read_u32(payload, 13);
        let exit_status: i32 = if bits < 0x8000_0000 {
            bits as i32
        } else {
            (bits as i64 - 0x1_0000_0000) as i32
        };
        let meta = vstd::slice::slice_subrange(payload, SERVER_HELLO_LEN, payload.len());
        assert(meta@ =~= payload@.skip(SERVER_HELLO_LEN as int));
        Some(
            ServerHello {
                version: read_u32(payload, 0),
                daemon_pid: read_u32(payload, 4),
                shell_pid: read_u32(payload, 8),
                shell_state: payload[12],
                exit_status,
                meta_json: from_utf8_lossy(meta),
            },
        )
    }
}

/// The payload of a resize: rows, columns, pixel width, pixel height.
pub fn encode_resize(rows: u16, cols: u16, xpixel: u16, ypixel: u16) -> (payload: [u8; 8])
    ensures
        payload@ == le16(rows) + le16(cols) + le16(xpixel) + le16(ypixel),
{
    let payload: [u8; 8] = [
        (rows % 256) as u8,
        (rows / 256) as u8,
        (cols % 256) as u8,
        (cols / 256) as u8,
        (xpixel % 256) as u8,
        (xpixel / 256) as u8,
        (ypixel % 256) as u8,
        (ypixel / 256) as u8,
    ];
    assert(payload@ =~= le16(rows) + le16(cols) + le16(xpixel) + le16(ypixel));
    payload
}

/// Rows, columns, pixel width and pixel height of a resize payload.
pub fn decode_resize(payload: &[u8]) -> (size: Option<(u16, u16, u16, u16)>)
    ensures
        size == if payload@.len() < 8 {
            None::<(u16, u16, u16, u16)>
        } else {
            Some(
                (
                    le16_at(payload@, 0),
                    le16_at(payload@, 2),
                    le16_at(payload@, 4),
                    le16_at(payload@, 6),
                ),
            )
        },
{
    if payload.len() < 8 {
        return None;
    }
    Some((read_u16(payload, 0), read_u16(payload, 2), read_u16(payload, 4), read_u16(payload, 6)))
}

pub(crate) proof fn lemma_le32(before: Seq<u8>, v: u32, after: Seq<u8>)
    ensures
        le32_at(before + le32(v) + after, before.len() as int) == v,
{
    let all = before + le32(v) + after;
    let i = before.len() as int;
    assert(all[i] == le32(v)[0]);
    assert(all[i + 1] == le32(v)[1]);
    assert(all[i + 2] == le32(v)[2]);
    assert(all[i + 3] == le32(v)[3]);
}

proof fn lemma_le16(before: Seq<u8>, v: u16, after: Seq<u8>)
    ensures
        le16_at(before + le16(v) + after, before.len() as int) == v,
{
    let all = before + le16(v) + after;
    let i = before.len() as int;
    assert(all[i] == le16(v)[0]);
    assert(all[i + 1] == le16(v)[1]);
}

/// What is written is read back: a frame at the front of a stream is taken
/// whole, and leaves exactly what follows it.
pub proof fn law_frame_round_trip(typ: FrameType, payload: Seq<u8>, rest: Seq<u8>)
    requires
        payload.len() <= MAX_PAYLOAD,
    ensures
        front(frame_bytes(typ, payload) + rest) == (Front::Frame {
            header: FrameHeader { len: payload.len() as u32, typ: type_byte(typ), flags: 0 },
            payload,
            rest,
        }),
{
    let len = payload.len() as u32;
    let all = frame_bytes(typ, payload) + rest;
    let tail = seq![type_byte(typ), 0u8, 0u8, 0u8] + payload + rest;
    assert(all =~= Seq::<u8>::empty() + le32(len) + tail);
    lemma_le32(Seq::empty(), len, tail);
    assert(all[4] == type_byte(typ));
    assert(all[5] == 0);
    assert(all.subrange(HEADER_LEN as int, HEADER_LEN + len) =~= payload);
    assert(all.skip(HEADER_LEN + len) =~= rest);
}

/// A frame cut short is waited for, wherever it is cut.
pub proof fn law_partial_frame_waits(typ: FrameType, payload: Seq<u8>, n: int)
    requires
        payload.len() <= MAX_PAYLOAD,
        0 <= n < frame_bytes(typ, payload).len(),
    ensures
        front(frame_bytes(typ, payload).take(n)) is Incomplete,
{
    let all = frame_bytes(typ, payload);
    let cut = all.take(n);
    if n >= HEADER_LEN {
        law_frame_round_trip(typ, payload, Seq::empty());
        assert(all + Seq::<u8>::empty() =~= all);
        assert(le32_at(cut, 0) == le32_at(all, 0));
        assert(cut[4] == all[4]);
    }
}

/// What has been recognized stays: later bytes change neither a frame nor a
/// violation at the front, so it does not matter how a stream is cut into
/// chunks.
pub proof fn law_front_is_stable(bytes: Seq<u8>, more: Seq<u8>)
    ensures
        match front(bytes) {
            Front::Incomplete => true,
            Front::Violation(error) => front(bytes + more) == Front::Violation(error),
            Front::Frame { header, payload, rest } => front(bytes + more) == (Front::Frame {
                header,
                payload,
                rest: rest + more,
            }),
        },
{
    if bytes.len() >= HEADER_LEN {
        let all = bytes + more;
        assert(le32_at(all, 0) == le32_at(bytes, 0));
        assert(all[4] == bytes[4]);
        assert(all[5] == bytes[5]);
        let len = le32_at(bytes, 0);
        if bytes.len() >= HEADER_LEN + len {
            assert(all.subrange(HEADER_LEN as int, HEADER_LEN + len) =~= bytes.subrange(
                HEADER_LEN as int,
                HEADER_LEN + len,
            ));
            assert(all.skip(HEADER_LEN + len) =~= bytes.skip(HEADER_LEN + len) + more);
        }
    }
}

/// A server hello is read back as it was written.
pub proof fn law_server_hello_round_trip(h: ServerHelloView)
    ensures
        server_hello_of(server_hello_bytes(h)) == Some(h),
{
    let all = server_hello_bytes(h);
    let meta = encode_utf8(h.meta_json);
    let bits = bits_of(h.exit_status);
    assert(all =~= Seq::<u8>::empty() + le32(h.version) + all.skip(4));
    lemma_le32(Seq::empty(), h.version, all.skip(4));
    assert(all =~= all.take(4) + le32(h.daemon_pid) + all.skip(8));
    lemma_le32(all.take(4), h.daemon_pid, all.skip(8));
    assert(all =~= all.take(8) + le32(h.shell_pid) + all.skip(12));
    lemma_le32(all.take(8), h.shell_pid, all.skip(12));
    assert(all =~= all.take(13) + le32(bits) + meta);
    lemma_le32(all.take(13), bits, meta);
    assert(all.skip(17) =~= meta);
    encode_utf8_valid_utf8(h.meta_json);
    encode_utf8_decode_utf8(h.meta_json);
}

/// A client hello is read back as it was written.
pub proof fn law_client_hello_round_trip(features: u32)
    ensures
        le32_at(le32(PROTOCOL_VERSION) + le32(features), 0) == PROTOCOL_VERSION,
        le32_at(le32(PROTOCOL_VERSION) + le32(features), 4) == features,
{
    let all = le32(PROTOCOL_VERSION) + le32(features);
    assert(all =~= Seq::<u8>::empty() + le32(PROTOCOL_VERSION) + le32(features));
    lemma_le32(Seq::empty(), PROTOCOL_VERSION, le32(features));
    assert(all =~= le32(PROTOCOL_VERSION) + le32(features) + Seq::<u8>::empty());
    lemma_le32(le32(PROTOCOL_VERSION), features, Seq::empty());
}

/// A resize is read back as it was written.
pub proof fn law_resize_round_trip(rows: u16, cols: u16, xpixel: u16, ypixel: u16)
    ensures
        ({
            let payload = le16(rows) + le16(cols) + le16(xpixel) + le16(ypixel);
            &&& payload.len() == 8
            &&& le16_at(payload, 0) == rows
            &&& le16_at(payload, 2) == cols
            &&& le16_at(payload, 4) == xpixel
            &&& le16_at(payload, 6) == ypixel
        }),
{
    let all = le16(rows) + le16(cols) + le16(xpixel) + le16(ypixel);
    assert(all =~= Seq::<u8>::empty() + le16(rows) + all.skip(2));
    lemma_le16(Seq::empty(), rows, all.skip(2));
    assert(all =~= all.take(2) + le16(cols) + all.skip(4));
    lemma_le16(all.take(2), cols, all.skip(4));
    assert(all =~= all.take(4) + le16(xpixel) + all.skip(6));
    lemma_le16(all.take(4), xpixel, all.skip(6));
    assert(all =~= all.take(6) + le16(ypixel) + Seq::<u8>::empty());
    lemma_le16(all.take(6), ypixel, Seq::empty());
}

} // verus!
