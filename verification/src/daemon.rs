//! The daemon of one pane: what it does with its client's frames, its shell's
//! output and the connections that wait. The sockets, the pty and the signals
//! themselves are somebody else's; they are told what to do here.
use crate::json::{hello_json, write_hello};
use crate::pane::{opt_text, PaneMeta};
use crate::protocol::{
    bits_of, chunked, decode_client_hello, decode_client_hello_features, decode_resize, frame_bytes,
    front, is_type_byte, law_frame_round_trip, le16_at, le32, le32_at, push_u32, server_hello_bytes,
    type_byte, write_chunked, write_frame, Decoder, FrameHeader, FrameType, Front, ServerHello,
    ServerHelloView, DETACH_REPLACED, DETACH_SERVER_SHUTDOWN, DETACH_SLOW_CONSUMER,
    ERROR_VERSION_MISMATCH, FEATURE_NO_REPLAY, MAX_PAYLOAD, PROTOCOL_VERSION, SHELL_EXITED,
    SHELL_RUNNING,
};
use crate::ring::{pushed, replay_of, ReplayRing, RingView};
use crate::text::{number_text, push_number};
use vstd::prelude::*;
use vstd::string::StringExecFns;
use vstd::utf8::encode_utf8;

verus! {

/// Bytes waiting for the pty beyond which the client is not read.
pub const PTY_INBUF_CAP: usize = 1024 * 1024;

/// Bytes waiting for a client beyond which it is too slow.
pub const CLIENT_OUTBUF_CAP: usize = 8 * 1024 * 1024;

/// Connections that may wait for their hello.
pub const MAX_PENDING: usize = 8;

/// Bytes received and not understood beyond which a peer is dropped.
pub const DECODER_BACKLOG_CAP: usize = 262_176;

/// Milliseconds within which a connection must send its hello.
pub const PENDING_HELLO_DEADLINE_MS: u64 = 10_000;

/// Milliseconds between looks at waiting connections.
pub const PENDING_POLL_MS: i32 = 1000;

/// Bytes on their way to a peer.
pub struct Outbox {
    buf: Vec<u8>,
    off: usize,
}

impl View for Outbox {
    type V = Seq<u8>;

    /// The bytes not yet sent.
    closed spec fn view(&self) -> Seq<u8> {
        self.buf@.skip(self.off as int)
    }
}

/// The queue with one more frame. A payload that no frame can carry is left
/// out.
pub open spec fn queued(out: Seq<u8>, typ: FrameType, payload: Seq<u8>) -> Seq<u8> {
    if payload.len() <= MAX_PAYLOAD {
        out + frame_bytes(typ, payload)
    } else {
        out
    }
}

/// Output cut into frames.
pub open spec fn output_frames(bytes: Seq<u8>) -> Seq<u8> {
    chunked(FrameType::Output, bytes)
}

impl Outbox {
    pub closed spec fn wf(&self) -> bool {
        self.off <= self.buf@.len()
    }

    pub fn new() -> (out: Outbox)
        ensures
            out.wf(),
            out@ == Seq::<u8>::empty(),
    {
        let out = Outbox { buf: Vec::new(), off: 0 };
        assert(out@ =~= Seq::<u8>::empty());
        out
    }

    pub fn len(&self) -> (n: usize)
        requires
            self.wf(),
        ensures
            n == self@.len(),
    {
        self.buf.len() - self.off
    }

    /// The bytes not yet sent.
    pub fn bytes(&self) -> (bytes: &[u8])
        requires
            self.wf(),
        ensures
            bytes@ == self@,
    {
        let bytes = vstd::slice::slice_subrange(self.buf.as_slice(), self.off, self.buf.len());
        assert(bytes@ =~= self@);
        bytes
    }

    pub fn queue(&mut self, typ: FrameType, payload: &[u8])
        requires
            old(self).wf(),
        ensures
            final(self).wf(),
            final(self)@ == queued(old(self)@, typ, payload@),
    {
        let _ = write_frame(&mut self.buf, typ, payload);
        assert(self@ =~= queued(old(self)@, typ, payload@));
    }

    /// Queues output, cut into frames.
    pub fn queue_output(&mut self, bytes: &[u8])
        requires
            old(self).wf(),
        ensures
            final(self).wf(),
            final(self)@ == old(self)@ + output_frames(bytes@),
    {
        write_chunked(&mut self.buf, FrameType::Output, bytes);
        assert(self@ =~= old(self)@ + output_frames(bytes@));
    }

    /// Notes that the first `n` bytes were sent.
    pub fn sent(&mut self, n: usize)
        requires
            old(self).wf(),
            n <= old(self)@.len(),
        ensures
            final(self).wf(),
            final(self)@ == old(self)@.skip(n as int),
    {
        assert(self.buf@.len() == self.buf.len());
        self.off = self.off + n;
        assert(self@ =~= old(self)@.skip(n as int));
        if self.off == self.buf.len() {
            self.buf.clear();
            self.off = 0;
            assert(self@ =~= old(self)@.skip(n as int));
        } else if self.off > self.buf.len() / 2 {
            let rest = self.buf.split_off(self.off);
            self.buf = rest;
            self.off = 0;
            assert(self@ =~= old(self)@.skip(n as int));
        }
    }

    /// Takes everything that was not sent.
    pub fn take_all(&mut self) -> (bytes: Vec<u8>)
        requires
            old(self).wf(),
        ensures
            final(self).wf(),
            final(self)@ == Seq::<u8>::empty(),
            bytes@ == old(self)@,
    {
        let bytes = self.buf.split_off(self.off);
        self.buf = Vec::new();
        self.off = 0;
        assert(self@ =~= Seq::<u8>::empty());
        assert(bytes@ =~= old(self)@);
        bytes
    }
}

/// One connection.
pub struct Conn {
    /// By which its socket is found again.
    pub id: u64,
    pub dec: Decoder,
    pub out: Outbox,
    pub hello_done: bool,
    pub features: u32,
    pub accepted_at: u64,
}

/// The mathematical value of a [`Conn`].
pub struct ConnView {
    pub id: u64,
    /// Bytes received and not yet taken.
    pub inbox: Seq<u8>,
    /// Bytes not yet sent.
    pub out: Seq<u8>,
    pub hello_done: bool,
    pub features: u32,
    pub accepted_at: u64,
}

impl View for Conn {
    type V = ConnView;

    open spec fn view(&self) -> ConnView {
        ConnView {
            id: self.id,
            inbox: self.dec@,
            out: self.out@,
            hello_done: self.hello_done,
            features: self.features,
            accepted_at: self.accepted_at,
        }
    }
}

impl Conn {
    pub open spec fn wf(&self) -> bool {
        self.dec.wf() && self.out.wf()
    }
}

/// What the pty and the shell are told.
#[derive(Clone, Copy, Debug, PartialEq, Eq, Structural)]
pub enum Effect {
    SetSize { rows: u16, cols: u16, xpixel: u16, ypixel: u16 },
    /// The shell's group is told that the window changed.
    Repaint,
    /// The shell's group is told to go.
    Hangup,
}

/// What becomes of a connection, or of the daemon.
#[derive(Clone, Copy, Debug, PartialEq, Eq, Structural)]
pub enum Fate {
    Keep,
    Drop,
    /// The daemon removes its files and ends.
    Exit,
}

/// What a run of frames has led to so far.
#[verifier::ext_equal]
pub struct Served {
    /// Bytes for the pty.
    pub inbuf: Seq<u8>,
    /// Bytes for the client.
    pub out: Seq<u8>,
    pub features: u32,
    pub kill: bool,
    pub effects: Seq<Effect>,
    pub got_hello: bool,
    /// Whether the client must be told of an error before it is dropped.
    pub refused: bool,
    pub fate: Fate,
}

/// What frames are served under.
#[derive(Clone, Copy)]
pub struct Serving {
    /// Whether the client has had its hello answered.
    pub hello_done: bool,
    /// Whether the shell was seen to exit.
    pub exited: bool,
    /// Whether the shell is known to be gone.
    pub gone: bool,
}

/// A window dimension that applications can take.
pub open spec fn clamped(v: u16) -> u16 {
    if v < 1 {
        1
    } else if v > 10000 {
        10000
    } else {
        v
    }
}

/// The version of a client hello.
pub open spec fn hello_version(payload: Seq<u8>) -> Option<u32> {
    if payload.len() < 4 {
        None
    } else {
        Some(le32_at(payload, 0))
    }
}

pub open spec fn hello_features(payload: Seq<u8>) -> u32 {
    if payload.len() < 8 {
        0
    } else {
        le32_at(payload, 4)
    }
}

pub open spec fn version_text(version: Option<u32>) -> Seq<char> {
    match version {
        Some(v) => "Some("@ + number_text(v as nat) + ")"@,
        None => "None"@,
    }
}

/// What a client of another version is told.
pub open spec fn mismatch_payload(version: Option<u32>) -> Seq<u8> {
    seq![ERROR_VERSION_MISMATCH] + encode_utf8(
        "server speaks v"@ + number_text(PROTOCOL_VERSION as nat) + ", client sent v"@
            + version_text(version),
    )
}

/// One frame of the client.
pub open spec fn served(s: Served, ctx: Serving, typ: u8, payload: Seq<u8>) -> Served {
    if typ == type_byte(FrameType::ClientHello) {
        if ctx.hello_done {
            s
        } else if hello_version(payload) == Some(PROTOCOL_VERSION) {
            Served { features: hello_features(payload), got_hello: true, ..s }
        } else {
            Served {
                features: hello_features(payload),
                out: queued(s.out, FrameType::Error, mismatch_payload(hello_version(payload))),
                refused: true,
                fate: Fate::Drop,
                ..s
            }
        }
    } else if typ == type_byte(FrameType::Stdin) {
        if ctx.exited {
            s
        } else {
            Served { inbuf: s.inbuf + payload, ..s }
        }
    } else if typ == type_byte(FrameType::Resize) {
        if payload.len() < 8 {
            s
        } else {
            let sized = s.effects.push(
                Effect::SetSize {
                    rows: clamped(le16_at(payload, 0)),
                    cols: clamped(le16_at(payload, 2)),
                    xpixel: le16_at(payload, 4),
                    ypixel: le16_at(payload, 6),
                },
            );
            Served {
                effects: if ctx.gone {
                    sized
                } else {
                    sized.push(Effect::Repaint)
                },
                ..s
            }
        }
    } else if typ == type_byte(FrameType::Kill) {
        if ctx.gone {
            Served { kill: true, fate: Fate::Exit, ..s }
        } else {
            Served { kill: true, effects: s.effects.push(Effect::Hangup), ..s }
        }
    } else if typ == type_byte(FrameType::Detach) {
        Served { fate: Fate::Drop, ..s }
    } else if typ == type_byte(FrameType::Ping) {
        Served { out: queued(s.out, FrameType::Pong, Seq::empty()), ..s }
    } else {
        s
    }
}

/// All complete frames of the client, until one ends it.
pub open spec fn served_all(s: Served, ctx: Serving, bytes: Seq<u8>) -> (Served, Seq<u8>)
    decreases bytes.len(),
{
    if s.fate != Fate::Keep {
        (s, bytes)
    } else {
        match front(bytes) {
            Front::Incomplete => (s, bytes),
            Front::Violation(_) => (Served { fate: Fate::Drop, ..s }, bytes),
            Front::Frame { header, payload, rest } => served_all(
                served(s, ctx, header.typ, payload),
                ctx,
                rest,
            ),
        }
    }
}

/// The daemon.
pub struct Daemon {
    pub meta: PaneMeta,
    pub ring: ReplayRing,
    pub client: Option<Conn>,
    /// Connections that have not sent their hello.
    pub pending: Vec<Conn>,
    /// Bytes for the pty.
    pub pty_inbuf: Vec<u8>,
    pub shell_exit: Option<i32>,
    /// Whether some client asked for the end: the daemon then does not linger.
    pub kill_requested: bool,
}

/// The mathematical value of a [`Daemon`].
#[verifier::ext_equal]
pub struct DaemonView {
    pub meta: PaneMeta,
    pub ring: RingView,
    pub client: Option<ConnView>,
    pub pending: Seq<ConnView>,
    pub inbuf: Seq<u8>,
    pub shell_exit: Option<i32>,
    pub kill_requested: bool,
}

pub open spec fn conns(all: Seq<Conn>) -> Seq<ConnView> {
    Seq::new(all.len(), |i: int| all[i]@)
}

impl View for Daemon {
    type V = DaemonView;

    open spec fn view(&self) -> DaemonView {
        DaemonView {
            meta: self.meta,
            ring: self.ring@,
            client: match self.client {
                Some(c) => Some(c@),
                None => None,
            },
            pending: conns(self.pending@),
            inbuf: self.pty_inbuf@,
            shell_exit: self.shell_exit,
            kill_requested: self.kill_requested,
        }
    }
}

/// Whether the shell is known to be gone.
pub open spec fn shell_gone(d: DaemonView) -> bool {
    d.shell_exit is Some || d.meta.exited_status is Some
}

pub open spec fn exit_code(d: DaemonView) -> i32 {
    match d.shell_exit {
        Some(code) => code,
        None => match d.meta.exited_status {
            Some(code) => code,
            None => 0,
        },
    }
}

/// A 64-bit value in little-endian order.
pub open spec fn le64(v: nat) -> Seq<u8> {
    le32((v % 0x1_0000_0000) as u32) + le32((v / 0x1_0000_0000) as u32)
}

/// The answer to a hello.
pub open spec fn server_hello(d: DaemonView, live_cwd: Option<Seq<char>>) -> ServerHelloView {
    ServerHelloView {
        version: PROTOCOL_VERSION,
        daemon_pid: bits_of(d.meta.daemon_pid),
        shell_pid: bits_of(d.meta.shell_pid),
        shell_state: if shell_gone(d) {
            SHELL_EXITED
        } else {
            SHELL_RUNNING
        },
        exit_status: exit_code(d),
        meta_json: hello_json(
            if live_cwd is Some {
                live_cwd
            } else {
                opt_text(d.meta.cwd)
            },
            d.meta.pane_id@,
            d.meta.program@,
        ),
    }
}

/// The replay a client is sent, none where it asked for none.
pub open spec fn replay_for(d: DaemonView, features: u32) -> Seq<u8> {
    if features & FEATURE_NO_REPLAY != 0 {
        Seq::empty()
    } else {
        replay_of(d.ring)
    }
}

/// A client's queue after its hello was answered.
pub open spec fn welcomed(d: DaemonView, out: Seq<u8>, features: u32, live_cwd: Option<Seq<char>>)
    -> Seq<u8> {
    let replay = replay_for(d, features);
    let hello = queued(out, FrameType::ServerHello, server_hello_bytes(server_hello(d, live_cwd)));
    let begun = queued(hello, FrameType::ReplayBegin, le64(replay.len()));
    let ended = queued(begun + output_frames(replay), FrameType::ReplayEnd, Seq::empty());
    if shell_gone(d) {
        queued(ended, FrameType::Exited, le32(bits_of(exit_code(d))))
    } else {
        ended
    }
}

/// The daemon after its client's hello was answered. A client that finds the
/// shell gone is told, and the daemon has nothing left to do.
pub open spec fn hello_served(d: DaemonView, live_cwd: Option<Seq<char>>) -> DaemonView {
    match d.client {
        Some(c) => DaemonView {
            client: Some(
                ConnView {
                    out: welcomed(d, c.out, c.features, live_cwd),
                    hello_done: c.hello_done || !shell_gone(d),
                    ..c
                },
            ),
            ..d
        },
        None => d,
    }
}

/// What serving a client led to.
pub struct ClientStep {
    /// To be done in this order.
    pub effects: Vec<Effect>,
    /// To be sent before the connection closes or the daemon ends, if that is
    /// possible without waiting long.
    pub last_words: Vec<u8>,
    pub fate: Fate,
}

pub open spec fn serving_of(d: DaemonView, c: ConnView) -> Serving {
    Serving { hello_done: c.hello_done, exited: d.shell_exit is Some, gone: shell_gone(d) }
}

pub open spec fn unserved(d: DaemonView, c: ConnView) -> Served {
    Served {
        inbuf: d.inbuf,
        out: c.out,
        features: c.features,
        kill: d.kill_requested,
        effects: Seq::empty(),
        got_hello: false,
        refused: false,
        fate: Fate::Keep,
    }
}

/// Whether a client is dropped after its frames were served: it closed, broke
/// the protocol, floods without completing a frame, does not read its answers,
/// or hung up while the pty takes nothing.
pub open spec fn to_be_dropped(s: Served, rest: Seq<u8>, closed: bool, hangup: bool) -> bool {
    closed || s.fate == Fate::Drop || rest.len() > DECODER_BACKLOG_CAP || s.out.len()
        > CLIENT_OUTBUF_CAP || (hangup && s.inbuf.len() > PTY_INBUF_CAP)
}

/// The daemon after its client's frames, before a hello among them is answered.
pub open spec fn frames_served(d: DaemonView, c: ConnView) -> DaemonView {
    let (s, rest) = served_all(unserved(d, c), serving_of(d, c), c.inbox);
    DaemonView {
        client: Some(
            ConnView {
                inbox: rest,
                out: if s.refused {
                    Seq::empty()
                } else {
                    s.out
                },
                features: s.features,
                ..c
            },
        ),
        inbuf: s.inbuf,
        kill_requested: s.kill,
        ..d
    }
}

/// Whether `after` and `step` are what serving the client leads to.
pub open spec fn is_client_step(
    d: DaemonView,
    closed: bool,
    hangup: bool,
    live_cwd: Option<Seq<char>>,
    after: DaemonView,
    effects: Seq<Effect>,
    last_words: Seq<u8>,
    fate: Fate,
) -> bool {
    match d.client {
        None => after == d && effects.len() == 0 && last_words.len() == 0 && fate == Fate::Keep,
        Some(c) => {
            let (s, rest) = served_all(unserved(d, c), serving_of(d, c), c.inbox);
            let mid = frames_served(d, c);
            let told = if s.refused {
                s.out
            } else {
                Seq::empty()
            };
            let answered = hello_served(mid, live_cwd);
            &&& effects == s.effects
            &&& if s.fate == Fate::Exit {
                after == mid && fate == Fate::Exit && last_words == told
            } else if s.got_hello && shell_gone(d) {
                after == answered && fate == Fate::Exit && last_words == told
                    + answered.client->0.out
            } else {
                let done = if s.got_hello {
                    answered
                } else {
                    mid
                };
                &&& last_words == told
                &&& if to_be_dropped(s, rest, closed, hangup) {
                    fate == Fate::Drop && after == (DaemonView { client: None, ..done })
                } else {
                    fate == Fate::Keep && after == done
                }
            }
        },
    }
}

/// A signed value as its 32 bits.
fn bits(v: i32) -> (bits: u32)
    ensures
        bits == bits_of(v),
{
    if v >= 0 {
        v as u32
    } else {
        (v as i64 + 0x1_0000_0000) as u32
    }
}

fn clamp_size(v: u16) -> (size: u16)
    ensures
        size == clamped(v),
{
    if v < 1 {
        1
    } else if v > 10000 {
        10000
    } else {
        v
    }
}

fn mismatch(version: Option<u32>) -> (payload: Vec<u8>)
    ensures
        payload@ == mismatch_payload(version),
{
    let mut text: String = "server speaks v".to_owned();
    push_number(&mut text, PROTOCOL_VERSION as u64);
    text.append(", client sent v");
    let ghost intro = text@;
    match version {
        Some(v) => {
            text.append("Some(");
            push_number(&mut text, v as u64);
            text.append(")");
        },
        None => text.append("None"),
    }
    assert(text@ =~= intro + version_text(version));
    let mut payload: Vec<u8> = vec![ERROR_VERSION_MISMATCH];
    payload.extend_from_slice(text.as_str().as_bytes());
    assert(payload@ =~= mismatch_payload(version));
    payload
}

/// A run of frames being served.
struct Server {
    inbuf: Vec<u8>,
    out: Outbox,
    features: u32,
    kill: bool,
    effects: Vec<Effect>,
    got_hello: bool,
    refused: bool,
    fate: Fate,
}

impl View for Server {
    type V = Served;

    closed spec fn view(&self) -> Served {
        Served {
            inbuf: self.inbuf@,
            out: self.out@,
            features: self.features,
            kill: self.kill,
            effects: self.effects@,
            got_hello: self.got_hello,
            refused: self.refused,
            fate: self.fate,
        }
    }
}

impl Server {
    fn serve(&mut self, ctx: Serving, header: FrameHeader, payload: &Vec<u8>)
        requires
            old(self).out.wf(),
            is_type_byte(header.typ),
        ensures
            final(self).out.wf(),
            final(self)@ == served(old(self)@, ctx, header.typ, payload@),
    {
        match FrameType::from_u8(header.typ) {
            Some(FrameType::ClientHello) => {
                if !ctx.hello_done {
                    let version: Option<u32> = decode_client_hello(payload.as_slice());
                    self.features = decode_client_hello_features(payload.as_slice());
                    let known: bool = match version {
                        Some(v) => v == PROTOCOL_VERSION,
                        None => false,
                    };
                    if known {
                        self.got_hello = true;
                    } else {
                        let words = mismatch(version);
                        self.out.queue(FrameType::Error, words.as_slice());
                        self.refused = true;
                        self.fate = Fate::Drop;
                    }
                }
            },
            Some(FrameType::Stdin) => {
                if !ctx.exited {
                    self.inbuf.extend_from_slice(payload.as_slice());
                }
            },
            Some(FrameType::Resize) => {
                if let Some((rows, cols, xpixel, ypixel)) = decode_resize(payload.as_slice()) {
                    self.effects.push(
                        Effect::SetSize {
                            rows: clamp_size(rows),
                            cols: clamp_size(cols),
                            xpixel,
                            ypixel,
                        },
                    );
                    if !ctx.gone {
                        self.effects.push(Effect::Repaint);
                    }
                }
            },
            Some(FrameType::Kill) => {
                self.kill = true;
                if ctx.gone {
                    self.fate = Fate::Exit;
                } else {
                    self.effects.push(Effect::Hangup);
                }
            },
            Some(FrameType::Detach) => {
                self.fate = Fate::Drop;
            },
            Some(FrameType::Ping) => {
                let nothing: Vec<u8> = Vec::new();
                self.out.queue(FrameType::Pong, nothing.as_slice());
            },
            _ => {},
        }
        assert(self@ =~= served(old(self)@, ctx, header.typ, payload@));
    }

    fn serve_all(&mut self, ctx: Serving, dec: &mut Decoder)
        requires
            old(self).out.wf(),
            old(dec).wf(),
        ensures
            final(self).out.wf(),
            final(dec).wf(),
            (final(self)@, final(dec)@) == served_all(old(self)@, ctx, old(dec)@),
    {
        while self.fate == Fate::Keep
            invariant
                self.out.wf(),
                dec.wf(),
                served_all(old(self)@, ctx, old(dec)@) == served_all(self@, ctx, dec@),
            decreases dec@.len(), if self.fate == Fate::Keep { 1int } else { 0int },
        {
            let ghost bytes = dec@;
            match dec.next_frame() {
                Ok(Some((header, payload))) => {
                    self.serve(ctx, header, &payload);
                },
                Ok(None) => {
                    return ;
                },
                Err(_) => {
                    self.fate = Fate::Drop;
                    assert(self@.fate == Fate::Drop);
                },
            }
        }
    }
}

impl Daemon {
    /// What every daemon keeps.
    pub open spec fn wf(&self) -> bool {
        &&& self.ring.wf()
        &&& self.client matches Some(c) ==> c.wf()
        &&& forall|i: int| 0 <= i < self.pending@.len() ==> (#[trigger] self.pending@[i]).wf()
        &&& self.pending@.len() <= MAX_PENDING
    }

    pub fn new(meta: PaneMeta, ring_size: usize) -> (daemon: Daemon)
        ensures
            daemon.wf(),
            daemon@.meta == meta,
            daemon@.client is None,
            daemon@.pending.len() == 0,
            daemon@.inbuf.len() == 0,
            daemon@.shell_exit is None,
            !daemon@.kill_requested,
            daemon@.ring.contents.len() == 0,
            daemon@.ring.baseline == crate::modes::fresh(),
            daemon@.ring.capacity == if ring_size < crate::ring::MIN_RING_BYTES {
                crate::ring::MIN_RING_BYTES as nat
            } else {
                ring_size as nat
            },
    {
        Daemon {
            meta,
            ring: ReplayRing::new(ring_size),
            client: None,
            pending: Vec::new(),
            pty_inbuf: Vec::new(),
            shell_exit: None,
            kill_requested: false,
        }
    }

    fn gone(&self) -> (gone: bool)
        ensures
            gone == shell_gone(self@),
    {
        self.shell_exit.is_some() || self.meta.exited_status.is_some()
    }

    fn code(&self) -> (code: i32)
        ensures
            code == exit_code(self@),
    {
        match self.shell_exit {
            Some(code) => code,
            None => match self.meta.exited_status {
                Some(code) => code,
                None => 0,
            },
        }
    }

    /// Answers the client's hello: who is there, the replay, and the shell's
    /// exit where it is gone.
    fn service_hello(&mut self, live_cwd: &Option<String>)
        requires
            old(self).wf(),
        ensures
            final(self).wf(),
            final(self)@ == hello_served(old(self)@, opt_text(*live_cwd)),
    {
        let ghost before = self@;
        let client = self.client.take();
        if let Some(c) = client {
            let mut c = c;
            let gone: bool = self.gone();
            let code: i32 = self.code();
            let meta_json: String = if live_cwd.is_some() {
                write_hello(live_cwd, self.meta.pane_id.as_str(), self.meta.program.as_str())
            } else {
                write_hello(&self.meta.cwd, self.meta.pane_id.as_str(), self.meta.program.as_str())
            };
            let hello = ServerHello {
                version: PROTOCOL_VERSION,
                daemon_pid: bits(self.meta.daemon_pid),
                shell_pid: bits(self.meta.shell_pid),
                shell_state: if gone {
                    SHELL_EXITED
                } else {
                    SHELL_RUNNING
                },
                exit_status: code,
                meta_json,
            };
            assert(hello@ == server_hello(before, opt_text(*live_cwd)));
            let replay: Vec<u8> = if c.features & FEATURE_NO_REPLAY != 0 {
                Vec::new()
            } else {
                self.ring.replay()
            };
            assert(replay@ =~= replay_for(before, c.features));
            let mut length: Vec<u8> = Vec::new();
            let n: u64 = replay.len() as u64;
            push_u32(&mut length, (n % 0x1_0000_0000) as u32);
            push_u32(&mut length, (n / 0x1_0000_0000) as u32);
            assert(length@ =~= le64(replay@.len()));
            let nothing: Vec<u8> = Vec::new();
            let encoded = hello.encode();
            c.out.queue(FrameType::ServerHello, encoded.as_slice());
            c.out.queue(FrameType::ReplayBegin, length.as_slice());
            c.out.queue_output(replay.as_slice());
            c.out.queue(FrameType::ReplayEnd, nothing.as_slice());
            if gone {
                let mut status: Vec<u8> = Vec::new();
                push_u32(&mut status, bits(code));
                assert(status@ =~= le32(bits_of(code)));
                c.out.queue(FrameType::Exited, status.as_slice());
            } else {
                c.hello_done = true;
            }
            self.client = Some(c);
        }
        assert(self@ =~= hello_served(before, opt_text(*live_cwd)));
    }

    /// Whether the client may be read: not while the pty takes nothing.
    pub fn may_read_client(&self) -> (may: bool)
        ensures
            may == (self@.inbuf.len() <= PTY_INBUF_CAP),
    {
        self.pty_inbuf.len() <= PTY_INBUF_CAP
    }

    /// Takes bytes from the client. Tells whether more may be read before its
    /// frames are served.
    pub fn feed_client(&mut self, data: &[u8]) -> (more: bool)
        requires
            old(self).wf(),
        ensures
            final(self).wf(),
            match old(self)@.client {
                Some(c) => {
                    let inbox = c.inbox + data@;
                    &&& final(self)@ == (DaemonView {
                        client: Some(ConnView { inbox, ..c }),
                        ..old(self)@
                    })
                    &&& more == (inbox.len() <= DECODER_BACKLOG_CAP)
                },
                None => final(self)@ == old(self)@ && !more,
            },
    {
        let client = self.client.take();
        match client {
            Some(c) => {
                let mut c = c;
                c.dec.feed(data);
                let more: bool = c.dec.buffered() <= DECODER_BACKLOG_CAP;
                self.client = Some(c);
                assert(self@ =~= DaemonView { client: self@.client, ..old(self)@ });
                more
            },
            None => {
                assert(self@ =~= old(self)@);
                false
            },
        }
    }

    /// Serves the client's complete frames. `closed` tells that its stream
    /// ended, `hangup` that its socket reported one. `live_cwd` is the shell's
    /// current directory.
    pub fn serve_client(&mut self, closed: bool, hangup: bool, live_cwd: &Option<String>) -> (step:
        ClientStep)
        requires
            old(self).wf(),
        ensures
            final(self).wf(),
            is_client_step(
                old(self)@,
                closed,
                hangup,
                opt_text(*live_cwd),
                final(self)@,
                step.effects@,
                step.last_words@,
                step.fate,
            ),
    {
        let ghost before = self@;
        let client = self.client.take();
        let mut conn = match client {
            Some(c) => c,
            None => {
                assert(self@ =~= before);
                return ClientStep {
                    effects: Vec::new(),
                    last_words: Vec::new(),
                    fate: Fate::Keep,
                };
            },
        };
        let ghost c = conn@;
        let ctx = Serving {
            hello_done: conn.hello_done,
            exited: self.shell_exit.is_some(),
            gone: self.gone(),
        };
        let mut inbuf: Vec<u8> = Vec::new();
        std::mem::swap(&mut inbuf, &mut self.pty_inbuf);
        let mut server = Server {
            inbuf,
            out: conn.out,
            features: conn.features,
            kill: self.kill_requested,
            effects: Vec::new(),
            got_hello: false,
            refused: false,
            fate: Fate::Keep,
        };
        assert(server@ =~= unserved(before, c));
        let mut dec = conn.dec;
        server.serve_all(ctx, &mut dec);
        let ghost s = server@;
        let ghost rest = dec@;
        let backlog: usize = dec.buffered();
        let Server { inbuf, mut out, features, kill, effects, got_hello, refused, fate } = server;
        let waiting: usize = out.len();
        let mut last_words: Vec<u8> = if refused {
            out.take_all()
        } else {
            Vec::new()
        };
        let ghost told = last_words@;
        let stuck: bool = hangup && inbuf.len() > PTY_INBUF_CAP;
        self.pty_inbuf = inbuf;
        self.kill_requested = kill;
        self.client = Some(
            Conn {
                id: conn.id,
                dec,
                out,
                hello_done: conn.hello_done,
                features,
                accepted_at: conn.accepted_at,
            },
        );
        assert(self@ =~= frames_served(before, c));
        assert(told =~= if s.refused {
            s.out
        } else {
            Seq::empty()
        });
        if fate == Fate::Exit {
            return ClientStep { effects, last_words, fate: Fate::Exit };
        }
        if got_hello {
            self.service_hello(live_cwd);
            if self.gone() {
                let ghost answered = self@;
                if let Some(c) = &self.client {
                    last_words.extend_from_slice(c.out.bytes());
                    assert(last_words@ =~= told + answered.client->0.out);
                }
                return ClientStep { effects, last_words, fate: Fate::Exit };
            }
        }
        if closed || fate == Fate::Drop || backlog > DECODER_BACKLOG_CAP || waiting
            > CLIENT_OUTBUF_CAP || stuck {
            let ghost done = self@;
            self.client = None;
            assert(self@ =~= (DaemonView { client: None, ..done }));
            ClientStep { effects, last_words, fate: Fate::Drop }
        } else {
            ClientStep { effects, last_words, fate: Fate::Keep }
        }
    }
}

/// The daemon after output of the shell: it is kept, and sent to a client whose
/// hello was answered. One that does not keep up is told and let go.
pub open spec fn output_taken(d: DaemonView, data: Seq<u8>) -> DaemonView {
    DaemonView {
        ring: pushed(d.ring, data),
        client: match d.client {
            Some(c) => if !c.hello_done {
                Some(c)
            } else if (c.out + output_frames(data)).len() > CLIENT_OUTBUF_CAP {
                None
            } else {
                Some(ConnView { out: c.out + output_frames(data), ..c })
            },
            None => None,
        },
        ..d
    }
}

/// What a client that does not keep up is sent at last.
pub open spec fn slow_words(d: DaemonView, data: Seq<u8>) -> Seq<u8> {
    match d.client {
        Some(c) => if c.hello_done && (c.out + output_frames(data)).len() > CLIENT_OUTBUF_CAP {
            queued(
                c.out + output_frames(data),
                FrameType::Detached,
                seq![DETACH_SLOW_CONSUMER],
            )
        } else {
            Seq::empty()
        },
        None => Seq::empty(),
    }
}

/// Where a new connection went.
#[derive(Clone, Copy, Debug, PartialEq, Eq, Structural)]
pub enum Accepted {
    Client,
    Pending,
    /// Too many wait already.
    Refused,
}

/// A connection that has sent nothing.
pub open spec fn fresh_conn(id: u64, now: u64) -> ConnView {
    ConnView {
        id,
        inbox: Seq::empty(),
        out: Seq::empty(),
        hello_done: false,
        features: 0,
        accepted_at: now,
    }
}

/// What the bytes of a waiting connection hold.
pub struct HelloScan {
    /// The features of the first valid hello.
    pub features: Option<u32>,
    pub rest: Seq<u8>,
    /// Whether the protocol was broken before any.
    pub broken: bool,
}

pub open spec fn hello_scan(bytes: Seq<u8>) -> HelloScan
    decreases bytes.len(),
{
    match front(bytes) {
        Front::Incomplete => HelloScan { features: None, rest: bytes, broken: false },
        Front::Violation(_) => HelloScan { features: None, rest: bytes, broken: true },
        Front::Frame { header, payload, rest } => if header.typ == type_byte(
            FrameType::ClientHello,
        ) && hello_version(payload) == Some(PROTOCOL_VERSION) {
            HelloScan { features: Some(hello_features(payload)), rest, broken: false }
        } else {
            hello_scan(rest)
        },
    }
}

/// The waiting connections, sorted out.
#[verifier::ext_equal]
pub struct Sorting {
    pub kept: Seq<ConnView>,
    pub dropped: Seq<u64>,
    pub promoted: Option<ConnView>,
}

/// One waiting connection: it is dropped when its time is up, when it closed or
/// broke the protocol, or when another one sent its hello first.
pub open spec fn sorted_one(
    acc: Sorting,
    c: ConnView,
    ready: bool,
    closed: bool,
    now: u64,
) -> Sorting {
    if now - c.accepted_at >= PENDING_HELLO_DEADLINE_MS {
        Sorting { dropped: acc.dropped.push(c.id), ..acc }
    } else if !ready {
        Sorting { kept: acc.kept.push(c), ..acc }
    } else {
        let scan = hello_scan(c.inbox);
        match scan.features {
            Some(features) => if acc.promoted is None {
                Sorting {
                    promoted: Some(ConnView { inbox: scan.rest, features, ..c }),
                    ..acc
                }
            } else {
                Sorting { dropped: acc.dropped.push(c.id), ..acc }
            },
            None => if closed || scan.broken {
                Sorting { dropped: acc.dropped.push(c.id), ..acc }
            } else {
                Sorting { kept: acc.kept.push(ConnView { inbox: scan.rest, ..c }), ..acc }
            },
        }
    }
}

pub open spec fn sorted_pending(
    pending: Seq<ConnView>,
    ready: Seq<bool>,
    closed: Seq<bool>,
    now: u64,
) -> Sorting
    decreases pending.len(),
{
    if pending.len() == 0 {
        Sorting { kept: Seq::empty(), dropped: Seq::empty(), promoted: None }
    } else {
        sorted_one(
            sorted_pending(pending.drop_last(), ready.drop_last(), closed.drop_last(), now),
            pending.last(),
            ready.last(),
            closed.last(),
            now,
        )
    }
}

/// The daemon after the waiting connections were sorted out: a promoted one
/// takes the client's place and has its hello answered.
pub open spec fn pending_settled(d: DaemonView, sorting: Sorting, live_cwd: Option<Seq<char>>)
    -> DaemonView {
    let sorted = DaemonView { pending: sorting.kept, ..d };
    match sorting.promoted {
        Some(c) => hello_served(DaemonView { client: Some(c), ..sorted }, live_cwd),
        None => sorted,
    }
}

/// What sorting out the waiting connections led to.
pub struct PendingStep {
    /// Connections to close.
    pub dropped: Vec<u64>,
    /// The former client, to be closed after it was sent these bytes.
    pub evicted: Option<(u64, Vec<u8>)>,
    pub promoted: Option<u64>,
    /// Whether the daemon ends once its client was sent what it is owed.
    pub exit: bool,
}

/// What the event loop waits for.
#[derive(Clone, Copy, Debug, PartialEq, Eq, Structural)]
pub struct Interests {
    pub pty_read: bool,
    pub pty_write: bool,
    pub client_read: bool,
    pub client_write: bool,
    /// Milliseconds, negative for ever.
    pub timeout_ms: i32,
}

/// What the event loop waits for: a client is not read while the pty takes
/// nothing.
pub open spec fn interests_of(d: DaemonView) -> Interests {
    Interests {
        pty_read: d.shell_exit is None,
        pty_write: d.shell_exit is None && d.inbuf.len() > 0,
        client_read: d.client is Some && d.inbuf.len() <= PTY_INBUF_CAP,
        client_write: d.client matches Some(c) && c.out.len() > 0,
        timeout_ms: if d.pending.len() == 0 {
            -1i32
        } else {
            PENDING_POLL_MS
        },
    }
}

/// Where a new connection goes.
pub open spec fn place_of(d: DaemonView) -> Accepted {
    if d.client is None {
        Accepted::Client
    } else if d.pending.len() < MAX_PENDING {
        Accepted::Pending
    } else {
        Accepted::Refused
    }
}

/// The daemon with a new connection.
pub open spec fn taken_in(d: DaemonView, id: u64, now: u64) -> DaemonView {
    match place_of(d) {
        Accepted::Client => DaemonView { client: Some(fresh_conn(id, now)), ..d },
        Accepted::Pending => DaemonView { pending: d.pending.push(fresh_conn(id, now)), ..d },
        Accepted::Refused => d,
    }
}

/// The daemon after a child ended.
pub open spec fn exit_noted(d: DaemonView, pid: i32, status: i32) -> DaemonView {
    if pid == d.meta.shell_pid {
        DaemonView { shell_exit: Some(code_of_status(status)), ..d }
    } else {
        d
    }
}

/// Whether the daemon ends with its shell: where a client is there to be told, or
/// one asked for the end.
pub open spec fn ends_with_shell(d: DaemonView) -> bool {
    d.client is Some || d.kill_requested
}

/// What a client is told of the end of the shell.
pub open spec fn exit_words(d: DaemonView) -> Seq<u8> {
    match d.client {
        Some(c) => queued(c.out, FrameType::Exited, le32(bits_of(d.shell_exit->0))),
        None => Seq::empty(),
    }
}

/// The daemon once the end of its shell was settled: one that lingers records it.
pub open spec fn exit_settled(d: DaemonView, now: u64) -> DaemonView {
    DaemonView {
        inbuf: Seq::empty(),
        client: match d.client {
            Some(c) => Some(ConnView { out: Seq::empty(), ..c }),
            None => None,
        },
        meta: if ends_with_shell(d) {
            d.meta
        } else {
            PaneMeta { exited_status: d.shell_exit, exited_at: Some(now), ..d.meta }
        },
        ..d
    }
}

/// What a client is told whose place another one takes.
pub open spec fn replaced_words(former: ConnView) -> Seq<u8> {
    queued(former.out, FrameType::Detached, seq![DETACH_REPLACED])
}

/// What a client is told when the daemon ends.
pub open spec fn shutdown_words(d: DaemonView) -> Seq<u8> {
    match d.client {
        Some(c) => queued(c.out, FrameType::Detached, seq![DETACH_SERVER_SHUTDOWN]),
        None => Seq::empty(),
    }
}

/// What the end of the shell led to.
pub struct ExitStep {
    /// To be sent to the client.
    pub last_words: Vec<u8>,
    pub exit: bool,
}

/// The exit code that a wait status stands for: the shell's own, or 128 and the
/// signal that ended it.
pub open spec fn code_of_status(status: i32) -> i32 {
    if status & 0x7F == 0 {
        (status >> 8) & 0xFF
    } else if (status & 0x7F) < 0x7F {
        (128 + (status & 0x7F)) as i32
    } else {
        -1i32
    }
}

/// `libc::WIFEXITED`: the low seven bits of the status are clear.
pub assume_specification[ libc::WIFEXITED ](status: libc::c_int) -> (exited: bool)
    ensures
        exited == (status & 0x7F == 0),
;

/// `libc::WEXITSTATUS`: the second byte of the status.
pub assume_specification[ libc::WEXITSTATUS ](status: libc::c_int) -> (code: libc::c_int)
    ensures
        code == (status >> 8) & 0xFF,
;

/// `libc::WIFSIGNALED`: the low seven bits are neither clear nor all set, which
/// marks a stopped process.
pub assume_specification[ libc::WIFSIGNALED ](status: libc::c_int) -> (signaled: bool)
    ensures
        signaled == (status & 0x7F != 0 && status & 0x7F != 0x7F),
;

/// `libc::WTERMSIG`: the low seven bits of the status.
pub assume_specification[ libc::WTERMSIG ](status: libc::c_int) -> (signal: libc::c_int)
    ensures
        signal == status & 0x7F,
;

/// The exit code that a wait status stands for.
pub fn decode_wait_status(status: i32) -> (code: i32)
    ensures
        code == code_of_status(status),
{
    assert(0 <= status & 0x7F <= 0x7F) by (bit_vector);
    if libc::WIFEXITED(status) {
        libc::WEXITSTATUS(status)
    } else if libc::WIFSIGNALED(status) {
        128 + libc::WTERMSIG(status)
    } else {
        -1
    }
}

impl Daemon {
    /// Takes output of the shell. Gives what a client that was let go is sent
    /// at last, nothing where none was.
    pub fn take_output(&mut self, data: &[u8]) -> (last_words: Vec<u8>)
        requires
            old(self).wf(),
        ensures
            final(self).wf(),
            final(self)@ == output_taken(old(self)@, data@),
            last_words@ == slow_words(old(self)@, data@),
    {
        let ghost before = self@;
        self.ring.push(data);
        let client = self.client.take();
        let mut last_words: Vec<u8> = Vec::new();
        if let Some(c) = client {
            let mut c = c;
            if c.hello_done {
                c.out.queue_output(data);
                if c.out.len() > CLIENT_OUTBUF_CAP {
                    let reason: Vec<u8> = vec![DETACH_SLOW_CONSUMER];
                    assert(reason@ =~= seq![DETACH_SLOW_CONSUMER]);
                    c.out.queue(FrameType::Detached, reason.as_slice());
                    last_words = c.out.take_all();
                } else {
                    self.client = Some(c);
                }
            } else {
                self.client = Some(c);
            }
        }
        assert(self@ =~= output_taken(before, data@));
        assert(last_words@ =~= slow_words(before, data@));
        last_words
    }

    /// What the event loop waits for. A client is not read while the pty takes
    /// nothing; waiting connections are looked at regularly.
    pub fn interests(&self) -> (wanted: Interests)
        requires
            self.wf(),
        ensures
            wanted == interests_of(self@),
    {
        Interests {
            pty_read: self.shell_exit.is_none(),
            pty_write: self.shell_exit.is_none() && self.pty_inbuf.len() > 0,
            client_read: self.client.is_some() && self.pty_inbuf.len() <= PTY_INBUF_CAP,
            client_write: match &self.client {
                Some(c) => c.out.len() > 0,
                None => false,
            },
            timeout_ms: if self.pending.len() == 0 {
                -1
            } else {
                PENDING_POLL_MS
            },
        }
    }

    /// Notes that the pty took the first `n` waiting bytes.
    pub fn pty_took(&mut self, n: usize)
        requires
            old(self).wf(),
            n <= old(self)@.inbuf.len(),
        ensures
            final(self).wf(),
            final(self)@ == (DaemonView { inbuf: old(self)@.inbuf.skip(n as int), ..old(self)@ }),
    {
        let rest = self.pty_inbuf.split_off(n);
        assert(rest@ =~= old(self)@.inbuf.skip(n as int));
        self.pty_inbuf = rest;
        assert(self@ =~= (DaemonView { inbuf: rest@, ..old(self)@ }));
    }

    /// Notes that the client took the first `n` waiting bytes.
    pub fn client_took(&mut self, n: usize)
        requires
            old(self).wf(),
            old(self)@.client matches Some(c) ==> n <= c.out.len(),
        ensures
            final(self).wf(),
            final(self)@ == (DaemonView {
                client: match old(self)@.client {
                    Some(c) => Some(ConnView { out: c.out.skip(n as int), ..c }),
                    None => None,
                },
                ..old(self)@
            }),
    {
        let ghost before = self@;
        let client = self.client.take();
        if let Some(c) = client {
            let mut c = c;
            c.out.sent(n);
            self.client = Some(c);
        }
        assert(self@ =~= (DaemonView { client: self@.client, ..before }));
    }

    /// Notes a reaped child. Tells whether it was the shell; its remaining
    /// output is then taken before the exit is settled.
    pub fn note_exit(&mut self, pid: i32, status: i32) -> (shell: bool)
        requires
            old(self).wf(),
        ensures
            final(self).wf(),
            shell == (pid == old(self)@.meta.shell_pid),
            final(self)@ == exit_noted(old(self)@, pid, status),
    {
        if pid == self.meta.shell_pid {
            self.shell_exit = Some(decode_wait_status(status));
            assert(self@ =~= (DaemonView { shell_exit: self@.shell_exit, ..old(self)@ }));
            true
        } else {
            false
        }
    }

    /// Settles the exit of the shell: an attached client is told and the daemon
    /// ends, as it does after a kill. Otherwise it lingers with its output, and
    /// the exit and its time are recorded.
    pub fn settle_exit(&mut self, now: u64) -> (step: ExitStep)
        requires
            old(self).wf(),
            old(self)@.shell_exit is Some,
        ensures
            final(self).wf(),
            step.exit == ends_with_shell(old(self)@),
            step.last_words@ == exit_words(old(self)@),
            final(self)@ == exit_settled(old(self)@, now),
    {
        let ghost before = self@;
        self.pty_inbuf = Vec::new();
        let code: i32 = match self.shell_exit {
            Some(code) => code,
            None => 0,
        };
        let client = self.client.take();
        if let Some(c) = client {
            let mut c = c;
            let mut status: Vec<u8> = Vec::new();
            push_u32(&mut status, bits(code));
            assert(status@ =~= le32(bits_of(code)));
            c.out.queue(FrameType::Exited, status.as_slice());
            let last_words = c.out.take_all();
            self.client = Some(c);
            assert(self@ =~= (DaemonView {
                inbuf: Seq::empty(),
                client: self@.client,
                ..before
            }));
            return ExitStep { last_words, exit: true };
        }
        if self.kill_requested {
            assert(self@ =~= (DaemonView { inbuf: Seq::empty(), ..before }));
            return ExitStep { last_words: Vec::new(), exit: true };
        }
        self.meta.exited_status = Some(code);
        self.meta.exited_at = Some(now);
        assert(self@ =~= (DaemonView { inbuf: Seq::empty(), meta: self@.meta, ..before }));
        ExitStep { last_words: Vec::new(), exit: false }
    }

    /// What the client is sent when the daemon is told to end.
    pub fn terminate(&mut self) -> (last_words: Vec<u8>)
        requires
            old(self).wf(),
        ensures
            final(self).wf(),
            last_words@ == shutdown_words(old(self)@),
            final(self)@ == (DaemonView { client: None, ..old(self)@ }),
    {
        let ghost before = self@;
        let client = self.client.take();
        let mut last_words: Vec<u8> = Vec::new();
        if let Some(c) = client {
            let mut c = c;
            let reason: Vec<u8> = vec![DETACH_SERVER_SHUTDOWN];
            assert(reason@ =~= seq![DETACH_SERVER_SHUTDOWN]);
            c.out.queue(FrameType::Detached, reason.as_slice());
            last_words = c.out.take_all();
        }
        assert(self@ =~= (DaemonView { client: None, ..before }));
        last_words
    }

    /// Takes a new connection: as the client where there is none, else it waits
    /// for its hello, so that a mere probe does not replace a live client.
    pub fn accept(&mut self, id: u64, now: u64) -> (accepted: Accepted)
        requires
            old(self).wf(),
        ensures
            final(self).wf(),
            accepted == place_of(old(self)@),
            final(self)@ == taken_in(old(self)@, id, now),
    {
        let ghost before = self@;
        let conn = Conn {
            id,
            dec: Decoder::new(),
            out: Outbox::new(),
            hello_done: false,
            features: 0,
            accepted_at: now,
        };
        assert(conn@ == fresh_conn(id, now));
        if self.client.is_none() {
            self.client = Some(conn);
            assert(self@ =~= (DaemonView { client: Some(fresh_conn(id, now)), ..before }));
            Accepted::Client
        } else if self.pending.len() < MAX_PENDING {
            self.pending.push(conn);
            assert(conns(self.pending@) =~= before.pending.push(fresh_conn(id, now)));
            assert(self@ =~= (DaemonView { pending: self@.pending, ..before }));
            Accepted::Pending
        } else {
            Accepted::Refused
        }
    }

    /// Takes bytes from a waiting connection. Tells whether more may be read;
    /// one that sends so much without a hello counts as closed.
    pub fn feed_pending(&mut self, i: usize, data: &[u8]) -> (more: bool)
        requires
            old(self).wf(),
            i < old(self)@.pending.len(),
        ensures
            final(self).wf(),
            ({
                let c = old(self)@.pending[i as int];
                let inbox = c.inbox + data@;
                &&& more == (inbox.len() <= DECODER_BACKLOG_CAP)
                &&& final(self)@ == (DaemonView {
                    pending: old(self)@.pending.update(i as int, ConnView { inbox, ..c }),
                    ..old(self)@
                })
            }),
    {
        let ghost before = self@;
        let mut c = self.pending.remove(i);
        let ghost without = self.pending@;
        c.dec.feed(data);
        let more: bool = c.dec.buffered() <= DECODER_BACKLOG_CAP;
        let ghost fed = c@;
        self.pending.insert(i, c);
        proof {
            assert(conns(self.pending@) =~= before.pending.update(i as int, fed));
            assert forall|k: int| 0 <= k < self.pending@.len() implies (
            #[trigger] self.pending@[k]).wf() by {
                if k < i {
                    assert(self.pending@[k] == old(self).pending@[k]);
                } else if k > i {
                    assert(self.pending@[k] == old(self).pending@[k]);
                }
            }
            assert(self@ =~= (DaemonView { pending: self@.pending, ..before }));
        }
        more
    }

    /// Sorts out the waiting connections. `ready` tells which of them were
    /// read, `closed` which of those ended or flooded.
    pub fn settle_pending(
        &mut self,
        ready: &Vec<bool>,
        closed: &Vec<bool>,
        now: u64,
        live_cwd: &Option<String>,
    ) -> (step: PendingStep)
        requires
            old(self).wf(),
            ready@.len() == old(self)@.pending.len(),
            closed@.len() == old(self)@.pending.len(),
        ensures
            final(self).wf(),
            ({
                let before = old(self)@;
                let sorting = sorted_pending(before.pending, ready@, closed@, now);
                &&& final(self)@ == pending_settled(before, sorting, opt_text(*live_cwd))
                &&& step.dropped@ == sorting.dropped
                &&& match sorting.promoted {
                    Some(c) => {
                        &&& step.promoted == Some(c.id)
                        &&& step.exit == shell_gone(before)
                        &&& match before.client {
                            Some(former) => {
                                &&& step.evicted matches Some(e)
                                &&& e.0 == former.id
                                &&& e.1@ == replaced_words(former)
                            },
                            None => step.evicted is None,
                        }
                    },
                    None => step.promoted is None && step.evicted is None && !step.exit,
                }
            }),
    {
        let ghost before = self@;
        let mut waiting: Vec<Conn> = Vec::new();
        std::mem::swap(&mut waiting, &mut self.pending);
        let ghost all = waiting@;
        let mut kept: Vec<Conn> = Vec::new();
        let mut dropped: Vec<u64> = Vec::new();
        let mut promoted: Option<Conn> = None;
        let mut i: usize = 0;
        proof {
            assert(before.pending.take(0) =~= Seq::<ConnView>::empty());
        }
        let ghost mut acc = sorted_pending(
            before.pending.take(0),
            ready@.take(0),
            closed@.take(0),
            now,
        );
        assert(conns(kept@) =~= Seq::<ConnView>::empty());
        assert(all.skip(0) =~= all);
        while waiting.len() > 0
            invariant
                i + waiting@.len() == all.len(),
                all.len() == before.pending.len(),
                before.pending == conns(all),
                ready@.len() == all.len(),
                closed@.len() == all.len(),
                all.len() <= MAX_PENDING,
                waiting@ == all.skip(i as int),
                forall|k: int| 0 <= k < all.len() ==> (#[trigger] all[k]).wf(),
                acc == sorted_pending(
                    before.pending.take(i as int),
                    ready@.take(i as int),
                    closed@.take(i as int),
                    now,
                ),
                conns(kept@) == acc.kept,
                kept@.len() <= i,
                dropped@ == acc.dropped,
                match promoted {
                    Some(c) => acc.promoted == Some(c@) && c.wf(),
                    None => acc.promoted is None,
                },
                forall|k: int| 0 <= k < kept@.len() ==> (#[trigger] kept@[k]).wf(),
            decreases waiting@.len(),
        {
            let mut c = waiting.remove(0);
            let ghost given = c@;
            proof {
                assert(c == all[i as int]);
                assert(waiting@ =~= all.skip(i as int + 1));
                let part = before.pending.take(i as int + 1);
                assert(part.drop_last() =~= before.pending.take(i as int));
                assert(part.last() == given);
                assert(ready@.take(i as int + 1).drop_last() =~= ready@.take(i as int));
                assert(closed@.take(i as int + 1).drop_last() =~= closed@.take(i as int));
            }
            let ghost kept_before = conns(kept@);
            if now >= c.accepted_at && now - c.accepted_at >= PENDING_HELLO_DEADLINE_MS {
                dropped.push(c.id);
            } else if !ready[i] {
                kept.push(c);
                assert(conns(kept@) =~= kept_before.push(given));
            } else {
                let (features, broken) = scan_hello(&mut c.dec);
                match features {
                    Some(f) => {
                        if promoted.is_none() {
                            c.features = f;
                            promoted = Some(c);
                        } else {
                            dropped.push(c.id);
                        }
                    },
                    None => {
                        if closed[i] || broken {
                            dropped.push(c.id);
                        } else {
                            let ghost scanned = c@;
                            kept.push(c);
                            assert(conns(kept@) =~= kept_before.push(scanned));
                        }
                    },
                }
            }
            proof {
                acc = sorted_one(acc, given, ready@[i as int], closed@[i as int], now);
            }
            i = i + 1;
        }
        proof {
            assert(before.pending.take(i as int) =~= before.pending);
            assert(ready@.take(i as int) =~= ready@);
            assert(closed@.take(i as int) =~= closed@);
        }
        self.pending = kept;
        match promoted {
            Some(c) => {
                let id: u64 = c.id;
                let former = self.client.take();
                let evicted: Option<(u64, Vec<u8>)> = match former {
                    Some(f) => {
                        let mut f = f;
                        let reason: Vec<u8> = vec![DETACH_REPLACED];
                        assert(reason@ =~= seq![DETACH_REPLACED]);
                        f.out.queue(FrameType::Detached, reason.as_slice());
                        Some((f.id, f.out.take_all()))
                    },
                    None => None,
                };
                let ghost promoted_view = c@;
                self.client = Some(c);
                assert(self@ =~= (DaemonView {
                    client: Some(promoted_view),
                    pending: acc.kept,
                    ..before
                }));
                self.service_hello(live_cwd);
                let exit: bool = self.gone();
                PendingStep { dropped, evicted, promoted: Some(id), exit }
            },
            None => {
                assert(self@ =~= (DaemonView { pending: acc.kept, ..before }));
                PendingStep { dropped, evicted: None, promoted: None, exit: false }
            },
        }
    }
}

/// Looks for a valid hello among complete frames.
fn scan_hello(dec: &mut Decoder) -> (found: (Option<u32>, bool))
    requires
        old(dec).wf(),
    ensures
        final(dec).wf(),
        found.0 == hello_scan(old(dec)@).features,
        found.1 == hello_scan(old(dec)@).broken,
        final(dec)@ == hello_scan(old(dec)@).rest,
{
    loop
        invariant
            dec.wf(),
            hello_scan(old(dec)@) == hello_scan(dec@),
        decreases dec@.len(),
    {
        match dec.next_frame() {
            Ok(Some((header, payload))) => {
                if header.typ == FrameType::ClientHello.to_u8() {
                    if let Some(v) = decode_client_hello(payload.as_slice()) {
                        if v == PROTOCOL_VERSION {
                            return (Some(decode_client_hello_features(payload.as_slice())), false);
                        }
                    }
                }
            },
            Ok(None) => {
                return (None, false);
            },
            Err(_) => {
                return (None, true);
            },
        }
    }
}

/// The output in a byte stream: what the client's terminal is shown of it.
pub open spec fn shown(stream: Seq<u8>) -> Seq<u8>
    decreases stream.len(),
{
    match front(stream) {
        Front::Frame { header, payload, rest } => if header.typ == type_byte(FrameType::Output) {
            payload + shown(rest)
        } else {
            shown(rest)
        },
        _ => Seq::empty(),
    }
}

/// Output arrives as it was written, however it was cut into frames.
pub proof fn law_output_arrives(bytes: Seq<u8>, rest: Seq<u8>)
    ensures
        shown(output_frames(bytes) + rest) == bytes + shown(rest),
    decreases bytes.len(),
{
    if bytes.len() == 0 {
        assert(output_frames(bytes) + rest =~= rest);
        assert(bytes + shown(rest) =~= shown(rest));
    } else if bytes.len() <= MAX_PAYLOAD {
        law_frame_round_trip(FrameType::Output, bytes, rest);
    } else {
        let head = bytes.take(MAX_PAYLOAD as int);
        let tail = bytes.skip(MAX_PAYLOAD as int);
        law_output_arrives(tail, rest);
        law_frame_round_trip(FrameType::Output, head, output_frames(tail) + rest);
        assert(output_frames(bytes) + rest =~= frame_bytes(FrameType::Output, head) + (
        output_frames(tail) + rest));
        assert(head + (tail + shown(rest)) =~= bytes + shown(rest));
    }
}

/// Frames other than output show nothing.
pub(crate) proof fn lemma_control_shows_nothing(typ: FrameType, payload: Seq<u8>, rest: Seq<u8>)
    requires
        typ != FrameType::Output,
    ensures
        shown(queued(Seq::empty(), typ, payload) + rest) == shown(rest),
{
    if payload.len() <= MAX_PAYLOAD {
        law_frame_round_trip(typ, payload, rest);
        assert(Seq::<u8>::empty() + frame_bytes(typ, payload) =~= frame_bytes(typ, payload));
    } else {
        assert(Seq::<u8>::empty() + rest =~= rest);
    }
}

pub(crate) proof fn lemma_queued_appends(out: Seq<u8>, typ: FrameType, payload: Seq<u8>)
    ensures
        queued(out, typ, payload) == out + queued(Seq::empty(), typ, payload),
{
    assert(queued(out, typ, payload) =~= out + queued(Seq::empty(), typ, payload));
}

/// A client that attaches to a running shell is shown the replay, and after it
/// everything the shell writes from then on, with nothing lost in between.
pub proof fn law_attach_then_output(
    d: DaemonView,
    c: ConnView,
    live_cwd: Option<Seq<char>>,
    data: Seq<u8>,
)
    requires
        d.client == Some(c),
        c.out.len() == 0,
        !shell_gone(d),
    ensures
        ({
            let attached = hello_served(d, live_cwd);
            let after = output_taken(attached, data);
            &&& after.ring == pushed(d.ring, data)
            &&& after.client matches Some(now) ==> shown(now.out) == replay_for(d, c.features)
                + data
        }),
{
    let replay = replay_for(d, c.features);
    let hello_payload = server_hello_bytes(server_hello(d, live_cwd));
    let none = Seq::<u8>::empty();
    let f1 = queued(none, FrameType::ServerHello, hello_payload);
    let f2 = queued(none, FrameType::ReplayBegin, le64(replay.len()));
    let f3 = output_frames(replay);
    let f4 = queued(none, FrameType::ReplayEnd, none);
    let f5 = output_frames(data);
    let out = welcomed(d, c.out, c.features, live_cwd);
    assert(c.out =~= none);
    lemma_queued_appends(f1, FrameType::ReplayBegin, le64(replay.len()));
    lemma_queued_appends(f1 + f2 + f3, FrameType::ReplayEnd, none);
    assert(out =~= f1 + f2 + f3 + f4);
    let stream = out + f5;
    assert(stream =~= f1 + (f2 + (f3 + (f4 + (f5 + none)))));
    lemma_control_shows_nothing(
        FrameType::ServerHello,
        hello_payload,
        f2 + (f3 + (f4 + (f5 + none))),
    );
    lemma_control_shows_nothing(
        FrameType::ReplayBegin,
        le64(replay.len()),
        f3 + (f4 + (f5 + none)),
    );
    law_output_arrives(replay, f4 + (f5 + none));
    lemma_control_shows_nothing(FrameType::ReplayEnd, none, f5 + none);
    law_output_arrives(data, none);
    assert(shown(none) =~= none);
    assert(data + none =~= data);
}

/// A connection that sends no valid hello never takes the place of the client:
/// probing a pane disturbs nobody.
pub proof fn law_probe_disturbs_nobody(
    d: DaemonView,
    ready: Seq<bool>,
    closed: Seq<bool>,
    now: u64,
    live_cwd: Option<Seq<char>>,
)
    requires
        ready.len() == d.pending.len(),
        closed.len() == d.pending.len(),
        forall|i: int|
            0 <= i < d.pending.len() ==> hello_scan(
                (#[trigger] d.pending[i]).inbox,
            ).features is None,
    ensures
        ({
            let after = pending_settled(
                d,
                sorted_pending(d.pending, ready, closed, now),
                live_cwd,
            );
            after.client == d.client && after.ring == d.ring && after.inbuf == d.inbuf
        }),
{
    lemma_nobody_promoted(d.pending, ready, closed, now);
}

proof fn lemma_nobody_promoted(
    pending: Seq<ConnView>,
    ready: Seq<bool>,
    closed: Seq<bool>,
    now: u64,
)
    requires
        ready.len() == pending.len(),
        closed.len() == pending.len(),
        forall|i: int|
            0 <= i < pending.len() ==> hello_scan((#[trigger] pending[i]).inbox).features is None,
    ensures
        sorted_pending(pending, ready, closed, now).promoted is None,
    decreases pending.len(),
{
    if pending.len() > 0 {
        let init = pending.drop_last();
        assert forall|i: int| 0 <= i < init.len() implies hello_scan(
            (#[trigger] init[i]).inbox,
        ).features is None by {
            assert(init[i] == pending[i]);
        }
        lemma_nobody_promoted(init, ready.drop_last(), closed.drop_last(), now);
        assert(hello_scan(pending[pending.len() - 1].inbox).features is None);
    }
}

/// No waiting connection is lost: each is kept, closed or promoted.
pub proof fn law_pending_accounted(
    pending: Seq<ConnView>,
    ready: Seq<bool>,
    closed: Seq<bool>,
    now: u64,
)
    requires
        ready.len() == pending.len(),
        closed.len() == pending.len(),
    ensures
        ({
            let sorting = sorted_pending(pending, ready, closed, now);
            sorting.kept.len() + sorting.dropped.len() + (if sorting.promoted is Some {
                1int
            } else {
                0
            }) == pending.len()
        }),
    decreases pending.len(),
{
    if pending.len() > 0 {
        law_pending_accounted(
            pending.drop_last(),
            ready.drop_last(),
            closed.drop_last(),
            now,
        );
    }
}

/// What a client types arrives at the pty as it was typed, however it was cut
/// into frames.
pub proof fn law_input_arrives(s: Served, ctx: Serving, bytes: Seq<u8>)
    requires
        s.fate == Fate::Keep,
        !ctx.exited,
    ensures
        served_all(s, ctx, chunked(FrameType::Stdin, bytes)) == (
            Served { inbuf: s.inbuf + bytes, ..s },
            Seq::<u8>::empty(),
        ),
    decreases bytes.len(),
{
    let none = Seq::<u8>::empty();
    if bytes.len() == 0 {
        assert(s.inbuf + bytes =~= s.inbuf);
    } else if bytes.len() <= MAX_PAYLOAD {
        law_frame_round_trip(FrameType::Stdin, bytes, none);
        assert(frame_bytes(FrameType::Stdin, bytes) + none =~= frame_bytes(
            FrameType::Stdin,
            bytes,
        ));
        let after = served(s, ctx, type_byte(FrameType::Stdin), bytes);
        assert(served_all(after, ctx, none) == (after, none));
    } else {
        let head = bytes.take(MAX_PAYLOAD as int);
        let tail = bytes.skip(MAX_PAYLOAD as int);
        law_frame_round_trip(FrameType::Stdin, head, chunked(FrameType::Stdin, tail));
        law_input_arrives(Served { inbuf: s.inbuf + head, ..s }, ctx, tail);
        assert(s.inbuf + head + tail =~= s.inbuf + bytes);
    }
}

} // verus!
