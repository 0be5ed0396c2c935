//! Attaching from a plain terminal: what is sent for what is typed, what is
//! shown of what comes back, and when it ends.
use crate::modes::{
    at, is_mouse_mode, law_advance_in_pieces, lemma_run_2, lemma_run_mouse_resets,
    lemma_run_private, modes_wf, mouse_resets, private_sequence, push_private, run, ModesView,
    Position,
};
use crate::protocol::{
    encode_client_hello_with, encode_resize, frame_bytes, front, le16, le32, le32_at, read_u32,
    signed_of, type_byte, write_frame, Decoder, FrameType, Front, ProtocolError,
    FEATURE_NO_REPLAY, MAX_PAYLOAD, PROTOCOL_VERSION,
};
use crate::text::{from_utf8_lossy, lossy_text};
use vstd::prelude::*;

verus! {

/// The key that detaches when it is typed twice in a row.
pub const DETACH_KEY: u8 = 0x1C;

/// Bytes waiting for the socket beyond which standard input is not read.
pub const RELAY_CAP: usize = 1024 * 1024;

/// The first frames of a client: its hello, and the size of its terminal where
/// it has one.
pub open spec fn opening_bytes(features: u32, size: Option<(u16, u16)>) -> Seq<u8> {
    let hello = frame_bytes(FrameType::ClientHello, le32(PROTOCOL_VERSION) + le32(features));
    match size {
        Some((rows, cols)) => hello + frame_bytes(
            FrameType::Resize,
            le16(rows) + le16(cols) + le16(0) + le16(0),
        ),
        None => hello,
    }
}

pub fn opening(no_replay: bool, size: Option<(u16, u16)>) -> (bytes: Vec<u8>)
    ensures
        bytes@ == opening_bytes(
            if no_replay {
                FEATURE_NO_REPLAY
            } else {
                0
            },
            size,
        ),
{
    let mut bytes: Vec<u8> = Vec::new();
    let features: u32 = if no_replay {
        FEATURE_NO_REPLAY
    } else {
        0
    };
    let hello = encode_client_hello_with(features);
    let _ = write_frame(&mut bytes, FrameType::ClientHello, hello.as_slice());
    assert(bytes@ =~= frame_bytes(
        FrameType::ClientHello,
        le32(PROTOCOL_VERSION) + le32(features),
    ));
    if let Some((rows, cols)) = size {
        let payload = encode_resize(rows, cols, 0, 0);
        let _ = write_frame(&mut bytes, FrameType::Resize, payload.as_slice());
    }
    bytes
}

/// Whether typed bytes hold the detach key twice in a row, `last` being whether
/// it was the last one typed before.
pub open spec fn detaches(last: bool, data: Seq<u8>) -> bool
    decreases data.len(),
{
    if data.len() == 0 {
        false
    } else {
        (last && data[0] == DETACH_KEY) || detaches(data[0] == DETACH_KEY, data.skip(1))
    }
}

/// How an attachment ended.
#[derive(Clone, Debug)]
pub enum Ending {
    /// The shell exited.
    Exited(i32),
    /// Detached, by either side.
    Detached,
    /// The daemon refused.
    Refused(String),
    /// The stream made no sense.
    Broken(ProtocolError),
}

/// The mathematical value of an [`Ending`].
pub enum EndingView {
    Exited(i32),
    Detached,
    Refused(Seq<char>),
    Broken(ProtocolError),
}

impl View for Ending {
    type V = EndingView;

    open spec fn view(&self) -> EndingView {
        match self {
            Ending::Exited(code) => EndingView::Exited(*code),
            Ending::Detached => EndingView::Detached,
            Ending::Refused(message) => EndingView::Refused(message@),
            Ending::Broken(error) => EndingView::Broken(*error),
        }
    }
}

/// The status in the payload of an exit frame.
pub open spec fn exit_status_of(payload: Seq<u8>) -> i32 {
    if payload.len() < 4 {
        -1i32
    } else {
        signed_of(le32_at(payload, 0))
    }
}

/// The status in the payload of an exit frame, -1 where there is none.
pub fn decode_exit_status(payload: &[u8]) -> (code: i32)
    ensures
        code == exit_status_of(payload@),
{
    if payload.len() < 4 {
        return -1;
    }
    let bits: u32 = read_u32(payload, 0);
    if bits < 0x8000_0000 {
        bits as i32
    } else {
        (bits as i64 - 0x1_0000_0000) as i32
    }
}

/// The message in the payload of an error frame, behind its code.
pub open spec fn error_message_of(payload: Seq<u8>) -> Seq<char> {
    lossy_text(
        if payload.len() == 0 {
            payload
        } else {
            payload.skip(1)
        },
    )
}

pub fn decode_error_message(payload: &[u8]) -> (message: String)
    ensures
        message@ == error_message_of(payload@),
{
    if payload.len() == 0 {
        return from_utf8_lossy(payload);
    }
    let rest = vstd::slice::slice_subrange(payload, 1, payload.len());
    assert(rest@ =~= payload@.skip(1));
    from_utf8_lossy(rest)
}

/// What a run of frames from the daemon comes to.
pub struct Incoming {
    /// What is shown.
    pub output: Seq<u8>,
    pub rest: Seq<u8>,
    pub ending: Option<EndingView>,
}

/// All complete frames, until one ends the attachment.
pub open spec fn incoming(output: Seq<u8>, bytes: Seq<u8>) -> Incoming
    decreases bytes.len(),
{
    match front(bytes) {
        Front::Incomplete => Incoming { output, rest: bytes, ending: None },
        Front::Violation(error) => Incoming {
            output,
            rest: bytes,
            ending: Some(EndingView::Broken(error)),
        },
        Front::Frame { header, payload, rest } => if header.typ == type_byte(FrameType::Output) {
            incoming(output + payload, rest)
        } else if header.typ == type_byte(FrameType::Exited) {
            Incoming { output, rest, ending: Some(EndingView::Exited(exit_status_of(payload))) }
        } else if header.typ == type_byte(FrameType::Detached) {
            Incoming { output, rest, ending: Some(EndingView::Detached) }
        } else if header.typ == type_byte(FrameType::Error) {
            Incoming {
                output,
                rest,
                ending: Some(EndingView::Refused(error_message_of(payload))),
            }
        } else {
            incoming(output, rest)
        },
    }
}

/// An attachment from a plain terminal.
pub struct Interactive {
    dec: Decoder,
    /// Bytes for the daemon.
    pub pending_out: Vec<u8>,
    last_was_key: bool,
}

/// The mathematical value of an [`Interactive`].
pub struct InteractiveView {
    pub inbox: Seq<u8>,
    pub pending_out: Seq<u8>,
    /// Whether the last byte typed was the detach key.
    pub last_was_key: bool,
}

/// An attachment after typing: what does not detach is queued as one frame.
pub open spec fn after_typing(v: InteractiveView, data: Seq<u8>) -> InteractiveView {
    if detaches(v.last_was_key, data) {
        InteractiveView { last_was_key: true, ..v }
    } else {
        InteractiveView {
            pending_out: v.pending_out + frame_bytes(FrameType::Stdin, data),
            last_was_key: data.last() == DETACH_KEY,
            ..v
        }
    }
}

/// An attachment after its terminal took another size.
pub open spec fn after_resizing(v: InteractiveView, rows: u16, cols: u16) -> InteractiveView {
    InteractiveView {
        pending_out: v.pending_out + frame_bytes(
            FrameType::Resize,
            le16(rows) + le16(cols) + le16(0) + le16(0),
        ),
        ..v
    }
}

impl View for Interactive {
    type V = InteractiveView;

    closed spec fn view(&self) -> InteractiveView {
        InteractiveView {
            inbox: self.dec@,
            pending_out: self.pending_out@,
            last_was_key: self.last_was_key,
        }
    }
}

impl Interactive {
    pub closed spec fn wf(&self) -> bool {
        self.dec.wf()
    }

    pub fn new() -> (session: Interactive)
        ensures
            session.wf(),
            session@ == (InteractiveView {
                inbox: Seq::empty(),
                pending_out: Seq::empty(),
                last_was_key: false,
            }),
    {
        let session = Interactive {
            dec: Decoder::new(),
            pending_out: Vec::new(),
            last_was_key: false,
        };
        assert(session@.pending_out =~= Seq::<u8>::empty());
        session
    }

    /// Takes typed bytes. Tells whether they detach, in which case they are not
    /// sent; otherwise they are queued as one frame.
    pub fn typed(&mut self, data: &[u8]) -> (detach: bool)
        requires
            old(self).wf(),
            0 < data@.len() <= MAX_PAYLOAD,
        ensures
            final(self).wf(),
            detach == detaches(old(self)@.last_was_key, data@),
            final(self)@ == after_typing(old(self)@, data@),
    {
        let mut i: usize = 0;
        assert(data@.skip(0) =~= data@);
        while i < data.len()
            invariant
                i <= data@.len(),
                self.wf(),
                self@.inbox == old(self)@.inbox,
                self@.pending_out == old(self)@.pending_out,
                self@.last_was_key == if i == 0 {
                    old(self)@.last_was_key
                } else {
                    data@[i - 1] == DETACH_KEY
                },
                detaches(old(self)@.last_was_key, data@) == detaches(
                    self@.last_was_key,
                    data@.skip(i as int),
                ),
            decreases data.len() - i,
        {
            assert(data@.skip(i as int).skip(1) =~= data@.skip(i as int + 1));
            if data[i] == DETACH_KEY {
                if self.last_was_key {
                    return true;
                }
                self.last_was_key = true;
            } else {
                self.last_was_key = false;
            }
            i = i + 1;
        }
        let _ = write_frame(&mut self.pending_out, FrameType::Stdin, data);
        false
    }

    /// Queues the size of the terminal.
    pub fn resized(&mut self, rows: u16, cols: u16)
        requires
            old(self).wf(),
        ensures
            final(self).wf(),
            final(self)@ == after_resizing(old(self)@, rows, cols),
    {
        let payload = encode_resize(rows, cols, 0, 0);
        let _ = write_frame(&mut self.pending_out, FrameType::Resize, payload.as_slice());
    }

    /// Takes bytes from the daemon.
    pub fn feed(&mut self, data: &[u8])
        requires
            old(self).wf(),
        ensures
            final(self).wf(),
            final(self)@ == (InteractiveView {
                inbox: old(self)@.inbox + data@,
                ..old(self)@
            }),
    {
        self.dec.feed(data);
    }

    /// Takes the complete frames: what is shown of them, and how the attachment
    /// ended if it did.
    pub fn drain(&mut self) -> (step: (Vec<u8>, Option<Ending>))
        requires
            old(self).wf(),
        ensures
            final(self).wf(),
            ({
                let all = incoming(Seq::empty(), old(self)@.inbox);
                &&& step.0@ == all.output
                &&& final(self)@ == (InteractiveView { inbox: all.rest, ..old(self)@ })
                &&& match all.ending {
                    Some(expected) => step.1 matches Some(e) && e@ == expected,
                    None => step.1 is None,
                }
            }),
    {
        let mut output: Vec<u8> = Vec::new();
        assert(output@ =~= Seq::<u8>::empty());
        loop
            invariant
                self.wf(),
                self@.pending_out == old(self)@.pending_out,
                self@.last_was_key == old(self)@.last_was_key,
                incoming(Seq::empty(), old(self)@.inbox) == incoming(output@, self@.inbox),
            decreases self@.inbox.len(),
        {
            match self.dec.next_frame() {
                Ok(Some((header, payload))) => match FrameType::from_u8(header.typ) {
                    Some(FrameType::Output) => {
                        let ghost before = output@;
                        output.extend_from_slice(payload.as_slice());
                        assert(output@ =~= before + payload@);
                    },
                    Some(FrameType::Exited) => {
                        return (
                            output,
                            Some(Ending::Exited(decode_exit_status(payload.as_slice()))),
                        );
                    },
                    Some(FrameType::Detached) => {
                        return (output, Some(Ending::Detached));
                    },
                    Some(FrameType::Error) => {
                        return (
                            output,
                            Some(Ending::Refused(decode_error_message(payload.as_slice()))),
                        );
                    },
                    _ => {},
                },
                Ok(None) => {
                    return (output, None);
                },
                Err(error) => {
                    return (output, Some(Ending::Broken(error)));
                },
            }
        }
    }
}

/// The exit code of an attachment: the shell's, or success when detached.
pub fn final_code(ending: &Ending) -> (code: i32)
    ensures
        code == match ending@ {
            EndingView::Exited(c) => if c > 0 {
                c
            } else {
                0
            },
            EndingView::Detached => 0,
            _ => 1,
        },
{
    match ending {
        Ending::Exited(c) => if *c > 0 {
            *c
        } else {
            0
        },
        Ending::Detached => 0,
        _ => 1,
    }
}

/// The sequences that undo what a pane switched on in the terminal: alternate
/// screen, mouse and focus reporting, bracketed paste, hidden cursor, keypad.
pub open spec fn tty_reset_bytes() -> Seq<u8> {
    private_sequence(1049, false) + mouse_resets(Seq::empty()) + private_sequence(1004, false)
        + private_sequence(2004, false) + private_sequence(25, true) + seq![0x1Bu8, 0x3E]
}

pub fn tty_reset() -> (bytes: Vec<u8>)
    ensures
        bytes@ == tty_reset_bytes(),
{
    let mut bytes: Vec<u8> = Vec::new();
    push_private(&mut bytes, 1049, false);
    assert(bytes@ =~= private_sequence(1049, false));
    push_private(&mut bytes, 1000, false);
    push_private(&mut bytes, 1002, false);
    push_private(&mut bytes, 1003, false);
    push_private(&mut bytes, 1005, false);
    push_private(&mut bytes, 1006, false);
    push_private(&mut bytes, 1015, false);
    assert(bytes@ =~= private_sequence(1049, false) + mouse_resets(Seq::empty()));
    push_private(&mut bytes, 1004, false);
    push_private(&mut bytes, 2004, false);
    push_private(&mut bytes, 25, true);
    let ghost before = bytes@;
    bytes.push(0x1B);
    bytes.push(0x3E);
    assert(bytes@ =~= before + seq![0x1Bu8, 0x3E]);
    bytes
}

/// The reset leaves a terminal, whatever a pane switched on in it, outside the
/// alternate screen, without mouse and focus reporting, bracketed paste, hidden
/// cursor and application keypad. Other modes stay as they were.
pub proof fn law_reset_undoes(m: ModesView)
    requires
        modes_wf(m),
    ensures
        run(at(Position::Ground, m), tty_reset_bytes()) == at(
            Position::Ground,
            ModesView {
                alt_screen: None,
                mouse: Seq::empty(),
                focus_reporting: false,
                bracketed_paste: false,
                cursor_hidden: false,
                app_keypad: false,
                ..m
            },
        ),
{
    let t0 = at(Position::Ground, m);
    let p1 = private_sequence(1049, false);
    lemma_run_private(m, 1049, false);
    let m1 = ModesView { alt_screen: None, ..m };
    let p2 = p1 + mouse_resets(Seq::empty());
    law_advance_in_pieces(t0, p1, mouse_resets(Seq::empty()));
    lemma_run_mouse_resets(m1, Seq::empty());
    let m2 = run(t0, p2).modes;
    assert(m2.mouse =~= Seq::<u16>::empty()) by {
        if m2.mouse.len() > 0 {
            let x = m2.mouse[0];
            assert(m2.mouse.contains(x));
            assert(m1.mouse.contains(x));
            let i = m.mouse.index_of(x);
            assert(is_mouse_mode(m.mouse[i]));
        }
    }
    let p3 = p2 + private_sequence(1004, false);
    law_advance_in_pieces(t0, p2, private_sequence(1004, false));
    lemma_run_private(m2, 1004, false);
    let m3 = ModesView { focus_reporting: false, ..m2 };
    let p4 = p3 + private_sequence(2004, false);
    law_advance_in_pieces(t0, p3, private_sequence(2004, false));
    lemma_run_private(m3, 2004, false);
    let m4 = ModesView { bracketed_paste: false, ..m3 };
    let p5 = p4 + private_sequence(25, true);
    law_advance_in_pieces(t0, p4, private_sequence(25, true));
    lemma_run_private(m4, 25, true);
    let m5 = ModesView { cursor_hidden: false, ..m4 };
    let keypad = seq![0x1Bu8, 0x3E];
    law_advance_in_pieces(t0, p5, keypad);
    lemma_run_2(at(Position::Ground, m5), 0x1B, 0x3E);
}

/// What a relay between standard input and output and a socket waits for.
#[derive(Clone, Copy, Debug, PartialEq, Eq, Structural)]
pub struct RelayInterests {
    pub stdin_read: bool,
    pub socket_write: bool,
    pub stdout_write: bool,
}

/// Standard input is not read while too much waits for the socket.
pub fn relay_interests(stdin_open: bool, to_socket: usize, to_stdout: usize) -> (wanted:
    RelayInterests)
    ensures
        wanted == (RelayInterests {
            stdin_read: stdin_open && to_socket < RELAY_CAP,
            socket_write: to_socket > 0,
            stdout_write: to_stdout > 0,
        }),
{
    RelayInterests {
        stdin_read: stdin_open && to_socket < RELAY_CAP,
        socket_write: to_socket > 0,
        stdout_write: to_stdout > 0,
    }
}

/// Whether a relay is done: nothing more comes from standard input, and all of
/// it was sent.
pub fn relay_done(stdin_open: bool, to_socket: usize) -> (done: bool)
    ensures
        done == (!stdin_open && to_socket == 0),
{
    !stdin_open && to_socket == 0
}

} // verus!
