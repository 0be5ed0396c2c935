use rio_sessions::attach::{
    decode_error_message, decode_exit_status, final_code, opening, relay_done, relay_interests,
    tty_reset, Ending, Interactive, RelayInterests, DETACH_KEY, RELAY_CAP,
};
use rio_sessions::modes::ModeTracker;
use rio_sessions::protocol::{
    encode_resize, write_frame, Decoder, FrameType, ProtocolError, FEATURE_NO_REPLAY,
};

fn frame(typ: FrameType, payload: &[u8]) -> Vec<u8> {
    let mut wire = Vec::new();
    write_frame(&mut wire, typ, payload).unwrap();
    wire
}

#[test]
fn an_attachment_opens_with_a_hello_and_a_size() {
    let mut dec = Decoder::new();
    dec.feed(&opening(true, Some((24, 80))));
    let (h, p) = dec.next_frame().unwrap().unwrap();
    assert_eq!(FrameType::from_u8(h.typ), Some(FrameType::ClientHello));
    assert_eq!(p, [1, 0, 0, 0, FEATURE_NO_REPLAY as u8, 0, 0, 0]);
    let (h, p) = dec.next_frame().unwrap().unwrap();
    assert_eq!(FrameType::from_u8(h.typ), Some(FrameType::Resize));
    assert_eq!(p, encode_resize(24, 80, 0, 0));
    assert!(dec.next_frame().unwrap().is_none());

    let mut dec = Decoder::new();
    dec.feed(&opening(false, None));
    assert_eq!(dec.next_frame().unwrap().unwrap().1, [1, 0, 0, 0, 0, 0, 0, 0]);
    assert!(dec.next_frame().unwrap().is_none());
}

#[test]
fn two_detach_keys_in_a_row_detach() {
    let mut s = Interactive::new();
    assert!(!s.typed(&[b'a', DETACH_KEY]));
    assert!(!s.typed(&[b'b', DETACH_KEY]));
    assert!(s.typed(&[DETACH_KEY]));
    let mut s = Interactive::new();
    assert!(s.typed(&[DETACH_KEY, DETACH_KEY]));
    assert!(s.pending_out.is_empty());
}

#[test]
fn what_is_typed_goes_out_in_frames() {
    let mut s = Interactive::new();
    assert!(!s.typed(b"ls\r"));
    s.resized(10, 20);
    let mut want = frame(FrameType::Stdin, b"ls\r");
    want.extend(frame(FrameType::Resize, &encode_resize(10, 20, 0, 0)));
    assert_eq!(s.pending_out, want);
}

#[test]
fn what_comes_in_is_shown_till_the_end() {
    let mut s = Interactive::new();
    let mut wire = frame(FrameType::Output, b"one");
    wire.extend(frame(FrameType::ReplayEnd, b""));
    wire.extend(frame(FrameType::Output, b"two"));
    wire.extend(frame(FrameType::Exited, &(-3i32).to_le_bytes()));
    let cut = wire.len() - 2;
    s.feed(&wire[..cut]);
    let (out, ending) = s.drain();
    assert_eq!(out, b"onetwo");
    assert!(ending.is_none());
    s.feed(&wire[cut..]);
    let (out, ending) = s.drain();
    assert!(out.is_empty());
    assert!(matches!(ending, Some(Ending::Exited(-3))));
}

#[test]
fn every_way_an_attachment_ends() {
    for (typ, payload, code) in [
        (FrameType::Exited, &[7u8, 0, 0, 0][..], 7),
        (FrameType::Exited, &[0xFF, 0xFF, 0xFF, 0xFF][..], 0),
        (FrameType::Detached, &[1][..], 0),
        (FrameType::Error, b"\x01no"[..].as_ref(), 1),
    ] {
        let mut s = Interactive::new();
        s.feed(&frame(typ, payload));
        assert_eq!(final_code(&s.drain().1.unwrap()), code);
    }
    let mut s = Interactive::new();
    s.feed(&[0, 0, 0, 0, 0x7F, 0, 0, 0]);
    let ending = s.drain().1.unwrap();
    assert!(matches!(ending, Ending::Broken(ProtocolError::UnknownType(0x7F))));
    assert_eq!(final_code(&ending), 1);
    let mut s = Interactive::new();
    s.feed(&frame(FrameType::Error, b"\x01no"));
    assert!(matches!(s.drain().1, Some(Ending::Refused(m)) if m == "no"));
}

#[test]
fn payloads_that_are_too_short() {
    assert_eq!(decode_exit_status(&[1, 0, 0]), -1);
    assert_eq!(decode_exit_status(&[1, 0, 0, 0]), 1);
    assert_eq!(decode_error_message(&[]), "");
    assert_eq!(decode_error_message(b"\x01h\xFFi"), "h\u{fffd}i");
}

#[test]
fn a_reset_undoes_what_a_pane_switched_on() {
    let mut t = ModeTracker::new();
    t.advance(b"\x1b[?1049h\x1b[?25l\x1b[?1003;1006h\x1b[?1004h\x1b[?2004h\x1b=");
    t.advance(&tty_reset());
    let m = t.modes();
    assert_eq!(m.alt_screen, None);
    assert!(m.mouse.is_empty());
    assert!(!m.cursor_hidden && !m.focus_reporting && !m.bracketed_paste && !m.app_keypad);
}

#[test]
fn a_relay_reads_while_there_is_room() {
    assert_eq!(
        relay_interests(true, RELAY_CAP - 1, 0),
        RelayInterests { stdin_read: true, socket_write: true, stdout_write: false }
    );
    assert_eq!(
        relay_interests(true, RELAY_CAP, 3),
        RelayInterests { stdin_read: false, socket_write: true, stdout_write: true }
    );
    assert!(!relay_interests(false, 0, 0).stdin_read);
    assert!(relay_done(false, 0));
    assert!(!relay_done(true, 0));
    assert!(!relay_done(false, 1));
}
