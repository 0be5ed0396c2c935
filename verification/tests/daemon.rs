use rio_sessions::daemon::{
    decode_wait_status, Accepted, Daemon, Effect, Fate, Interests, CLIENT_OUTBUF_CAP, MAX_PENDING,
    PENDING_HELLO_DEADLINE_MS, PENDING_POLL_MS, PTY_INBUF_CAP,
};
use rio_sessions::pane::{PaneMeta, METADATA_VERSION};
use rio_sessions::protocol::{
    encode_client_hello, encode_client_hello_with, encode_resize, write_frame, Decoder, FrameType,
    ServerHello, DETACH_REPLACED, DETACH_SERVER_SHUTDOWN, DETACH_SLOW_CONSUMER,
    ERROR_VERSION_MISMATCH, FEATURE_NO_REPLAY, SHELL_EXITED, SHELL_RUNNING,
};
use rio_sessions::remote::parse_hello_cwd;

fn meta() -> PaneMeta {
    PaneMeta {
        version: METADATA_VERSION,
        pane_id: "ab".into(),
        daemon_pid: 10,
        shell_pid: 11,
        program: "/bin/sh".into(),
        args: Vec::new(),
        cwd: Some("/start".into()),
        created_at: 1,
        exited_status: None,
        exited_at: None,
        session: None,
    }
}

fn frame(typ: FrameType, payload: &[u8]) -> Vec<u8> {
    let mut wire = Vec::new();
    write_frame(&mut wire, typ, payload).unwrap();
    wire
}

fn frames(bytes: &[u8]) -> Vec<(FrameType, Vec<u8>)> {
    let mut dec = Decoder::new();
    dec.feed(bytes);
    let mut all = Vec::new();
    while let Some((h, p)) = dec.next_frame().unwrap() {
        all.push((FrameType::from_u8(h.typ).unwrap(), p));
    }
    assert_eq!(dec.buffered(), 0);
    all
}

/// What waits for the client, which then took it all.
fn sent(d: &mut Daemon) -> Vec<(FrameType, Vec<u8>)> {
    let bytes = d.client.as_ref().unwrap().out.bytes().to_vec();
    d.client_took(bytes.len());
    frames(&bytes)
}

fn attached() -> Daemon {
    let mut d = Daemon::new(meta(), 4096);
    assert!(matches!(d.accept(1, 0), Accepted::Client));
    d.feed_client(&frame(FrameType::ClientHello, &encode_client_hello()));
    let step = d.serve_client(false, false, &None);
    assert_eq!(step.fate, Fate::Keep);
    sent(&mut d);
    d
}

#[test]
fn a_client_is_greeted_and_shown_what_was_there() {
    let mut d = Daemon::new(meta(), 4096);
    d.take_output(b"before");
    d.accept(1, 0);
    assert!(d.feed_client(&frame(FrameType::ClientHello, &encode_client_hello())));
    let step = d.serve_client(false, false, &Some("/live".into()));
    assert_eq!(step.fate, Fate::Keep);
    assert!(step.last_words.is_empty());
    let all = sent(&mut d);
    assert_eq!(all[0].0, FrameType::ServerHello);
    let hello = ServerHello::decode(&all[0].1).unwrap();
    assert_eq!((hello.daemon_pid, hello.shell_pid), (10, 11));
    assert_eq!((hello.shell_state, hello.exit_status), (SHELL_RUNNING, 0));
    assert_eq!(parse_hello_cwd(&hello.meta_json).as_deref(), Some("/live"));
    assert_eq!(all[1].0, FrameType::ReplayBegin);
    assert_eq!(all[2].0, FrameType::Output);
    assert!(all[2].1.ends_with(b"before"));
    assert_eq!(all[3].0, FrameType::ReplayEnd);
    assert_eq!(all.len(), 4);
}

#[test]
fn a_client_can_do_without_the_replay() {
    let mut d = Daemon::new(meta(), 4096);
    d.take_output(b"before");
    d.accept(1, 0);
    let hello = encode_client_hello_with(FEATURE_NO_REPLAY);
    d.feed_client(&frame(FrameType::ClientHello, &hello));
    let step = d.serve_client(false, false, &None);
    let all = sent(&mut d);
    let hello = ServerHello::decode(&all[0].1).unwrap();
    assert_eq!(parse_hello_cwd(&hello.meta_json).as_deref(), Some("/start"));
    assert_eq!(
        all[1..],
        [(FrameType::ReplayBegin, vec![0; 8]), (FrameType::ReplayEnd, Vec::new())]
    );
    assert!(step.effects.is_empty());
}

#[test]
fn another_version_is_refused() {
    let mut d = Daemon::new(meta(), 4096);
    d.accept(1, 0);
    d.feed_client(&frame(FrameType::ClientHello, &[9, 0, 0, 0]));
    let step = d.serve_client(false, false, &None);
    assert_eq!(step.fate, Fate::Drop);
    let all = frames(&step.last_words);
    assert_eq!(all[0].0, FrameType::Error);
    assert_eq!(all[0].1[0], ERROR_VERSION_MISMATCH);
    assert!(d.client.is_none());
}

#[test]
fn what_a_client_types_reaches_the_shell() {
    let mut d = attached();
    d.feed_client(&frame(FrameType::Stdin, b"ls\r"));
    d.feed_client(&frame(FrameType::Resize, &encode_resize(5, 6, 7, 8)));
    d.feed_client(&frame(FrameType::Ping, b"p"));
    let step = d.serve_client(false, false, &None);
    assert_eq!(step.fate, Fate::Keep);
    assert_eq!(
        step.effects,
        [Effect::SetSize { rows: 5, cols: 6, xpixel: 7, ypixel: 8 }, Effect::Repaint]
    );
    assert_eq!(d.pty_inbuf, b"ls\r");
    assert_eq!(sent(&mut d), [(FrameType::Pong, Vec::new())]);
    d.pty_took(2);
    assert_eq!(d.pty_inbuf, b"\r");
}

#[test]
fn a_kill_hangs_the_shell_up() {
    let mut d = attached();
    d.feed_client(&frame(FrameType::Kill, b""));
    let step = d.serve_client(false, false, &None);
    assert!(d.kill_requested);
    assert_eq!(step.effects, [Effect::Hangup]);
}

#[test]
fn a_client_that_leaves_is_let_go() {
    let mut d = attached();
    d.feed_client(&frame(FrameType::Detach, b""));
    assert_eq!(d.serve_client(false, false, &None).fate, Fate::Drop);
    assert!(d.client.is_none());

    let mut d = attached();
    assert_eq!(d.serve_client(true, false, &None).fate, Fate::Drop);
    assert!(d.client.is_none());

    let mut d = attached();
    d.feed_client(&[0, 0, 0, 0, 0x7F, 0, 0, 0]);
    assert_eq!(d.serve_client(false, false, &None).fate, Fate::Drop);
}

#[test]
fn a_client_that_does_not_read_is_let_go() {
    let mut d = attached();
    let piece = vec![b'x'; 1024 * 1024];
    let mut words = Vec::new();
    for _ in 0..CLIENT_OUTBUF_CAP / piece.len() + 1 {
        words = d.take_output(&piece);
        if !words.is_empty() {
            break;
        }
    }
    assert!(d.client.is_none());
    let all = frames(&words);
    assert_eq!(all.last().unwrap(), &(FrameType::Detached, vec![DETACH_SLOW_CONSUMER]));
    assert_eq!(d.ring.len(), 4096);
}

#[test]
fn output_goes_to_the_client_and_to_the_ring() {
    let mut d = attached();
    assert!(d.take_output(b"hi").is_empty());
    assert_eq!(sent(&mut d), [(FrameType::Output, b"hi".to_vec())]);
    assert_eq!(d.ring.len(), 2);
}

#[test]
fn what_a_daemon_waits_for() {
    let mut d = Daemon::new(meta(), 4096);
    assert_eq!(
        d.interests(),
        Interests {
            pty_read: true,
            pty_write: false,
            client_read: false,
            client_write: false,
            timeout_ms: -1,
        }
    );
    d = attached();
    d.feed_client(&frame(FrameType::Stdin, b"x"));
    d.serve_client(false, false, &None);
    d.accept(2, 0);
    let want = d.interests();
    assert!(want.pty_write && want.client_read && !want.client_write);
    assert_eq!(want.timeout_ms, PENDING_POLL_MS);
    d.pty_inbuf = vec![0; PTY_INBUF_CAP + 1];
    assert!(!d.may_read_client() && !d.interests().client_read);
}

#[test]
fn only_so_many_wait_for_the_place_of_a_client() {
    let mut d = attached();
    for id in 0..MAX_PENDING as u64 {
        assert!(matches!(d.accept(100 + id, 0), Accepted::Pending));
    }
    assert!(matches!(d.accept(999, 0), Accepted::Refused));
    let n = d.pending.len();
    let late = PENDING_HELLO_DEADLINE_MS + 1;
    let step = d.settle_pending(&vec![false; n], &vec![false; n], late, &None);
    assert_eq!(step.dropped.len(), n);
    assert!(d.pending.is_empty());
}

#[test]
fn a_newcomer_takes_the_place_of_the_client() {
    let mut d = attached();
    d.accept(2, 0);
    d.feed_pending(0, &frame(FrameType::ClientHello, &encode_client_hello()));
    let step = d.settle_pending(&vec![true], &vec![false], 5, &None);
    assert_eq!(step.promoted, Some(2));
    let (former, words) = step.evicted.unwrap();
    assert_eq!(former, 1);
    assert_eq!(frames(&words), [(FrameType::Detached, vec![DETACH_REPLACED])]);
    assert_eq!(d.client.as_ref().unwrap().id, 2);
    assert_eq!(sent(&mut d)[0].0, FrameType::ServerHello);
}

#[test]
fn a_shell_that_ends_is_told_to_the_client() {
    let mut d = attached();
    assert!(!d.note_exit(99, 0));
    assert!(d.note_exit(11, 3 << 8));
    let step = d.settle_exit(50);
    assert!(step.exit);
    assert_eq!(frames(&step.last_words), [(FrameType::Exited, vec![3, 0, 0, 0])]);
}

#[test]
fn a_shell_that_ends_alone_lingers() {
    let mut d = Daemon::new(meta(), 4096);
    d.take_output(b"bye");
    d.note_exit(11, 9);
    let step = d.settle_exit(50);
    assert!(!step.exit && step.last_words.is_empty());
    assert_eq!((d.meta.exited_status, d.meta.exited_at), (Some(137), Some(50)));
    d.accept(1, 0);
    d.feed_client(&frame(FrameType::ClientHello, &encode_client_hello()));
    let step = d.serve_client(false, false, &None);
    assert_eq!(step.fate, Fate::Exit);
    let all = frames(&step.last_words);
    let hello = ServerHello::decode(&all[0].1).unwrap();
    assert_eq!((hello.shell_state, hello.exit_status), (SHELL_EXITED, 137));
    assert!(all.iter().any(|(t, p)| *t == FrameType::Output && p.ends_with(b"bye")));
}

#[test]
fn a_daemon_that_is_ended_says_so() {
    let mut d = attached();
    let words = d.terminate();
    assert_eq!(frames(&words), [(FrameType::Detached, vec![DETACH_SERVER_SHUTDOWN])]);
    assert!(d.client.is_none());
    assert!(d.terminate().is_empty());
}

#[test]
fn what_a_wait_status_means() {
    assert_eq!(decode_wait_status(0), 0);
    assert_eq!(decode_wait_status(7 << 8), 7);
    assert_eq!(decode_wait_status(15), 143);
    assert_eq!(decode_wait_status(0x137F), -1);
}
