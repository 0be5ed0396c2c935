use rio_sessions::cli::PaneFacts;
use rio_sessions::json::{write_failure, write_handshake, write_hello, write_list};
use rio_sessions::pane::{PaneMeta, METADATA_VERSION};
use rio_sessions::protocol::{
    encode_resize, write_chunked, write_frame, Decoder, FrameType, ServerHello, PROTOCOL_VERSION,
    SHELL_EXITED, SHELL_RUNNING,
};
use rio_sessions::remote::{
    attach_opening, greet, is_safe_ssh_dest, launched, list_failure, parse_handshake,
    parse_hello_cwd, parse_remote_pane_list, spawn_argv, spawn_failure, ssh_attach_argv,
    ssh_list_argv, AttachError, Greeting, RemoteReader, RemoteWriter, ShellState, Taken,
};

#[test]
fn cwd_honors_json_string_escapes() {
    assert_eq!(
        parse_hello_cwd(r#"{"pane_id":"x","program":"sh","cwd":"/tmp/a\"b"}"#)
            .as_deref(),
        Some("/tmp/a\"b")
    );
    assert_eq!(
        parse_hello_cwd(r#"{"cwd":"/tmp/a\\b"}"#).as_deref(),
        Some("/tmp/a\\b")
    );
    assert_eq!(
        parse_hello_cwd(r#"{"cwd":"/plain"}"#).as_deref(),
        Some("/plain")
    );
}

#[test]
fn cwd_null_absent_or_garbage_is_none() {
    assert_eq!(parse_hello_cwd(r#"{"cwd":null}"#), None);
    assert_eq!(parse_hello_cwd(r#"{"pane_id":"x"}"#), None);
    assert_eq!(parse_hello_cwd("not json"), None);
}

#[test]
fn ssh_dest_allowlist_blocks_injection() {
    // Legit destinations pass.
    for ok in [
        "host",
        "user@host",
        "user@host.example.com",
        "[::1]",
        "user@[2001:db8::1]",
        "fe80::1%eth0",
        "host:2222",
    ] {
        assert!(is_safe_ssh_dest(ok), "should allow {ok:?}");
    }
    // Injection / option / shell-metachar attempts are rejected —
    // this is the single security chokepoint before ssh argv.
    for bad in [
        "",
        "-oProxyCommand=touch /tmp/x",
        "-lroot",
        "host;id",
        "host $(id)",
        "host`id`",
        "a b",
        "host=evil",
        "host|nc evil 1",
        "host\nreset",
    ] {
        assert!(!is_safe_ssh_dest(bad), "should reject {bad:?}");
    }
}

#[test]
fn parses_alive_panes_and_skips_dead() {
    let json = r#"[
        {"pane_id":"a","program":"bash","cwd":"/tmp","alive":true,"exited_status":null},
        {"pane_id":"b","program":"zsh","cwd":"/etc","alive":false,"exited_status":null},
        {"pane_id":"c","program":"sh","cwd":null,"alive":true,"exited_status":1}
    ]"#;
    let panes = parse_remote_pane_list(json).unwrap();
    assert_eq!(panes.len(), 2);
    assert_eq!(panes[0].0, "a");
    assert_eq!(panes[0].1, "bash  /tmp  running");
    assert_eq!(panes[1].0, "c");
    assert_eq!(panes[1].1, "sh  -  exited(1)");
}

#[test]
fn rejects_garbage() {
    assert!(parse_remote_pane_list("not json").is_err());
}

const ID: &str = "0123456789abcdef0123456789abcdef";

fn frame(typ: FrameType, payload: &[u8]) -> Vec<u8> {
    let mut wire = Vec::new();
    write_frame(&mut wire, typ, payload).unwrap();
    wire
}

/// Hands a reader bytes as it wants them, and gives back what it passed on.
fn read(reader: &mut RemoteReader, mut wire: &[u8], room: usize) -> Vec<u8> {
    let mut out = Vec::new();
    while !wire.is_empty() && !reader.is_over() {
        let output = reader.expects_output();
        let n = reader.wants(room).min(wire.len());
        let (now, rest) = wire.split_at(n);
        let taken = reader.took(now);
        assert_eq!(taken == Taken::Output, output);
        if taken == Taken::Output {
            out.extend_from_slice(now);
        }
        wire = rest;
    }
    out
}

#[test]
fn ssh_is_asked_for_one_pane_of_one_host() {
    assert_eq!(
        ssh_attach_argv("me@host", ID).ok().unwrap(),
        ["-oBatchMode=yes", "me@host", "rio-ptyd", "attach", "--stdio", ID]
    );
    let refused = |dest: &str, id: &str| ssh_attach_argv(dest, id).err().unwrap().message();
    assert_eq!(refused("me@host", "short"), "invalid pane id");
    assert_eq!(refused("-oX", ID), "unsafe ssh destination");
    assert_eq!(ssh_list_argv("a b").err().as_deref(), Some("invalid ssh destination"));
    assert!(ssh_list_argv("host").unwrap().ends_with(&[
        "rio-ptyd".to_string(),
        "list".to_string(),
        "--json".to_string()
    ]));
}

#[test]
fn a_daemon_is_started_where_the_pane_is() {
    let some = |s: &str| Some(s.to_string());
    assert_eq!(
        spawn_argv(4096, &some("work"), &None, &some("/here"), "sh", &vec!["-l".to_string()]),
        ["spawn", "--ring-size", "4096", "--session", "work", "--cwd", "/here", "--", "sh", "-l"]
    );
    assert_eq!(
        spawn_argv(7, &None, &some("/there"), &some("/here"), "sh", &Vec::new()),
        ["spawn", "--ring-size", "7", "--cwd", "/there", "--", "sh"]
    );
}

#[test]
fn a_handshake_comes_back() {
    let line = write_handshake(ID, "/run/a \"b\".sock", 7, -1) + "\n";
    assert_eq!(
        line,
        format!(
            "{{\"daemon_pid\":7,\"pane_id\":\"{ID}\",\"shell_pid\":-1,\
             \"socket\":\"/run/a \\\"b\\\".sock\"}}\n"
        )
    );
    let l = parse_handshake(&line).ok().unwrap();
    assert_eq!(l.pane_id, ID);
    assert_eq!(l.socket, "/run/a \"b\".sock");
}

#[test]
fn a_handshake_without_a_socket_is_refused() {
    let fault = |line: &str| parse_handshake(line).err().unwrap().message();
    assert_eq!(fault(&write_failure("no pty")), "rio-ptyd spawn returned no socket");
    assert_eq!(write_failure("a\"b"), "{\"error\":\"a\\\"b\"}");
    assert_eq!(fault("{\"pane_id\":\"x\",\"socket\":\"\"}"), "rio-ptyd spawn returned no socket");
    assert!(!fault("not json").is_empty());
    let e = launched(Some("bad".into()), Some("a".into()), Some("b".into())).err().unwrap();
    assert_eq!(e.message(), "bad");
    assert_eq!(spawn_failure(" boom \n").message(), "rio-ptyd spawn failed: boom");
    assert_eq!(AttachError::ShellExited(-2).message(), "shell already exited with status -2");
}

#[test]
fn a_hello_tells_where_the_shell_is() {
    let meta = write_hello(&Some("/tmp/\u{e9}\"x".into()), ID, "sh");
    assert_eq!(
        meta,
        format!("{{\"cwd\":\"/tmp/\u{e9}\\\"x\",\"pane_id\":\"{ID}\",\"program\":\"sh\"}}")
    );
    assert_eq!(parse_hello_cwd(&meta).as_deref(), Some("/tmp/\u{e9}\"x"));
    assert_eq!(parse_hello_cwd(&write_hello(&None, ID, "sh")), None);
}

fn hello(shell_state: u8) -> Vec<u8> {
    ServerHello {
        version: PROTOCOL_VERSION,
        daemon_pid: 5,
        shell_pid: 6,
        shell_state,
        exit_status: 3,
        meta_json: "{\"cwd\":\"/w\"}".into(),
    }
    .encode()
}

#[test]
fn a_greeting_is_awaited() {
    let wire = frame(FrameType::ServerHello, &hello(SHELL_RUNNING));
    let mut dec = Decoder::new();
    dec.feed(&wire[..wire.len() - 1]);
    assert!(matches!(greet(&mut dec), Greeting::Waiting));
    dec.feed(&wire[wire.len() - 1..]);
    let Greeting::Hello(info) = greet(&mut dec) else { panic!("no hello") };
    assert_eq!((info.daemon_pid, info.shell_pid, info.exit_status), (5, 6, 3));
    assert_eq!(info.shell_state, ShellState::Running);
    assert_eq!(info.cwd.as_deref(), Some("/w"));
}

#[test]
fn every_way_a_greeting_fails() {
    let fault = |wire: &[u8]| {
        let mut dec = Decoder::new();
        dec.feed(wire);
        match greet(&mut dec) {
            Greeting::Failed(e) => e.message(),
            _ => panic!("did not fail"),
        }
    };
    let dead = frame(FrameType::ServerHello, &hello(SHELL_EXITED));
    assert_eq!(fault(&dead), "shell already exited with status 3");
    assert_eq!(fault(&frame(FrameType::ServerHello, b"x")), "malformed server hello");
    assert_eq!(fault(&frame(FrameType::Error, b"\x01busy")), "busy");
    assert_eq!(fault(&frame(FrameType::Output, b"x")), "unexpected frame before hello");
    assert_eq!(fault(&[0, 0, 0, 0, 0x7F, 0, 0, 0]), "unknown frame type 0x7f");
}

#[test]
fn an_attachment_asks_for_its_size() {
    let mut dec = Decoder::new();
    dec.feed(&attach_opening(1, 2, 3, 4));
    assert_eq!(dec.next_frame().unwrap().unwrap().1, [1, 0, 0, 0, 0, 0, 0, 0]);
    assert_eq!(dec.next_frame().unwrap().unwrap().1, encode_resize(1, 2, 3, 4));
    assert!(dec.next_frame().unwrap().is_none());
}

#[test]
fn output_is_passed_on_however_it_is_cut() {
    let mut wire = frame(FrameType::ReplayBegin, b"");
    wire.extend(frame(FrameType::Output, b"old"));
    wire.extend(frame(FrameType::ReplayEnd, b""));
    wire.extend(frame(FrameType::Pong, b"ignored"));
    wire.extend(frame(FrameType::Output, b"new text"));
    for room in 1..12 {
        let mut reader = RemoteReader::new();
        assert_eq!(read(&mut reader, &wire, room), b"oldnew text");
        assert!(!reader.is_over());
    }
}

#[test]
fn a_replay_is_told_apart_from_what_is_new() {
    let mut reader = RemoteReader::new();
    assert!(!reader.take_replay_pending());
    read(&mut reader, &frame(FrameType::ReplayBegin, b""), 64);
    assert!(reader.take_replay_pending());
    read(&mut reader, &frame(FrameType::Output, b"old"), 64);
    read(&mut reader, &frame(FrameType::ReplayEnd, b""), 64);
    assert!(reader.take_replay_pending());
    read(&mut reader, &frame(FrameType::Output, b"new"), 64);
    assert!(!reader.take_replay_pending());
}

#[test]
fn every_way_a_stream_ends() {
    let mut reader = RemoteReader::new();
    read(&mut reader, &frame(FrameType::Exited, &9i32.to_le_bytes()), 64);
    assert!(reader.is_over() && reader.exit_signaled());
    assert_eq!(reader.exited(), Some(9));
    assert!(!reader.link_lost());

    let mut reader = RemoteReader::new();
    reader.hung_up();
    assert!(reader.is_over() && reader.link_lost());
    assert_eq!(reader.exited(), None);

    let mut reader = RemoteReader::new();
    read(&mut reader, &[0, 0, 0, 0, 0x7F, 0, 0, 0], 64);
    assert!(reader.is_over() && reader.link_lost());
}

#[test]
fn a_writer_takes_input_only_once_it_is_through() {
    let mut writer = RemoteWriter::new();
    assert!(!writer.is_blocked());
    assert!(writer.write(b"ls"));
    assert!(writer.is_blocked());
    assert!(!writer.write(b"more"));
    assert_eq!(writer.pending(), frame(FrameType::Stdin, b"ls"));
    writer.set_winsize(1, 2, 3, 4);
    writer.kill();
    let mut want = frame(FrameType::Stdin, b"ls");
    want.extend(frame(FrameType::Resize, &encode_resize(1, 2, 3, 4)));
    want.extend(frame(FrameType::Kill, b""));
    assert_eq!(writer.pending(), want);
    writer.sent(5);
    assert_eq!(writer.pending(), &want[5..]);
    writer.sent(want.len() - 5);
    assert!(writer.write(&[b'x'; 70_000]));
    let mut long = Vec::new();
    write_chunked(&mut long, FrameType::Stdin, &[b'x'; 70_000]);
    assert_eq!(writer.pending(), long);
}

fn pane(id: &str, program: &str) -> PaneMeta {
    PaneMeta {
        version: METADATA_VERSION,
        pane_id: id.into(),
        daemon_pid: 1,
        shell_pid: 2,
        program: program.into(),
        args: vec!["-l".into()],
        cwd: None,
        created_at: 3,
        exited_status: None,
        exited_at: None,
        session: Some("w".into()),
    }
}

#[test]
fn a_list_that_was_written_is_read() {
    let panes = vec![pane("a", "sh\x1b[0m"), pane("b", "zsh")];
    let facts = vec![
        PaneFacts { alive: true, foreground: Some("vim".into()), created: "now".into() },
        PaneFacts { alive: false, foreground: Some("vim".into()), created: "now".into() },
    ];
    let json = write_list(&panes, &facts);
    assert!(json.starts_with(
        "[{\"alive\":true,\"args\":[\"-l\"],\"created_at\":3,\"cwd\":null,\"daemon_pid\":1,\
         \"exited_status\":null,\"foreground\":\"vim\",\"pane_id\":\"a\",\"program\":\
         \"sh\\u001b[0m\",\"session\":\"w\",\"shell_pid\":2},{\"alive\":false,"
    ));
    let found = parse_remote_pane_list(&json).unwrap();
    assert_eq!(found, [("a".to_string(), "sh?[0m  -  running".to_string())]);
}

#[test]
fn a_list_that_failed_says_why() {
    assert_eq!(list_failure(" no route\n", "exit status: 255"), "no route");
    assert_eq!(list_failure("\n", "exit status: 255"), "ssh exited with exit status: 255");
    let fault = parse_remote_pane_list("not json").err().unwrap();
    assert!(fault.starts_with("bad rio-ptyd list output: "));
    assert!(parse_remote_pane_list("{}").is_err());
}

#[test]
fn a_greeting_leaves_what_follows() {
    let mut wire = frame(FrameType::ServerHello, &hello(SHELL_RUNNING));
    wire.extend_from_slice(&frame(FrameType::ReplayEnd, &[]));
    let mut dec = Decoder::new();
    dec.feed(&wire);
    assert!(matches!(greet(&mut dec), Greeting::Hello(_)));
    let (header, payload) = dec.next_frame().unwrap().unwrap();
    assert_eq!(header.typ, FrameType::ReplayEnd.to_u8());
    assert!(payload.is_empty());
}
