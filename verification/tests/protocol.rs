use rio_sessions::protocol::{
    decode_client_hello, decode_client_hello_features, decode_resize, encode_client_hello,
    encode_client_hello_with, encode_resize, write_chunked, write_frame, Decoder, FrameType,
    PayloadTooLarge, ProtocolError, ServerHello, FEATURE_NO_REPLAY, HEADER_LEN, MAX_PAYLOAD,
    PROTOCOL_VERSION, SHELL_RUNNING,
};

#[test]
fn round_trip_frames() {
    let mut wire = Vec::new();
    write_frame(&mut wire, FrameType::Stdin, b"hello").unwrap();
    write_frame(&mut wire, FrameType::Ping, &[]).unwrap();
    write_frame(&mut wire, FrameType::Output, &[0u8; MAX_PAYLOAD]).unwrap();

    let mut dec = Decoder::new();
    // Feed in awkward chunk sizes to exercise partial-frame paths.
    for chunk in wire.chunks(7) {
        dec.feed(chunk);
    }
    let (h1, p1) = dec.next_frame().unwrap().unwrap();
    assert_eq!(FrameType::from_u8(h1.typ), Some(FrameType::Stdin));
    assert_eq!(p1, b"hello");
    let (h2, p2) = dec.next_frame().unwrap().unwrap();
    assert_eq!(FrameType::from_u8(h2.typ), Some(FrameType::Ping));
    assert!(p2.is_empty());
    let (h3, p3) = dec.next_frame().unwrap().unwrap();
    assert_eq!(FrameType::from_u8(h3.typ), Some(FrameType::Output));
    assert_eq!(p3.len(), MAX_PAYLOAD);
    assert!(dec.next_frame().unwrap().is_none());
}

#[test]
fn partial_header_then_completion() {
    let mut wire = Vec::new();
    write_frame(&mut wire, FrameType::Stdin, b"abc").unwrap();
    let mut dec = Decoder::new();
    dec.feed(&wire[..3]);
    assert!(dec.next_frame().unwrap().is_none());
    dec.feed(&wire[3..9]);
    assert!(dec.next_frame().unwrap().is_none());
    dec.feed(&wire[9..]);
    let (_, p) = dec.next_frame().unwrap().unwrap();
    assert_eq!(p, b"abc");
}

#[test]
fn oversize_and_unknown_type_are_fatal() {
    let mut dec = Decoder::new();
    let mut bad = Vec::new();
    bad.extend_from_slice(&(MAX_PAYLOAD as u32 + 1).to_le_bytes());
    bad.extend_from_slice(&[FrameType::Stdin.to_u8(), 0, 0, 0]);
    dec.feed(&bad);
    assert!(matches!(dec.next_frame(), Err(ProtocolError::Oversize(_))));

    let mut dec = Decoder::new();
    let mut bad = Vec::new();
    bad.extend_from_slice(&0u32.to_le_bytes());
    bad.extend_from_slice(&[0x7F, 0, 0, 0]);
    dec.feed(&bad);
    assert!(matches!(
        dec.next_frame(),
        Err(ProtocolError::UnknownType(0x7F))
    ));
}

#[test]
fn hello_and_resize_round_trip() {
    let sh = ServerHello {
        version: PROTOCOL_VERSION,
        daemon_pid: 42,
        shell_pid: 43,
        shell_state: SHELL_RUNNING,
        exit_status: 0,
        meta_json: r#"{"pane_id":"ab"}"#.into(),
    };
    let d = ServerHello::decode(&sh.encode()).unwrap();
    assert_eq!(d.daemon_pid, 42);
    assert_eq!(d.shell_pid, 43);
    assert_eq!(d.meta_json, r#"{"pane_id":"ab"}"#);

    let r = encode_resize(50, 120, 800, 600);
    assert_eq!(decode_resize(&r), Some((50, 120, 800, 600)));
}

#[test]
fn every_frame_type_has_one_code() {
    let all = [
        (FrameType::ClientHello, 0x01),
        (FrameType::Stdin, 0x02),
        (FrameType::Resize, 0x03),
        (FrameType::Kill, 0x04),
        (FrameType::Detach, 0x05),
        (FrameType::Ping, 0x06),
        (FrameType::ServerHello, 0x81),
        (FrameType::Output, 0x82),
        (FrameType::ReplayBegin, 0x83),
        (FrameType::ReplayEnd, 0x84),
        (FrameType::Exited, 0x85),
        (FrameType::Detached, 0x86),
        (FrameType::Error, 0x87),
        (FrameType::Pong, 0x88),
    ];
    for (typ, code) in all {
        assert_eq!(typ.to_u8(), code);
        assert_eq!(FrameType::from_u8(code), Some(typ));
    }
    for code in [0x00, 0x07, 0x80, 0x89, 0xFF] {
        assert_eq!(FrameType::from_u8(code), None);
    }
}

#[test]
fn a_frame_on_the_wire() {
    let mut wire = Vec::new();
    write_frame(&mut wire, FrameType::Stdin, b"hi").unwrap();
    assert_eq!(wire, [2, 0, 0, 0, 0x02, 0, 0, 0, b'h', b'i']);
}

#[test]
fn a_payload_beyond_the_limit_is_refused() {
    let mut wire = vec![7];
    let big = vec![0u8; MAX_PAYLOAD + 1];
    assert_eq!(
        write_frame(&mut wire, FrameType::Output, &big),
        Err(PayloadTooLarge { len: MAX_PAYLOAD + 1 })
    );
    assert_eq!(wire, [7]);
}

#[test]
fn long_output_goes_out_in_pieces() {
    let bytes: Vec<u8> = (0..MAX_PAYLOAD + 3).map(|i| (i % 251) as u8).collect();
    let mut wire = Vec::new();
    write_chunked(&mut wire, FrameType::Output, &bytes);
    assert_eq!(wire.len(), bytes.len() + 2 * HEADER_LEN);
    let mut dec = Decoder::new();
    dec.feed(&wire);
    let mut back = Vec::new();
    while let Some((_, payload)) = dec.next_frame().unwrap() {
        back.extend_from_slice(&payload);
    }
    assert_eq!(back, bytes);
    assert_eq!(dec.buffered(), 0);
}

#[test]
fn hellos_without_features_and_too_short_ones() {
    assert_eq!(encode_client_hello(), [1, 0, 0, 0, 0, 0, 0, 0]);
    let hello = encode_client_hello_with(FEATURE_NO_REPLAY);
    assert_eq!(hello, [1, 0, 0, 0, 1, 0, 0, 0]);
    assert_eq!(decode_client_hello(&hello), Some(PROTOCOL_VERSION));
    assert_eq!(decode_client_hello_features(&hello), FEATURE_NO_REPLAY);
    assert_eq!(decode_client_hello(&[1, 0, 0]), None);
    assert_eq!(decode_client_hello(&[2, 0, 0, 0]), Some(2));
    assert_eq!(decode_client_hello_features(&[2, 0, 0, 0, 1]), 0);
    assert!(ServerHello::decode(&[0; 16]).is_none());
    assert_eq!(decode_resize(&[1, 0, 2, 0, 3, 0, 4]), None);
}

#[test]
fn a_negative_exit_status_comes_back() {
    let sh = ServerHello {
        version: PROTOCOL_VERSION,
        daemon_pid: u32::MAX,
        shell_pid: 0,
        shell_state: 1,
        exit_status: -7,
        meta_json: String::new(),
    };
    let d = ServerHello::decode(&sh.encode()).unwrap();
    assert_eq!((d.daemon_pid, d.shell_state, d.exit_status), (u32::MAX, 1, -7));
}

#[test]
fn violations_in_words() {
    assert_eq!(ProtocolError::Oversize(65537).message(), "frame payload 65537 exceeds cap");
    assert_eq!(ProtocolError::UnknownType(0x7F).message(), "unknown frame type 0x7f");
}
