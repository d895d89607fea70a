use wmux::protocol::{write_frame, ClientMsg, ErrorKind, FrameReader, ServerMsg, TAG_INPUT};


fn roundtrip_client(msg: ClientMsg) {
    let mut buf = Vec::new();
    msg.write_to(&mut buf);
    let mut reader = FrameReader::new(buf);
    assert_eq!(ClientMsg::read_from(&mut reader).unwrap(), msg);
}

fn roundtrip_server(msg: ServerMsg) {
    let mut buf = Vec::new();
    msg.write_to(&mut buf);
    let mut reader = FrameReader::new(buf);
    assert_eq!(ServerMsg::read_from(&mut reader).unwrap(), msg);
}

#[test]
fn client_messages_roundtrip() {
    roundtrip_client(ClientMsg::Attach {
        cols: 120,
        rows: 30,
    });
    roundtrip_client(ClientMsg::Input(b"pwsh -NoLogo\r".to_vec()));
    roundtrip_client(ClientMsg::Resize { cols: 80, rows: 24 });
    roundtrip_client(ClientMsg::Detach);
    roundtrip_client(ClientMsg::Kill);
    roundtrip_client(ClientMsg::Info);
    roundtrip_client(ClientMsg::Capture);
}

#[test]
fn server_messages_roundtrip() {
    roundtrip_server(ServerMsg::Repaint(b"\x1b[2J\x1b[H".to_vec()));
    roundtrip_server(ServerMsg::Output(vec![0u8, 1, 2, 255]));
    roundtrip_server(ServerMsg::Exited(-1));
    roundtrip_server(ServerMsg::InfoReply {
        cols: 100,
        rows: 40,
        clients: 2,
        command: "pwsh.exe".into(),
    });
    roundtrip_server(ServerMsg::CaptureReply("PS X:\\> echo hi\nhi\n".into()));
}

#[test]
fn capture_reply_survives_non_ascii() {
    roundtrip_server(ServerMsg::CaptureReply("naïve — ✓ 日本語".into()));
}

#[test]
fn empty_input_payload_roundtrips() {
    roundtrip_client(ClientMsg::Input(Vec::new()));
}

#[test]
fn several_frames_stream_back_to_back() {
    let mut buf = Vec::new();
    ClientMsg::Input(b"a".to_vec()).write_to(&mut buf);
    ClientMsg::Resize { cols: 1, rows: 2 }
        .write_to(&mut buf);
    ClientMsg::Detach.write_to(&mut buf);

    let mut reader = FrameReader::new(buf);
    assert_eq!(
        ClientMsg::read_from(&mut reader).unwrap(),
        ClientMsg::Input(b"a".to_vec())
    );
    assert_eq!(
        ClientMsg::read_from(&mut reader).unwrap(),
        ClientMsg::Resize { cols: 1, rows: 2 }
    );
    assert_eq!(
        ClientMsg::read_from(&mut reader).unwrap(),
        ClientMsg::Detach
    );
}

#[test]
fn unknown_tag_is_rejected() {
    let mut buf = Vec::new();
    write_frame(&mut buf, 0x7f, b"nonsense");
    let err = ClientMsg::read_from(&mut FrameReader::new(buf)).unwrap_err();
    assert_eq!(err.kind(), ErrorKind::InvalidData);
}

#[test]
fn oversized_length_prefix_is_rejected_without_allocating() {
    let mut buf = vec![TAG_INPUT];
    buf.extend_from_slice(&u32::MAX.to_le_bytes());
    let err = ClientMsg::read_from(&mut FrameReader::new(buf)).unwrap_err();
    assert_eq!(err.kind(), ErrorKind::InvalidData);
}

#[test]
fn truncated_frame_is_an_error() {
    let mut buf = Vec::new();
    ClientMsg::Input(b"hello".to_vec())
        .write_to(&mut buf);
    buf.truncate(buf.len() - 2);
    assert!(ClientMsg::read_from(&mut FrameReader::new(buf)).is_err());
}
