use wmux::protocol::{
    frame_header, read_frame, write_frame, ClientMsg, ErrorKind, FrameReader, ReadError, ServerMsg,
    MAX_PAYLOAD, TAG_ATTACH, TAG_EXITED, TAG_INFO_REPLY,
};

fn frame(tag: u8, payload: &[u8]) -> FrameReader {
    let mut buf = Vec::new();
    write_frame(&mut buf, tag, payload);
    FrameReader::new(buf)
}

#[test]
fn frames_have_a_fixed_layout() {
    let mut buf = Vec::new();
    ClientMsg::Attach { cols: 0x0102, rows: 0x0304 }.write_to(&mut buf);
    assert_eq!(buf, [0x01, 4, 0, 0, 0, 0x02, 0x01, 0x04, 0x03]);
    let mut buf = Vec::new();
    ServerMsg::Exited(-2).write_to(&mut buf);
    assert_eq!(buf, [0x83, 4, 0, 0, 0, 0xfe, 0xff, 0xff, 0xff]);
    let mut buf = Vec::new();
    ServerMsg::InfoReply { cols: 80, rows: 24, clients: 3, command: "é".into() }.write_to(&mut buf);
    assert_eq!(buf, [0x84, 10, 0, 0, 0, 80, 0, 24, 0, 3, 0, 0, 0, 0xc3, 0xa9]);
    assert_eq!(read_frame(&mut frame(9, b"ab")).unwrap(), (9, b"ab".to_vec()));
}

#[test]
fn short_payloads_are_rejected() {
    for (read, expected) in [
        (ClientMsg::read_from(&mut frame(TAG_ATTACH, &[1, 2, 3])).unwrap_err(), ReadError::ShortDimensions),
        (ServerMsg::read_from(&mut frame(TAG_EXITED, &[1, 2, 3])).unwrap_err(), ReadError::ShortExitCode),
        (ServerMsg::read_from(&mut frame(TAG_INFO_REPLY, &[0; 7])).unwrap_err(), ReadError::TruncatedInfo),
        (ServerMsg::read_from(&mut frame(0x7f, &[])).unwrap_err(), ReadError::UnknownServerTag(0x7f)),
        (ClientMsg::read_from(&mut frame(0x81, &[])).unwrap_err(), ReadError::UnknownClientTag(0x81)),
    ] {
        assert_eq!(read, expected);
        assert_eq!(read.kind(), ErrorKind::InvalidData);
        assert!(!read.message().is_empty());
    }
}

#[test]
fn the_end_of_the_stream_is_an_error_of_its_own() {
    let read = ClientMsg::read_from(&mut FrameReader::new(Vec::new())).unwrap_err();
    assert_eq!(read, ReadError::UnexpectedEof);
    assert_eq!(read.kind(), ErrorKind::UnexpectedEof);
}

#[test]
fn headers_are_checked_before_the_payload_is_read() {
    let mut header = vec![2];
    header.extend_from_slice(&(MAX_PAYLOAD as u32).to_le_bytes());
    assert_eq!(frame_header(&header), Ok((2, MAX_PAYLOAD)));
    let mut header = vec![2];
    header.extend_from_slice(&(MAX_PAYLOAD as u32 + 1).to_le_bytes());
    assert_eq!(frame_header(&header), Err(ReadError::Oversized(MAX_PAYLOAD as u32 + 1)));
}

#[test]
fn messages_know_whether_they_fit() {
    assert!(ClientMsg::Input(vec![0; MAX_PAYLOAD]).fits());
    assert!(!ClientMsg::Input(vec![0; MAX_PAYLOAD + 1]).fits());
    assert!(ServerMsg::Repaint(vec![0; MAX_PAYLOAD]).fits());
    assert!(!ServerMsg::Repaint(vec![0; MAX_PAYLOAD + 1]).fits());
}

#[test]
fn every_cut_of_a_message_is_an_error() {
    let mut buf = Vec::new();
    ServerMsg::CaptureReply("screen".into()).write_to(&mut buf);
    for cut in 0..buf.len() {
        assert!(ServerMsg::read_from(&mut FrameReader::new(buf[..cut].to_vec())).is_err());
    }
    assert_eq!(
        ServerMsg::read_from(&mut FrameReader::new(buf)).unwrap(),
        ServerMsg::CaptureReply("screen".into())
    );
}

#[test]
fn broken_text_in_a_reply_is_repaired() {
    let mut buf = Vec::new();
    write_frame(&mut buf, 0x85, b"a\xffb");
    assert_eq!(
        ServerMsg::read_from(&mut FrameReader::new(buf)).unwrap(),
        ServerMsg::CaptureReply("a\u{fffd}b".into())
    );
}

#[test]
fn copies_say_the_same() {
    for msg in [
        ServerMsg::Repaint(b"a".to_vec()),
        ServerMsg::Output(b"b".to_vec()),
        ServerMsg::Exited(4),
        ServerMsg::InfoReply { cols: 1, rows: 2, clients: 3, command: "c".into() },
        ServerMsg::CaptureReply("d".into()),
        ServerMsg::Detached,
    ] {
        assert_eq!(msg.copy(), msg);
    }
}
