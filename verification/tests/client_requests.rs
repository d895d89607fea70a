use wmux::client::{
    attach, capture, capture_reply, capture_wait, configured_prefix, detach_clients, kill,
    no_session_message, parse_prefix, parting, pump_input, pump_output, query_info, send_keys,
    send_reply, DetachDetector, Outcome, Painting, ReplyError, Request, ResizeWatcher, WaitStep,
    DEFAULT_PREFIX, DETACH_KEY,
};
use wmux::console::Size;
use wmux::protocol::{ClientMsg, FrameReader, ReadError, ServerMsg};
use wmux::session::NameError;

const SID: &str = "S-1-5-21-1-2-3-1001";

fn messages(request: Request) -> Vec<ClientMsg> {
    assert_eq!(request.path, format!(r"\\.\pipe\wmux.{SID}.build"));
    let mut reader = FrameReader::new(request.bytes);
    let mut all = Vec::new();
    while let Ok(msg) = ClientMsg::read_from(&mut reader) {
        all.push(msg);
    }
    all
}

#[test]
fn requests_carry_their_messages() {
    let size = Size { cols: 120, rows: 30 };
    assert_eq!(
        messages(attach(SID, "build", size).unwrap()),
        vec![ClientMsg::Attach { cols: 120, rows: 30 }]
    );
    assert_eq!(messages(query_info(SID, "build").unwrap()), vec![ClientMsg::Info]);
    assert_eq!(messages(capture(SID, "build").unwrap()), vec![ClientMsg::Capture]);
    assert_eq!(messages(kill(SID, "build").unwrap()), vec![ClientMsg::Kill]);
    assert_eq!(
        messages(detach_clients(SID, "build").unwrap()),
        vec![ClientMsg::DetachClients, ClientMsg::Capture]
    );
    assert_eq!(
        messages(send_keys(SID, "build", "naïve\r").unwrap()),
        vec![ClientMsg::Input("naïve\r".as_bytes().to_vec()), ClientMsg::Capture]
    );
}

#[test]
fn requests_to_impossible_sessions_are_refused() {
    assert_eq!(query_info(SID, "").unwrap_err(), NameError::Empty);
    assert_eq!(kill(SID, "a.b").unwrap_err(), NameError::BadChar('.'));
    assert_eq!(capture(SID, &"a".repeat(65)).unwrap_err(), NameError::TooLong(65));
    assert_eq!(no_session_message("a\"b"), "no session named \"a\\\"b\" is running");
}

#[test]
fn only_a_screen_answers_a_send() {
    assert!(send_reply(Ok(ServerMsg::CaptureReply("x".into()))).is_ok());
    assert!(matches!(
        send_reply(Ok(ServerMsg::Detached)),
        Err(ReplyError::Unexpected(ServerMsg::Detached))
    ));
    assert!(matches!(
        send_reply(Err(ReadError::UnexpectedEof)),
        Err(ReplyError::Read(ReadError::UnexpectedEof))
    ));
    assert_eq!(capture_reply(Ok(ServerMsg::CaptureReply("x".into()))).unwrap(), "x");
    assert!(matches!(
        capture_reply(Ok(ServerMsg::Exited(1))),
        Err(ReplyError::Unexpected(ServerMsg::Exited(1)))
    ));
    assert!(matches!(
        capture_reply(Err(ReadError::ShortExitCode)),
        Err(ReplyError::Read(ReadError::ShortExitCode))
    ));
}

#[test]
fn the_screen_is_polled_until_the_text_appears() {
    let mut wait = capture_wait("answer=42");
    assert_eq!(wait.next(false), WaitStep::Capture);
    assert_eq!(wait.captured("PS> ".into()), WaitStep::Pause);
    assert_eq!(wait.captured("PS> \nanswer=42\nPS>".into()), WaitStep::Found);
    assert_eq!(wait.screen(), "PS> \nanswer=42\nPS>");
    assert_eq!(wait.captured("gone".into()), WaitStep::Pause);
    assert_eq!(wait.next(true), WaitStep::GiveUp);
    assert_eq!(
        wait.timeout_message("15s"),
        "\"answer=42\" did not appear within 15s; screen was:\ngone"
    );
}

#[test]
fn input_becomes_messages() {
    let mut detector = DetachDetector::new(DEFAULT_PREFIX);
    let (msgs, done) = pump_input(&mut detector, b"hi");
    assert_eq!(msgs, vec![ClientMsg::Input(b"hi".to_vec())]);
    assert!(!done);
    let (msgs, done) = pump_input(&mut detector, &[DEFAULT_PREFIX]);
    assert!(msgs.is_empty() && !done);
    let (msgs, done) = pump_input(&mut detector, &[DETACH_KEY]);
    assert_eq!(msgs, vec![ClientMsg::Detach]);
    assert!(done);
    let (msgs, done) = pump_input(&mut detector, &[b'x', DEFAULT_PREFIX, b'D', b'y']);
    assert_eq!(msgs, vec![ClientMsg::Input(b"x".to_vec()), ClientMsg::Detach]);
    assert!(done);
}

#[test]
fn output_is_painted() {
    for msg in [ServerMsg::Repaint(b"abc".to_vec()), ServerMsg::Output(b"abc".to_vec())] {
        assert!(matches!(pump_output(Ok(msg)), Painting::Paint(b) if b == b"abc"));
    }
    assert!(matches!(
        pump_output(Ok(ServerMsg::Exited(3))),
        Painting::Finish(Outcome::Exited(3))
    ));
    assert!(matches!(
        pump_output(Ok(ServerMsg::Detached)),
        Painting::Finish(Outcome::Detached)
    ));
    assert!(matches!(pump_output(Ok(ServerMsg::CaptureReply("".into()))), Painting::Ignore));
    assert!(matches!(
        pump_output(Err(ReadError::UnexpectedEof)),
        Painting::Finish(Outcome::Detached)
    ));
    assert_eq!(parting(), b"\x1b[0m\r\n");
}

#[test]
fn a_resize_is_told_once() {
    let mut watcher = ResizeWatcher::new(Size { cols: 80, rows: 24 });
    assert_eq!(watcher.observe(Size { cols: 80, rows: 24 }), None);
    assert_eq!(
        watcher.observe(Size { cols: 100, rows: 24 }),
        Some(ClientMsg::Resize { cols: 100, rows: 24 })
    );
    assert_eq!(watcher.observe(Size { cols: 100, rows: 24 }), None);
}

#[test]
fn the_prefix_is_configurable() {
    assert_eq!(configured_prefix(None), 0x02);
    assert_eq!(configured_prefix(Some("^A".into())), 0x01);
    assert_eq!(configured_prefix(Some(" ^a ".into())), 0x01);
    assert_eq!(configured_prefix(Some("nonsense".into())), 0x02);
    for byte in 0..0x20u8 {
        assert_eq!(parse_prefix(&(byte as char).to_string()), Some(byte));
        assert_eq!(parse_prefix(&format!("^{}", (byte + 0x40) as char)), Some(byte));
    }
    assert_eq!(parse_prefix("^?"), None);
    assert_eq!(parse_prefix("^é"), None);
    assert_eq!(parse_prefix(" "), None);
    assert_eq!(parse_prefix(" \x02 "), Some(0x02));
}

#[test]
fn cuts_between_reads_make_no_difference() {
    let all = b"a\x1b[66;48;2;1;40;1_\x1b[66;48;2;0;40;1_x\x02\x02\x1b[Ayz";
    let (whole, detach) = DetachDetector::new(DEFAULT_PREFIX).feed(all);
    assert!(!detach);
    for cut in 0..=all.len() {
        let mut detector = DetachDetector::new(DEFAULT_PREFIX);
        let (mut out, first) = detector.feed(&all[..cut]);
        let (rest, second) = detector.feed(&all[cut..]);
        out.extend_from_slice(&rest);
        assert!(!first && !second);
        assert_eq!(out, whole, "cut at {cut}");
    }
}
