use wmux::console::Size;
use wmux::protocol::{ClientMsg, ReadError, ServerMsg};
use wmux::server::{
    already_running_message, exit_code, failed_to_start_message, log, run, Action, Connection,
    Delivery, Session, OUTBOUND_QUEUE, PTY_CHUNK,
};
use wmux::session::{list_sessions, pipe_leaf_for, NameError};

const COLS: u16 = 100;
const ROWS: u16 = 30;

fn shell() -> Vec<String> {
    vec!["pwsh.exe".to_string(), "-NoLogo".to_string()]
}

fn start() -> Session {
    Session::new(&shell(), Size { cols: COLS, rows: ROWS })
}

fn say(session: &mut Session, connection: &mut Connection, msg: ClientMsg) -> Action {
    session.serve_client(connection, Ok(msg))
}

/// Attaches a client. Returns it, and the screen that it is greeted with.
fn welcome(session: &mut Session, connection: &mut Connection) -> (u64, ServerMsg) {
    let greeting = match say(session, connection, ClientMsg::Attach { cols: COLS, rows: ROWS }) {
        Action::Greet { greeting, .. } => greeting,
        other => panic!("expected a screen, got {other:?}"),
    };
    (session.greeted(connection).expect("the client should be registered"), greeting)
}

fn attach(session: &mut Session, connection: &mut Connection) -> u64 {
    welcome(session, connection).0
}

fn clients_of(session: &mut Session) -> u32 {
    match say(session, &mut Connection::new(), ClientMsg::Info) {
        Action::Reply(ServerMsg::InfoReply { clients, .. }) => clients,
        other => panic!("expected an info reply, got {other:?}"),
    }
}

fn deliveries(session: &mut Session, id: u64) -> Vec<ServerMsg> {
    let mut all = Vec::new();
    while let Delivery::Deliver(msg) = session.next_message(id) {
        all.push(msg);
    }
    all
}

/// What a terminal shows that these messages are painted on.
fn painted(msgs: &[ServerMsg]) -> String {
    let mut terminal = vt100::Parser::new(ROWS, COLS, 0);
    for msg in msgs {
        if let ServerMsg::Repaint(bytes) | ServerMsg::Output(bytes) = msg {
            terminal.process(bytes);
        }
    }
    terminal.screen().contents()
}

#[test]
fn session_survives_detach_and_replays_the_screen_on_reattach() {
    let mut session = start();
    let marker = "WMUXMARK4711";

    let mut first = Connection::new();
    let id = attach(&mut session, &mut first);
    session.output(b"PS C:\\> ");
    match say(&mut session, &mut first, ClientMsg::Input(format!("echo {marker}\r").into_bytes())) {
        Action::WritePty(bytes) => assert_eq!(bytes, b"echo WMUXMARK4711\r"),
        other => panic!("input belongs to the pty, got {other:?}"),
    }
    session.output(format!("{marker}\r\nPS C:\\> ").as_bytes());
    assert!(
        painted(&deliveries(&mut session, id)).contains(marker),
        "the marker should be on the live screen"
    );

    assert!(matches!(say(&mut session, &mut first, ClientMsg::Detach), Action::HangUp));
    session.hang_up(first);
    assert_eq!(session.client_count(), 0);

    let mut second = Connection::new();
    let (id, greeting) = welcome(&mut session, &mut second);
    assert!(matches!(greeting, ServerMsg::Repaint(_)));
    assert_eq!(deliveries(&mut session, id), vec![]);
    assert!(
        painted(&[greeting]).contains(marker),
        "reattach must replay the screen state from before the detach"
    );
}

#[test]
fn a_new_session_is_discoverable_and_reports_its_geometry() {
    let sid = "S-1-5-21-1-2-3-1001";
    let leaves = vec!["chrome.sync".to_string(), pipe_leaf_for(sid, "info")];
    assert!(list_sessions(sid, &leaves).contains(&"info".to_string()));

    let mut session = start();
    let mut connection = Connection::new();
    match say(&mut session, &mut connection, ClientMsg::Info) {
        Action::Reply(ServerMsg::InfoReply { cols, rows, clients, command }) => {
            assert_eq!((cols, rows), (COLS, ROWS));
            assert_eq!(clients, 0, "an info query should not count as an attach");
            assert!(command.contains("pwsh"), "unexpected command {command:?}");
        }
        other => panic!("expected an info reply, got {other:?}"),
    }
}

#[test]
fn output_produced_while_detached_is_still_there_on_reattach() {
    let mut session = start();
    let marker = "OFFLINE4711";
    let mut first = Connection::new();
    attach(&mut session, &mut first);
    session.output(b"PS C:\\> ");
    session.hang_up(first);

    session.output(format!("{marker}\r\n").as_bytes());

    let mut second = Connection::new();
    let (_, greeting) = welcome(&mut session, &mut second);
    assert!(
        painted(&[greeting]).contains(marker),
        "work done while detached must be visible on reattach"
    );
}

#[test]
fn capture_does_not_register_as_an_attached_client() {
    let mut session = start();
    session.output(b"PS C:\\> ");
    let mut script = Connection::new();
    match say(&mut session, &mut script, ClientMsg::Capture) {
        Action::Reply(ServerMsg::CaptureReply(text)) => assert_eq!(text, "PS C:\\> "),
        other => panic!("expected the screen, got {other:?}"),
    }
    session.hang_up(script);

    let mut connection = Connection::new();
    match say(&mut session, &mut connection, ClientMsg::Info) {
        Action::Reply(ServerMsg::InfoReply { clients, .. }) => assert_eq!(clients, 0),
        other => panic!("expected an info reply, got {other:?}"),
    }
}

#[test]
fn detach_from_outside_works_without_any_keyboard() {
    let mut session = start();
    let mut viewer = Connection::new();
    let id = attach(&mut session, &mut viewer);
    session.output(b"before");

    let mut outside = Connection::new();
    assert!(matches!(
        say(&mut session, &mut outside, ClientMsg::DetachClients),
        Action::PauseAndClear
    ));
    session.clear_clients();
    assert_eq!(session.client_count(), 0);

    let got = deliveries(&mut session, id);
    assert_eq!(got, vec![ServerMsg::Output(b"before".to_vec()), ServerMsg::Detached]);
    assert!(matches!(session.next_message(id), Delivery::Finished));

    session.output(b" and after");
    assert_eq!(session.capture_text(), "before and after");
}

#[test]
fn killing_a_session_ends_the_connection() {
    let mut session = start();
    let mut connection = Connection::new();
    assert!(matches!(say(&mut session, &mut connection, ClientMsg::Kill), Action::Kill));
}

#[test]
fn the_repaint_is_what_the_terminal_model_gives() {
    let mut session = start();
    session.output(b"\x1b[31mred\x1b[0m and ");
    session.output("日本語\r\n".as_bytes());

    let mut terminal = vt100::Parser::new(ROWS, COLS, 10_000);
    terminal.process(b"\x1b[31mred\x1b[0m and ");
    terminal.process("日本語\r\n".as_bytes());
    assert_eq!(session.repaint(), Some(terminal.screen().contents_formatted()));
    assert_eq!(session.capture_text(), terminal.screen().contents());
    assert_eq!(session.capture_text(), "red and 日本語");
}

#[test]
fn output_may_come_in_chunks() {
    let mut whole = start();
    whole.output("a\x1b[1mbold\x1b[0m ✓".as_bytes());
    let mut cut = start();
    for byte in "a\x1b[1mbold\x1b[0m ✓".as_bytes() {
        cut.output(&[*byte]);
    }
    assert_eq!(whole.repaint(), cut.repaint());
}

#[test]
fn a_resize_reaches_the_model_and_the_pty() {
    let mut session = start();
    let mut connection = Connection::new();
    match say(&mut session, &mut connection, ClientMsg::Resize { cols: 4, rows: 0 }) {
        Action::ResizePty(size) => assert_eq!(size, Size { cols: 4, rows: 1 }),
        other => panic!("expected a resize, got {other:?}"),
    }
    assert_eq!(session.size(), Size { cols: 4, rows: 1 });
    // The same size again changes nothing.
    assert!(matches!(
        say(&mut session, &mut connection, ClientMsg::Resize { cols: 4, rows: 1 }),
        Action::Next
    ));
    session.resize(4, 2);
    session.output(b"abcdef");
    let mut terminal = vt100::Parser::new(ROWS, COLS, 10_000);
    terminal.set_size(1, 4);
    terminal.set_size(2, 4);
    terminal.process(b"abcdef");
    assert_eq!(session.capture_text(), terminal.screen().contents());
}

#[test]
fn attaching_resizes_before_the_screen_is_taken() {
    let mut session = start();
    session.output(b"hello");
    let mut connection = Connection::new();
    match say(&mut session, &mut connection, ClientMsg::Attach { cols: 20, rows: 5 }) {
        Action::Greet { greeting, resize } => {
            let mut terminal = vt100::Parser::new(ROWS, COLS, 10_000);
            terminal.process(b"hello");
            terminal.set_size(5, 20);
            assert_eq!(greeting, ServerMsg::Repaint(terminal.screen().contents_formatted()));
            assert_eq!(resize, Some(Size { cols: 20, rows: 5 }));
        }
        other => panic!("expected a screen, got {other:?}"),
    }
}

#[test]
fn a_client_that_falls_behind_is_dropped_alone() {
    let mut session = start();
    let mut slow = Connection::new();
    let slow_id = attach(&mut session, &mut slow);
    let mut quick = Connection::new();
    let quick_id = attach(&mut session, &mut quick);
    assert_ne!(slow_id, quick_id);

    for _ in 0..OUTBOUND_QUEUE {
        session.output(b".");
        deliveries(&mut session, quick_id);
    }
    assert_eq!(session.client_count(), 2);
    session.output(b"!");
    assert_eq!(session.client_count(), 1);
    assert_eq!(deliveries(&mut session, quick_id), vec![ServerMsg::Output(b"!".to_vec())]);
    // What was queued for the slow one is still delivered.
    assert_eq!(deliveries(&mut session, slow_id).len(), OUTBOUND_QUEUE);
    assert!(matches!(session.next_message(slow_id), Delivery::Finished));
}

#[test]
fn messages_come_in_order_and_once() {
    let mut session = start();
    let mut connection = Connection::new();
    let id = attach(&mut session, &mut connection);
    session.output(b"1");
    session.output(b"2");
    assert!(matches!(session.next_message(id), Delivery::Deliver(ServerMsg::Output(b)) if b == b"1"));
    assert!(matches!(session.next_message(id), Delivery::Deliver(ServerMsg::Output(b)) if b == b"2"));
    assert!(matches!(session.next_message(id), Delivery::Wait));
    assert!(matches!(session.next_message(id + 1), Delivery::Finished));
}

#[test]
fn a_client_nobody_writes_to_goes_with_the_next_message() {
    let mut session = start();
    let mut connection = Connection::new();
    let id = attach(&mut session, &mut connection);
    session.writer_failed(id);
    assert_eq!(session.client_count(), 1);
    session.output(b"x");
    assert_eq!(session.client_count(), 0);
    assert!(matches!(session.next_message(id), Delivery::Finished));
    session.writer_failed(id);
    assert_eq!(session.capture_text(), "x");
}

#[test]
fn a_dropped_connection_is_a_detach() {
    let mut session = start();
    let mut connection = Connection::new();
    attach(&mut session, &mut connection);
    assert!(matches!(
        session.serve_client(&mut connection, Err(ReadError::UnexpectedEof)),
        Action::HangUp
    ));
    session.hang_up(connection);
    assert_eq!(session.client_count(), 0);
}

#[test]
fn clients_learn_that_the_child_exited() {
    let mut session = start();
    let mut connection = Connection::new();
    let id = attach(&mut session, &mut connection);
    session.child_exited(-1);
    assert_eq!(deliveries(&mut session, id).last(), Some(&ServerMsg::Exited(-1)));
}

#[test]
fn exit_codes_keep_their_bits() {
    assert_eq!(exit_code(Some(0)), 0);
    assert_eq!(exit_code(Some(3)), 3);
    assert_eq!(exit_code(Some(u32::MAX)), -1);
    assert_eq!(exit_code(Some(0xc000_013a)), 0xc000_013au32 as i32);
    assert_eq!(exit_code(None), -1);
}

#[test]
fn a_server_is_prepared() {
    let startup = run("S-1-5-18", "build", &shell(), 0, 24).unwrap();
    assert_eq!(startup.path, r"\\.\pipe\wmux.S-1-5-18.build");
    assert_eq!(startup.size, Size { cols: 1, rows: 24 });
    assert_eq!(startup.program, "pwsh.exe");
    assert_eq!(startup.args, vec!["-NoLogo"]);
    assert_eq!(
        startup.environment,
        vec![
            ("WMUX_SESSION".to_string(), "build".to_string()),
            ("TERM".to_string(), "xterm-256color".to_string())
        ]
    );
    assert_eq!(run("S-1-5-18", "", &shell(), 80, 24).unwrap_err(), NameError::Empty);
}

#[test]
fn server_messages_for_the_user() {
    assert_eq!(already_running_message("build"), "session \"build\" is already running");
    assert_eq!(failed_to_start_message("a\tb"), "failed to start \"a\\tb\"");
    assert_eq!(log(42, "listening"), "[42] listening");
    assert!(start().can_attach());
}

#[test]
fn what_a_session_sends_by_itself_fits_in_a_frame() {
    assert!(ServerMsg::Output(vec![0; PTY_CHUNK]).fits());
    assert!(ServerMsg::Exited(i32::MIN).fits());
    assert!(ServerMsg::Detached.fits());
}

#[test]
fn a_client_is_registered_behind_its_screen() {
    let mut session = start();
    session.output(b"seen");
    let mut connection = Connection::new();
    let greeting = match say(&mut session, &mut connection, ClientMsg::Attach { cols: COLS, rows: ROWS }) {
        Action::Greet { greeting, resize: None } => greeting,
        other => panic!("expected a screen, got {other:?}"),
    };
    assert_eq!(clients_of(&mut session), 0);

    // Output that comes while the screen is being written waits; a notice is not for this client.
    session.output(b" while");
    assert!(matches!(say(&mut session, &mut Connection::new(), ClientMsg::DetachClients), Action::PauseAndClear));
    session.clear_clients();
    assert!(matches!(session.next_message(1), Delivery::Wait));

    assert_eq!(session.greeted(&connection), Some(1));
    assert_eq!(session.greeted(&connection), None);
    assert_eq!(clients_of(&mut session), 1);
    session.output(b" behind");
    let mut all = vec![greeting];
    all.extend(deliveries(&mut session, 1));
    assert_eq!(all[1..], [ServerMsg::Output(b" while".to_vec()), ServerMsg::Output(b" behind".to_vec())]);
    assert_eq!(painted(&all), "seen while behind");
}

#[test]
fn a_screen_that_cannot_be_written_registers_nobody() {
    let mut session = start();
    let mut connection = Connection::new();
    say(&mut session, &mut connection, ClientMsg::Attach { cols: COLS, rows: ROWS });
    session.output(b"waiting");
    session.hang_up(connection);
    assert_eq!(clients_of(&mut session), 0);
    assert!(matches!(session.next_message(1), Delivery::Finished));
    assert_eq!(session.greeted(&Connection::new()), None);
}

#[test]
fn a_client_that_is_swamped_before_its_screen_is_out_is_dropped() {
    let mut session = start();
    let mut connection = Connection::new();
    say(&mut session, &mut connection, ClientMsg::Attach { cols: COLS, rows: ROWS });
    for _ in 0..=OUTBOUND_QUEUE {
        assert!(session.output(b"."));
    }
    assert_eq!(session.greeted(&connection), None);
    assert_eq!(clients_of(&mut session), 0);
}

#[test]
fn attaching_again_over_one_connection_is_still_one_client() {
    let mut session = start();
    let mut other = Connection::new();
    let other_id = attach(&mut session, &mut other);

    let mut connection = Connection::new();
    let first = attach(&mut session, &mut connection);
    session.output(b"one");
    let (second, greeting) = welcome(&mut session, &mut connection);
    assert_ne!(first, second);
    assert_eq!(clients_of(&mut session), 2);

    // The first one gets what was queued for it, and nothing more; the second one goes on.
    session.output(b" two");
    assert_eq!(deliveries(&mut session, first), vec![ServerMsg::Output(b"one".to_vec())]);
    assert_eq!(painted(&[greeting]), "one");
    assert_eq!(deliveries(&mut session, second), vec![ServerMsg::Output(b" two".to_vec())]);

    assert!(matches!(say(&mut session, &mut connection, ClientMsg::Detach), Action::HangUp));
    session.hang_up(connection);
    assert_eq!(clients_of(&mut session), 1);
    session.output(b" three");
    assert_eq!(deliveries(&mut session, first), vec![]);
    assert_eq!(deliveries(&mut session, second), vec![]);
    assert_eq!(deliveries(&mut session, other_id).len(), 3);
}

#[test]
fn output_that_the_model_does_not_take_goes_nowhere() {
    let mut session = start();
    let mut connection = Connection::new();
    let id = attach(&mut session, &mut connection);
    session.resize(4, 1);
    assert!(session.output(b"abcd"));
    assert!(!session.output(b"ef"));
    assert_eq!(session.capture_text(), "abcd");
    assert_eq!(deliveries(&mut session, id), vec![ServerMsg::Output(b"abcd".to_vec())]);
}

#[test]
fn a_screen_that_cannot_be_serialised_is_not_handed_out() {
    let mut session = start();
    // The cursor is saved beyond what a smaller window has, and restored there.
    assert!(session.output(b"\x1b[20;50H\x1b7"));
    session.resize(10, 5);
    assert!(session.output(b"\x1b8"));
    assert_eq!(session.repaint(), None);
    let mut connection = Connection::new();
    match say(&mut session, &mut connection, ClientMsg::Attach { cols: 10, rows: 5 }) {
        Action::CannotShow { resize } => assert_eq!(resize, None),
        other => panic!("expected no screen, got {other:?}"),
    }
    assert_eq!(session.greeted(&connection), None);
    session.hang_up(connection);
    assert_eq!(clients_of(&mut session), 0);

    // Another size brings the cursor back.
    let mut connection = Connection::new();
    match say(&mut session, &mut connection, ClientMsg::Attach { cols: 11, rows: 5 }) {
        Action::Greet { resize, .. } => assert_eq!(resize, Some(Size { cols: 11, rows: 5 })),
        other => panic!("expected a screen, got {other:?}"),
    }
}
