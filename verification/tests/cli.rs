use wmux::cli::{
    breakaway_warning, cmd_attach, cmd_detach, cmd_keys, cmd_kill, cmd_ls, cmd_new, cmd_run,
    cmd_send, default_shell, finish_attach, hex_bytes, keys_prefix_line, not_started_message,
    printed, server_arguments, session_command, spawn_flags, wait_for_session, Launch, NewError,
    PickError, StartStep,
};
use wmux::client::Outcome;
use wmux::input::InputParser;
use wmux::protocol::ServerMsg;
use wmux::session::NameError;

fn words(all: &[&str]) -> Vec<String> {
    all.iter().map(|w| w.to_string()).collect()
}

#[test]
fn new_sessions_get_the_name_asked_for() {
    assert_eq!(cmd_new(Some("build".into()), &words(&["other"])).unwrap(), "build");
    match cmd_new(Some("build".into()), &words(&["build"])) {
        Err(NewError::Running(name)) => assert_eq!(name, "build"),
        other => panic!("expected a refusal, got {other:?}"),
    }
    let err = cmd_new(Some("build".into()), &words(&["build"])).unwrap_err();
    assert_eq!(
        err.message(),
        "a session named \"build\" is already running; use `wmux attach build`"
    );
    match cmd_new(Some("a b".into()), &words(&[])) {
        Err(NewError::Name(e)) => assert_eq!(e, NameError::BadChar(' ')),
        other => panic!("expected a refusal, got {other:?}"),
    }
}

#[test]
fn new_sessions_are_numbered() {
    assert_eq!(cmd_new(None, &words(&[])).unwrap(), "wmux-0");
    assert_eq!(cmd_new(None, &words(&["wmux-1", "wmux-0", "x", "wmux-3"])).unwrap(), "wmux-2");
}

#[test]
fn the_shell_is_configurable() {
    assert_eq!(default_shell(Some(" cmd.exe ".into()), true), " cmd.exe ");
    assert_eq!(default_shell(Some(" \t".into()), true), "pwsh.exe");
    assert_eq!(default_shell(None, true), "pwsh.exe");
    assert_eq!(default_shell(None, false), "powershell.exe");
    assert_eq!(session_command(vec![], "sh".into()), vec!["sh"]);
    assert_eq!(session_command(words(&["a", "b"]), "sh".into()), vec!["a", "b"]);
}

#[test]
fn the_server_is_launched_with_its_arguments() {
    assert_eq!(
        server_arguments("build", &words(&["pwsh", "-NoProfile"]), 120, 30),
        vec![
            "server", "--name", "build", "--cols", "120", "--rows", "30", "--", "pwsh",
            "-NoProfile"
        ]
    );
    assert_eq!(
        server_arguments("b", &words(&[]), 0, 65535),
        vec!["server", "--name", "b", "--cols", "0", "--rows", "65535"]
    );
}

#[test]
fn a_refused_breakaway_is_retried_and_reported() {
    assert_eq!(spawn_flags(true), 0x0100_0208);
    assert_eq!(spawn_flags(false), 0x0000_0208);
    let launch = Launch::spawn_detached_server();
    assert_eq!(launch.flags(), Some(0x0100_0208));
    assert_eq!(launch.attempted(true), Launch::Running);
    let plain = launch.attempted(false);
    assert_eq!(plain.flags(), Some(0x0000_0208));
    assert_eq!(plain.attempted(true), Launch::RunningWithWarning);
    assert_eq!(plain.attempted(false), Launch::Failed);
    assert_eq!(Launch::Failed.flags(), None);
    assert!(breakaway_warning().contains("could not break away"));
}

#[test]
fn the_server_start_is_awaited() {
    assert_eq!(wait_for_session(false, false), StartStep::Pause);
    assert_eq!(wait_for_session(false, true), StartStep::Ready);
    assert_eq!(wait_for_session(true, true), StartStep::GiveUp);
    assert_eq!(
        not_started_message(),
        "the session server did not start within 10 seconds \
         (set WMUX_LOG=1 and check %LOCALAPPDATA%\\wmux\\wmux.log)"
    );
}

#[test]
fn the_listing_shows_geometry_and_attachment() {
    let info = |clients| ServerMsg::InfoReply {
        cols: 120,
        rows: 30,
        clients,
        command: "pwsh.exe -NoLogo".into(),
    };
    assert_eq!(cmd_ls("build", Some(info(0))), "build\t120x30\tdetached\tpwsh.exe -NoLogo");
    assert_eq!(cmd_ls("build", Some(info(2))), "build\t120x30\tattached\tpwsh.exe -NoLogo");
    assert_eq!(cmd_ls("build", Some(ServerMsg::Detached)), "build\t?");
    assert_eq!(cmd_ls("build", None), "build\t?");
}

#[test]
fn attach_needs_a_name_unless_one_session_is_running() {
    assert_eq!(cmd_attach(Some("x".into()), words(&["a", "b"])).unwrap(), "x");
    assert_eq!(cmd_attach(None, words(&["only"])).unwrap(), "only");
    let none = cmd_attach(None, words(&[])).unwrap_err();
    assert!(matches!(none, PickError::NoSessions));
    assert_eq!(none.message(), "no sessions are running; start one with `wmux new`");
    let several = cmd_attach(None, words(&["a", "b", "c"])).unwrap_err();
    assert_eq!(several.message(), "3 sessions are running; name one of: a, b, c");
}

#[test]
fn the_end_of_an_attach_is_reported() {
    assert_eq!(finish_attach("x", Outcome::Detached), ("[detached from x]".to_string(), 0));
    assert_eq!(
        finish_attach("x", Outcome::Exited(-7)),
        ("[session x exited with code -7]".to_string(), -7)
    );
    assert_eq!(
        finish_attach("x", Outcome::Exited(i32::MIN)).0,
        "[session x exited with code -2147483648]"
    );
    assert_eq!(cmd_kill("x"), "[killed x]");
    assert_eq!(cmd_detach("x"), "[detached x]");
}

#[test]
fn sent_words_end_in_enter() {
    assert_eq!(cmd_send(&words(&["echo", "hi"]), false), "echo hi\r");
    assert_eq!(cmd_send(&words(&["echo", "hi"]), true), "echo hi");
    assert_eq!(cmd_run(&words(&["1..3", "|", "measure"])), "1..3 | measure");
}

#[test]
fn results_end_in_a_line_feed() {
    assert_eq!(printed("{}".into()), "{}\n");
    assert_eq!(printed("{}\n".into()), "{}\n");
    assert_eq!(printed("".into()), "\n");
}

#[test]
fn keys_are_shown_in_hex() {
    assert_eq!(hex_bytes(&[0x00, 0x1b, 0xff]), "00 1b ff");
    assert_eq!(hex_bytes(&[]), "");
    assert_eq!(
        keys_prefix_line(0x02),
        "prefix is 0x02 (Ctrl-B); press it then 'd' to detach when attached."
    );
    let (line, quit) = cmd_keys(&mut InputParser::new(), b"a\x02~\x7f", 0x02);
    assert_eq!(line, format!("  {:<40} {}{}\r\n", "61 02 7e 7f", "a.~.", "  <- prefix seen"));
    assert!(!quit);
    let long = [0x41u8; 20];
    let (line, _) = cmd_keys(&mut InputParser::new(), &long, 0x02);
    assert_eq!(line, format!("  {:<40} {}\r\n", vec!["41"; 20].join(" "), "A".repeat(20)));
    assert!(cmd_keys(&mut InputParser::new(), &[0x11], 0x02).1);
}

#[test]
fn key_records_are_recognised() {
    let mut parser = InputParser::new();
    let record = b"\x1b[81;16;17;1;40;1_";
    assert!(cmd_keys(&mut parser, record, 0x02).1);

    // The release of the key does not end anything.
    assert!(!cmd_keys(&mut parser, b"\x1b[81;16;17;0;40;1_", 0x02).1);

    // A record may come in two reads.
    assert!(!cmd_keys(&mut parser, &record[..6], 0x02).1);
    assert!(cmd_keys(&mut parser, &record[6..], 0x02).1);

    let (line, quit) = cmd_keys(&mut parser, b"\x1b[66;48;2;1;40;1_", 0x02);
    assert!(line.ends_with("  <- prefix seen\r\n"));
    assert!(!quit);
    let (line, _) = cmd_keys(&mut parser, b"\x1b[65;30;97;1;0;1_", 0x02);
    assert!(!line.contains("prefix seen"));

    // Behind an escape, the byte alone is enough.
    assert!(cmd_keys(&mut parser, &[0x1b, 0x11], 0x02).1);
}
