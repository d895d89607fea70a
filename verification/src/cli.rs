//! The commands: what they ask for, and what they print.

use vstd::prelude::*;

use crate::client::Outcome;
use crate::input;
use crate::input::{InputParser, Key};
use crate::protocol::ServerMsg;
use crate::session;
use crate::session::NameError;
use crate::text;

verus! {

/// The server gets no console at all, so when the terminal window that launched it is closed, the
/// event that the system sends to that console never reaches the server.
pub const DETACHED_PROCESS: u32 = 0x0000_0008;

/// The server is not part of its parent's process group.
pub const CREATE_NEW_PROCESS_GROUP: u32 = 0x0000_0200;

/// Escapes a job object that would otherwise kill the server when the parent terminal exits. Not
/// every job permits breakaway, so this is best-effort.
pub const CREATE_BREAKAWAY_FROM_JOB: u32 = 0x0100_0000;

/// How long `wmux new` waits for the server to publish its pipe, in seconds.
pub const SERVER_START_TIMEOUT: u64 = 10;

/// How long to wait between two looks for the pipe of the server, in milliseconds.
pub const SERVER_START_POLL: u64 = 25;

/// Why no session was created.
#[derive(Debug)]
pub enum NewError {
    /// The session cannot have this name.
    Name(NameError),
    /// A session with this name is running.
    Running(String),
}

impl NewError {
    /// What to tell the user.
    pub open spec fn message_text(self) -> Seq<char> {
        match self {
            NewError::Name(e) => e.message_text(),
            NewError::Running(name) => "a session named "@ + text::quoted_text(name@)
                + " is already running; use `wmux attach "@ + name@ + "`"@,
        }
    }

    /// What to tell the user.
    pub fn message(&self) -> (message: String)
        ensures
            message@ == self.message_text(),
    {
        match self {
            NewError::Name(e) => e.message(),
            NewError::Running(name) => {
                let mut message: String = "a session named ".to_owned();
                message.append(text::quote_text(name.as_str()).as_str());
                message.append(" is already running; use `wmux attach ");
                message.append(name.as_str());
                message.append("`");
                message
            },
        }
    }
}

/// Whether this is the name that a new session gets, given those that are running: the one that
/// was asked for, if it is valid and free, or else the first free number.
pub open spec fn names_new_session(
    asked: Option<Seq<char>>,
    running: Seq<Seq<char>>,
    named: Result<String, NewError>,
) -> bool {
    match asked {
        Some(name) => match session::name_error(name) {
            Some(e) => named == Err::<String, NewError>(NewError::Name(e)),
            None => if running.contains(name) {
                named matches Err(NewError::Running(n)) && n@ == name
            } else {
                named matches Ok(n) && n@ == name
            },
        },
        None => named matches Ok(n) && exists|k: nat| #[trigger]
            session::first_free(running, k) && n@ == session::numbered_name(k),
    }
}

/// Decides what a new session is called.
pub fn cmd_new(asked: Option<String>, running: &Vec<String>) -> (named: Result<String, NewError>)
    ensures
        names_new_session(text::optional(asked), text::texts(running@), named),
        named matches Ok(name) ==> session::valid_name(name@) && !text::texts(
            running@,
        ).contains(name@),
{
    let name: String = match asked {
        Some(name) => {
            if let Err(e) = session::validate_name(name.as_str()) {
                return Err(NewError::Name(e));
            }
            name
        },
        None => session::next_free_name(running),
    };
    if session::has_name(running, name.as_str()) {
        return Err(NewError::Running(name));
    }
    Ok(name)
}

/// The shell to run when the user does not name a program.
pub open spec fn shell_text(setting: Option<Seq<char>>, has_pwsh: bool) -> Seq<char> {
    match setting {
        Some(shell) => if text::trimmed(shell).len() > 0 {
            shell
        } else {
            fallback_shell(has_pwsh)
        },
        None => fallback_shell(has_pwsh),
    }
}

/// PowerShell 7 where it is installed, and otherwise Windows PowerShell.
pub open spec fn fallback_shell(has_pwsh: bool) -> Seq<char> {
    if has_pwsh {
        "pwsh.exe"@
    } else {
        "powershell.exe"@
    }
}

/// Picks the shell to run when the user does not name a program, given the value of `WMUX_SHELL`
/// and whether PowerShell 7 is installed.
pub fn default_shell(setting: Option<String>, has_pwsh: bool) -> (shell: String)
    ensures
        shell@ == shell_text(text::optional(setting), has_pwsh),
{
    if let Some(shell) = setting {
        if !text::trim(shell.as_str()).as_str().is_empty() {
            return shell;
        }
    }
    if has_pwsh {
        "pwsh.exe".to_owned()
    } else {
        "powershell.exe".to_owned()
    }
}

/// What a new session runs: the program that the user named, with its arguments, or the shell.
pub fn session_command(command: Vec<String>, shell: String) -> (chosen: Vec<String>)
    ensures
        command@.len() > 0 ==> chosen@ == command@,
        command@.len() == 0 ==> chosen@ == seq![shell],
        chosen@.len() >= 1,
{
    if command.len() > 0 {
        return command;
    }
    let mut chosen: Vec<String> = Vec::new();
    chosen.push(shell);
    assert(chosen@ == seq![shell]);
    chosen
}

/// The arguments with which the session server is launched.
///
/// The `--` keeps the options of the child from being taken for those of the server.
pub open spec fn server_arguments_for(
    name: Seq<char>,
    command: Seq<Seq<char>>,
    cols: u16,
    rows: u16,
) -> Seq<Seq<char>> {
    let own = seq![
        "server"@,
        "--name"@,
        name,
        "--cols"@,
        text::decimal_text(cols as nat),
        "--rows"@,
        text::decimal_text(rows as nat),
    ];
    if command.len() > 0 {
        own.push("--"@) + command
    } else {
        own
    }
}

/// Makes the arguments with which the session server is launched.
pub fn server_arguments(name: &str, command: &Vec<String>, cols: u16, rows: u16) -> (args: Vec<
    String,
>)
    ensures
        text::texts(args@) == server_arguments_for(name@, text::texts(command@), cols, rows),
{
    let mut args: Vec<String> = Vec::new();
    args.push("server".to_owned());
    args.push("--name".to_owned());
    args.push(name.to_owned());
    args.push("--cols".to_owned());
    args.push(text::decimal(cols as u64));
    args.push("--rows".to_owned());
    args.push(text::decimal(rows as u64));
    let ghost own = server_arguments_for(name@, Seq::empty(), cols, rows);
    assert(text::texts(args@) == own);
    let ghost all = text::texts(command@);
    if command.len() > 0 {
        let ghost before = args@;
        args.push("--".to_owned());
        assert(text::texts(args@) == text::texts(before).push("--"@));
        let ghost front = text::texts(args@);
        assert(front + all.take(0) == front);
        let mut i: usize = 0;
        while i < command.len()
            invariant
                i <= command.len(),
                all == text::texts(command@),
                text::texts(args@) == front + all.take(i as int),
            decreases command.len() - i,
        {
            let ghost now = args@;
            let part: String = command[i].as_str().to_owned();
            args.push(part);
            proof {
                assert(text::texts(args@) == text::texts(now).push(all[i as int]));
                assert(all.take(i + 1) == all.take(i as int).push(all[i as int]));
                assert(front + all.take(i as int).push(all[i as int]) == (front + all.take(
                    i as int,
                )).push(all[i as int]));
            }
            i += 1;
        }
        assert(all.take(command.len() as int) == all);
    }
    args
}

/// The flags with which the session server is launched, with or without the attempt to break away
/// from the job of the launching process.
pub fn spawn_flags(breakaway: bool) -> (flags: u32)
    ensures
        breakaway ==> flags == DETACHED_PROCESS | CREATE_NEW_PROCESS_GROUP
            | CREATE_BREAKAWAY_FROM_JOB,
        !breakaway ==> flags == DETACHED_PROCESS | CREATE_NEW_PROCESS_GROUP,
{
    if breakaway {
        DETACHED_PROCESS | CREATE_NEW_PROCESS_GROUP | CREATE_BREAKAWAY_FROM_JOB
    } else {
        DETACHED_PROCESS | CREATE_NEW_PROCESS_GROUP
    }
}

/// How far the launch of the session server has come.
#[derive(Debug, Clone, Copy, PartialEq, Eq, Structural)]
pub enum Launch {
    /// Launch it with the flags that break away.
    BreakAway,
    /// A job object that forbids breakaway rejects the flag outright: launch it without.
    Plain,
    /// It runs.
    Running,
    /// It runs, but may not survive its parent: warn.
    RunningWithWarning,
    /// It does not run.
    Failed,
}

impl Launch {
    /// Starts to launch the session server.
    pub fn spawn_detached_server() -> (launch: Launch)
        ensures
            launch == Launch::BreakAway,
    {
        Launch::BreakAway
    }

    /// The stage after an attempt that succeeded or failed.
    pub open spec fn after(self, ok: bool) -> Launch {
        match self {
            Launch::BreakAway => if ok {
                Launch::Running
            } else {
                Launch::Plain
            },
            Launch::Plain => if ok {
                Launch::RunningWithWarning
            } else {
                Launch::Failed
            },
            Launch::Running => Launch::Running,
            Launch::RunningWithWarning => Launch::RunningWithWarning,
            Launch::Failed => Launch::Failed,
        }
    }

    /// Takes in whether an attempt succeeded.
    pub fn attempted(self, ok: bool) -> (next: Launch)
        ensures
            next == self.after(ok),
    {
        match self {
            Launch::BreakAway => if ok {
                Launch::Running
            } else {
                Launch::Plain
            },
            Launch::Plain => if ok {
                Launch::RunningWithWarning
            } else {
                Launch::Failed
            },
            Launch::Running => Launch::Running,
            Launch::RunningWithWarning => Launch::RunningWithWarning,
            Launch::Failed => Launch::Failed,
        }
    }

    /// The flags of the next attempt, if there is to be one.
    pub fn flags(self) -> (flags: Option<u32>)
        ensures
            flags == (match self {
                Launch::BreakAway => Some(
                    DETACHED_PROCESS | CREATE_NEW_PROCESS_GROUP | CREATE_BREAKAWAY_FROM_JOB,
                ),
                Launch::Plain => Some(DETACHED_PROCESS | CREATE_NEW_PROCESS_GROUP),
                _ => None,
            }),
    {
        match self {
            Launch::BreakAway => Some(spawn_flags(true)),
            Launch::Plain => Some(spawn_flags(false)),
            _ => None,
        }
    }
}

/// A server that could not break away is never launched silently: there is a warning exactly where
/// the first attempt failed and the second did not.
pub proof fn law_a_downgrade_is_never_silent(first: bool, second: bool)
    ensures
        Launch::BreakAway.after(first).after(second) == (if first {
            Launch::Running
        } else if second {
            Launch::RunningWithWarning
        } else {
            Launch::Failed
        }),
{
}

/// What to tell the user when the server could not break away.
pub fn breakaway_warning() -> (message: String)
    ensures
        message@
            == "wmux: warning: could not break away from the parent job object; this session may not survive its parent process exiting"@,
{
    "wmux: warning: could not break away from the parent job object; this session may not survive its parent process exiting".to_owned()
}

/// What to do next while waiting for the session server.
#[derive(Debug, Clone, Copy, PartialEq, Eq, Structural)]
pub enum StartStep {
    /// It has published its pipe.
    Ready,
    /// Wait `SERVER_START_POLL` and look again.
    Pause,
    /// The time is over.
    GiveUp,
}

/// Decides whether to go on waiting for the session server, so that `new` never races `attach`.
pub fn wait_for_session(expired: bool, live: bool) -> (step: StartStep)
    ensures
        expired ==> step == StartStep::GiveUp,
        !expired && live ==> step == StartStep::Ready,
        !expired && !live ==> step == StartStep::Pause,
{
    if expired {
        StartStep::GiveUp
    } else if live {
        StartStep::Ready
    } else {
        StartStep::Pause
    }
}

/// What to tell the user when the session server did not start.
pub fn not_started_message() -> (message: String)
    ensures
        message@ == "the session server did not start within "@ + text::decimal_text(
            SERVER_START_TIMEOUT as nat,
        ) + " seconds (set WMUX_LOG=1 and check %LOCALAPPDATA%\\wmux\\wmux.log)"@,
{
    let mut message: String = "the session server did not start within ".to_owned();
    message.append(text::decimal(SERVER_START_TIMEOUT).as_str());
    message.append(" seconds (set WMUX_LOG=1 and check %LOCALAPPDATA%\\wmux\\wmux.log)");
    message
}

/// The line about a session in the listing: its size, whether somebody is attached, and what it
/// runs. A session that went away between listing and asking, or is busy, gets a question mark.
pub open spec fn listing_text(name: Seq<char>, reply: Option<ServerMsg>) -> Seq<char> {
    match reply {
        Some(ServerMsg::InfoReply { cols, rows, clients, command }) => name + "\t"@
            + text::decimal_text(cols as nat) + "x"@ + text::decimal_text(rows as nat) + "\t"@ + (
        if clients > 0 {
            "attached"@
        } else {
            "detached"@
        }) + "\t"@ + command@,
        _ => name + "\t?"@,
    }
}

/// Makes the line about a session in the listing.
pub fn cmd_ls(name: &str, reply: Option<ServerMsg>) -> (line: String)
    ensures
        line@ == listing_text(name@, reply),
{
    let mut line: String = name.to_owned();
    match reply {
        Some(ServerMsg::InfoReply { cols, rows, clients, command }) => {
            line.append("\t");
            line.append(text::decimal(cols as u64).as_str());
            line.append("x");
            line.append(text::decimal(rows as u64).as_str());
            line.append("\t");
            if clients > 0 {
                line.append("attached");
            } else {
                line.append("detached");
            }
            line.append("\t");
            line.append(command.as_str());
        },
        _ => {
            line.append("\t?");
        },
    }
    line
}

/// Why no session was picked to attach to.
#[derive(Debug)]
pub enum PickError {
    /// None is running.
    NoSessions,
    /// Several are running: these.
    Several(Vec<String>),
}

impl PickError {
    /// What to tell the user.
    pub open spec fn message_text(self) -> Seq<char> {
        match self {
            PickError::NoSessions => "no sessions are running; start one with `wmux new`"@,
            PickError::Several(names) => text::decimal_text(names@.len())
                + " sessions are running; name one of: "@ + text::joined(
                text::texts(names@),
                ", "@,
            ),
        }
    }

    /// What to tell the user.
    pub fn message(&self) -> (message: String)
        ensures
            message@ == self.message_text(),
    {
        match self {
            PickError::NoSessions =>
                "no sessions are running; start one with `wmux new`".to_owned(),
            PickError::Several(names) => {
                let mut message: String = text::decimal(names.len() as u64);
                message.append(" sessions are running; name one of: ");
                message.append(text::join(names, ", ").as_str());
                message
            },
        }
    }
}

/// Picks the session to attach to: the one that was asked for, or else the only one that is
/// running.
pub fn cmd_attach(asked: Option<String>, running: Vec<String>) -> (picked: Result<
    String,
    PickError,
>)
    ensures
        match asked {
            Some(name) => picked == Ok::<String, PickError>(name),
            None => if running@.len() == 0 {
                picked == Err::<String, PickError>(PickError::NoSessions)
            } else if running@.len() == 1 {
                picked == Ok::<String, PickError>(running@[0])
            } else {
                picked == Err::<String, PickError>(PickError::Several(running))
            },
        },
{
    if let Some(name) = asked {
        return Ok(name);
    }
    if running.len() == 0 {
        return Err(PickError::NoSessions);
    }
    if running.len() == 1 {
        let mut names: Vec<String> = running;
        return Ok(names.remove(0));
    }
    Err(PickError::Several(running))
}

/// What the end of an attach comes to: what to print, and the exit code.
pub fn finish_attach(name: &str, outcome: Outcome) -> (end: (String, i32))
    ensures
        match outcome {
            Outcome::Detached => end.0@ == "[detached from "@ + name@ + "]"@ && end.1 == 0,
            Outcome::Exited(code) => end.0@ == "[session "@ + name@ + " exited with code "@
                + text::signed_text(code as int) + "]"@ && end.1 == code,
        },
{
    match outcome {
        Outcome::Detached => {
            let mut message: String = "[detached from ".to_owned();
            message.append(name);
            message.append("]");
            (message, 0)
        },
        Outcome::Exited(code) => {
            let mut message: String = "[session ".to_owned();
            message.append(name);
            message.append(" exited with code ");
            message.append(text::signed(code).as_str());
            message.append("]");
            (message, code)
        },
    }
}

/// The input that `wmux send` types: the words with spaces between them, and Enter, unless it is
/// not wanted.
pub fn cmd_send(keys: &Vec<String>, no_enter: bool) -> (input: String)
    ensures
        no_enter ==> input@ == text::joined(text::texts(keys@), " "@),
        !no_enter ==> input@ == text::joined(text::texts(keys@), " "@).push('\r'),
{
    let mut input: String = text::join(keys, " ");
    if !no_enter {
        // CR, not LF: that is what a terminal sends for Enter.
        input.push('\r');
    }
    input
}

/// The command that `wmux run` runs: the words with spaces between them.
pub fn cmd_run(words: &Vec<String>) -> (command: String)
    ensures
        command@ == text::joined(text::texts(words@), " "@),
{
    text::join(words, " ")
}

/// A result as it is printed: with a line feed behind it, unless it has one.
pub open spec fn printed_text(output: Seq<char>) -> Seq<char> {
    if output.len() > 0 && output.last() == '\n' {
        output
    } else {
        output.push('\n')
    }
}

/// Makes a result end in a line feed.
pub fn printed(output: String) -> (shown: String)
    ensures
        shown@ == printed_text(output@),
{
    let chars: Vec<char> = text::chars_of(output.as_str());
    let mut shown: String = output;
    if chars.len() == 0 || chars[chars.len() - 1] != '\n' {
        shown.push('\n');
    }
    shown
}

/// What to print when a session was killed.
pub fn cmd_kill(name: &str) -> (message: String)
    ensures
        message@ == "[killed "@ + name@ + "]"@,
{
    let mut message: String = "[killed ".to_owned();
    message.append(name);
    message.append("]");
    message
}

/// What to print when the clients of a session were detached.
pub fn cmd_detach(name: &str) -> (message: String)
    ensures
        message@ == "[detached "@ + name@ + "]"@,
{
    let mut message: String = "[detached ".to_owned();
    message.append(name);
    message.append("]");
    message
}

/// The key that ends `wmux keys`: Ctrl-Q.
pub const QUIT_KEY: u8 = 0x11;

/// What `wmux keys` says of the prefix key.
pub fn keys_prefix_line(prefix: u8) -> (line: String)
    requires
        prefix <= 0xbf,
    ensures
        line@ == "prefix is 0x"@ + text::byte_hex_text(prefix) + " (Ctrl-"@ + seq![
            (prefix + 0x40) as char,
        ] + "); press it then 'd' to detach when attached."@,
{
    let mut line: String = "prefix is 0x".to_owned();
    line.append(text::byte_hex(prefix).as_str());
    line.append(" (Ctrl-");
    let ghost front = line@;
    line.push((prefix + 0x40) as char);
    assert(line@ == front + seq![(prefix + 0x40) as char]);
    line.append("); press it then 'd' to detach when attached.");
    line
}

/// Bytes as pairs of hexadecimal digits, with spaces between them.
pub open spec fn hex_row(bytes: Seq<u8>) -> Seq<char> {
    text::joined(Seq::new(bytes.len(), |i: int| text::byte_hex_text(bytes[i])), " "@)
}

/// Writes bytes as pairs of hexadecimal digits, with spaces between them.
pub fn hex_bytes(bytes: &[u8]) -> (row: String)
    ensures
        row@ == hex_row(bytes@),
{
    let mut pairs: Vec<String> = Vec::new();
    let mut i: usize = 0;
    while i < bytes.len()
        invariant
            i <= bytes.len(),
            pairs.len() == i,
            forall|k: int| 0 <= k < i ==> (#[trigger] pairs[k])@ == text::byte_hex_text(bytes[k]),
        decreases bytes.len() - i,
    {
        pairs.push(text::byte_hex(bytes[i]));
        i += 1;
    }
    assert(text::texts(pairs@) == Seq::new(
        bytes@.len(),
        |i: int| text::byte_hex_text(bytes@[i]),
    ));
    text::join(&pairs, " ")
}

/// A byte as a character, or a dot where it is not printable.
pub open spec fn printable_char(b: u8) -> char {
    if 0x20 <= b < 0x7f {
        b as char
    } else {
        '.'
    }
}

/// What `wmux keys` prints about one read of the console: the bytes, what is printable of them, and
/// whether the prefix was pressed. The console is in raw mode, so the line ends in CR and LF.
pub open spec fn keys_text(bytes: Seq<u8>, prefix_seen: bool) -> Seq<char> {
    "  "@ + text::padded(hex_row(bytes), 40) + " "@ + Seq::new(
        bytes.len(),
        |i: int| printable_char(bytes[i]),
    ) + (if prefix_seen {
        "  <- prefix seen"@
    } else {
        ""@
    }) + "\r\n"@
}

/// Whether the key that stands for a byte is among others.
pub open spec fn pressed(keys: Seq<input::KeyPress>, ch: u8) -> bool {
    exists|i: int| 0 <= i < keys.len() && (#[trigger] keys[i]).ch == Some(ch)
}

/// Looks for the key that stands for a byte.
fn has_key(keys: &Vec<Key>, ch: u8) -> (found: bool)
    ensures
        found == pressed(input::presses(keys@), ch),
{
    let ghost all = input::presses(keys@);
    let mut i: usize = 0;
    while i < keys.len()
        invariant
            i <= keys.len(),
            all == input::presses(keys@),
            forall|k: int| 0 <= k < i ==> (#[trigger] all[k]).ch != Some(ch),
        decreases keys.len() - i,
    {
        assert(all[i as int].ch == keys[i as int].ch);
        if let Some(c) = keys[i].ch {
            if c == ch {
                return true;
            }
        }
        i += 1;
    }
    false
}

/// Whether a key is seen in one read of the console, in either form in which it comes: as its byte,
/// whatever stands before it, or as a key record, which may have begun in an earlier read.
pub open spec fn key_seen(pending: Seq<u8>, bytes: Seq<u8>, ch: u8) -> bool {
    bytes.contains(ch) || pressed(input::decoded(pending + bytes).keys, ch)
}

/// Whether a byte is among others.
fn has_byte(bytes: &[u8], b: u8) -> (found: bool)
    ensures
        found == bytes@.contains(b),
{
    let mut i: usize = 0;
    while i < bytes.len()
        invariant
            i <= bytes.len(),
            forall|k: int| 0 <= k < i ==> bytes[k] != b,
        decreases bytes.len() - i,
    {
        if bytes[i] == b {
            return true;
        }
        i += 1;
    }
    false
}

/// Makes what `wmux keys` prints about one read of the console, and decides whether it ends.
pub fn cmd_keys(parser: &mut InputParser, bytes: &[u8], prefix: u8) -> (row: (String, bool))
    ensures
        row.0@ == keys_text(bytes@, key_seen(old(parser).pending(), bytes@, prefix)),
        row.1 == key_seen(old(parser).pending(), bytes@, QUIT_KEY),
        final(parser).pending() == input::decoded(old(parser).pending() + bytes@).rest,
{
    let keys: Vec<Key> = parser.feed(bytes);
    let mut line: String = "  ".to_owned();
    line.append(text::pad(hex_bytes(bytes).as_str(), 40).as_str());
    line.append(" ");
    let ghost front = line@;
    let ghost shown = Seq::new(bytes@.len(), |i: int| printable_char(bytes@[i]));
    assert(front + shown.take(0) == front);
    let mut i: usize = 0;
    while i < bytes.len()
        invariant
            i <= bytes.len(),
            shown == Seq::new(bytes@.len(), |i: int| printable_char(bytes@[i])),
            line@ == front + shown.take(i as int),
        decreases bytes.len() - i,
    {
        let b: u8 = bytes[i];
        let c: char = if 0x20 <= b && b < 0x7f {
            b as char
        } else {
            '.'
        };
        line.push(c);
        assert(shown.take(i + 1) == shown.take(i as int).push(c));
        i += 1;
    }
    assert(shown.take(bytes.len() as int) == shown);
    if has_byte(bytes, prefix) || has_key(&keys, prefix) {
        line.append("  <- prefix seen");
    } else {
        line.append("");
    }
    line.append("\r\n");
    (line, has_byte(bytes, QUIT_KEY) || has_key(&keys, QUIT_KEY))
}

/// The line about a session says whether somebody is attached: it is the same for one terminal and
/// for any larger number, and another one where there is none. Nothing else in it depends on how
/// many there are.
pub proof fn law_the_listing_tells_attached_from_detached(
    name: Seq<char>,
    cols: u16,
    rows: u16,
    one: u32,
    more: u32,
    command: String,
)
    requires
        one >= 1,
        more >= 1,
    ensures
        ({
            let line = |clients: u32|
                listing_text(name, Some(ServerMsg::InfoReply { cols, rows, clients, command }));
            let front = name + "\t"@ + text::decimal_text(cols as nat) + "x"@ + text::decimal_text(
                rows as nat,
            ) + "\t"@;
            &&& line(one) == line(more)
            &&& line(0) != line(one)
            &&& line(one) == front + "attached"@ + "\t"@ + command@
            &&& line(0) == front + "detached"@ + "\t"@ + command@
        }),
{
    reveal_strlit("attached");
    reveal_strlit("detached");
    let front = name + "\t"@ + text::decimal_text(cols as nat) + "x"@ + text::decimal_text(
        rows as nat,
    ) + "\t"@;
    let attached = front + "attached"@ + "\t"@ + command@;
    let detached = front + "detached"@ + "\t"@ + command@;
    assert(attached[front.len() as int] == 'a');
    assert(detached[front.len() as int] == 'd');
}

/// A session that does not say how it is gets a question mark: one that did not answer, and one
/// that answered something else.
pub proof fn law_silent_sessions_are_listed_with_a_question_mark(
    name: Seq<char>,
    reply: Option<ServerMsg>,
)
    requires
        !(reply matches Some(ServerMsg::InfoReply { .. })),
    ensures
        listing_text(name, reply) == name + "\t?"@,
{
}

/// A session that is asked for by a name that is valid and free gets that name; where it is taken,
/// the error names it; and without a name it gets `wmux-` and the smallest number that is free.
pub proof fn law_new_sessions_get_their_names(
    asked: Option<Seq<char>>,
    running: Seq<Seq<char>>,
    named: Result<String, NewError>,
)
    requires
        names_new_session(asked, running, named),
    ensures
        asked matches Some(name) ==> (session::name_error(name) is None && !running.contains(name)
            ==> (named matches Ok(n) && n@ == name)),
        asked matches Some(name) ==> (session::name_error(name) is None && running.contains(name)
            ==> (named matches Err(NewError::Running(n)) && n@ == name)),
        asked matches Some(name) ==> (session::name_error(name) matches Some(e) ==> (named matches Err(
            NewError::Name(got),
        ) && got == e)),
        asked is None ==> (named matches Ok(n) && exists|k: nat|
            n@ == "wmux-"@ + #[trigger] text::decimal_text(k) && !running.contains(n@) && (forall|
                m: nat,
            |
                m < k ==> running.contains("wmux-"@ + #[trigger] text::decimal_text(m)))),
{
    if asked is None {
        let k = choose|k: nat| #[trigger]
            session::first_free(running, k) && named->Ok_0@ == session::numbered_name(k);
        assert(named->Ok_0@ == "wmux-"@ + text::decimal_text(k));
        assert forall|m: nat| m < k implies running.contains(
            "wmux-"@ + #[trigger] text::decimal_text(m),
        ) by {
            assert(running.contains(session::numbered_name(m)));
        }
    }
}

/// The shell that the user set is run as it was written, whatever is installed, unless there is
/// nothing but white space in it. Where none is set, it is PowerShell 7, or else Windows
/// PowerShell.
pub proof fn law_the_shell_that_is_set_is_run(setting: Seq<char>, has_pwsh: bool)
    ensures
        (exists|i: int| 0 <= i < setting.len() && !text::white_space(#[trigger] setting[i]))
            ==> shell_text(Some(setting), has_pwsh) == setting,
        (forall|i: int| 0 <= i < setting.len() ==> text::white_space(#[trigger] setting[i]))
            ==> shell_text(Some(setting), has_pwsh) == shell_text(None, has_pwsh),
        shell_text(None, true) == "pwsh.exe"@,
        shell_text(None, false) == "powershell.exe"@,
{
    text::law_only_white_space_is_trimmed_away(setting);
}

/// The server is told the name and the size, each behind its option, and the command comes last,
/// word for word, behind `--`, so that no word of it is taken for an option of the server.
pub proof fn law_the_command_is_handed_over_word_for_word(
    name: Seq<char>,
    command: Seq<Seq<char>>,
    cols: u16,
    rows: u16,
)
    ensures
        ({
            let args = server_arguments_for(name, command, cols, rows);
            &&& args[0] == "server"@
            &&& args[1] == "--name"@ && args[2] == name
            &&& args[3] == "--cols"@ && args[4] == text::decimal_text(cols as nat)
            &&& args[5] == "--rows"@ && args[6] == text::decimal_text(rows as nat)
            &&& command.len() == 0 ==> args.len() == 7
            &&& command.len() > 0 ==> args[7] == "--"@ && args.skip(8) == command
        }),
{
    let args = server_arguments_for(name, command, cols, rows);
    if command.len() > 0 {
        assert(args.skip(8) == command);
    }
}

/// A launch that has come to its end stays there, and one that has not has flags for another
/// attempt: the first with the flag that breaks away, the second without it.
pub proof fn law_a_launch_is_tried_twice_at_most(ok: bool, again: bool, flags: Option<u32>)
    requires
        call_ensures(Launch::flags, (Launch::BreakAway.after(ok),), flags),
    ensures
        flags is Some <==> !ok,
        flags matches Some(f) ==> f & 0x0100_0000u32 == 0 && f & 0x208u32 == 0x208,
        Launch::BreakAway.after(ok).after(again).after(ok) == Launch::BreakAway.after(ok).after(
            again,
        ),
        Launch::BreakAway.after(true).after(again) == Launch::BreakAway.after(true),
{
    assert((0x8u32 | 0x200u32) & 0x0100_0000u32 == 0) by (bit_vector);
    assert((0x8u32 | 0x200u32) & 0x208u32 == 0x208) by (bit_vector);
}

/// What is printed ends in exactly the line feed that it had, or in one more where it had none; to
/// print it again changes nothing.
pub proof fn law_printed_results_end_in_a_line_feed(output: Seq<char>)
    ensures
        printed_text(output).len() > 0,
        printed_text(output).last() == '\n',
        printed_text(output.push('\n')) == output.push('\n'),
        !(output.len() > 0 && output.last() == '\n') ==> printed_text(output) == output.push('\n'),
        printed_text(printed_text(output)) == printed_text(output),
{
}

/// How an attach ended decides what is printed and the exit code: a detach is a success, and the
/// exit code of the session is handed on, whichever it is.
pub proof fn law_the_exit_code_of_the_session_is_handed_on(
    name: &str,
    code: i32,
    exited: (String, i32),
    detached: (String, i32),
)
    requires
        call_ensures(finish_attach, (name, Outcome::Exited(code)), exited),
        call_ensures(finish_attach, (name, Outcome::Detached), detached),
    ensures
        exited.1 == code,
        detached.1 == 0,
        exited.0@ == "[session "@ + name@ + " exited with code "@ + text::signed_text(code as int)
            + "]"@,
        detached.0@ == "[detached from "@ + name@ + "]"@,
{
}

/// What `wmux send` types ends in one carriage return, unless it is not wanted; in front of it are
/// the words, in order.
pub proof fn law_sent_words_are_typed_and_entered(
    keys: &Vec<String>,
    entered: String,
    plain: String,
)
    requires
        call_ensures(cmd_send, (keys, false), entered),
        call_ensures(cmd_send, (keys, true), plain),
    ensures
        entered@ == plain@.push('\r'),
        plain@ == text::joined(text::texts(keys@), " "@),
{
}

/// A session that is asked for is picked, whatever is running; otherwise one is picked only where
/// it is the only one.
pub proof fn law_the_only_session_is_picked(
    name: String,
    running: Vec<String>,
    asked: Result<String, PickError>,
    picked: Result<String, PickError>,
)
    requires
        call_ensures(cmd_attach, (Some(name), running), asked),
        call_ensures(cmd_attach, (None, running), picked),
    ensures
        asked == Ok::<String, PickError>(name),
        picked is Ok <==> running@.len() == 1,
        picked matches Ok(n) ==> n == running@[0],
        picked matches Err(PickError::NoSessions) <==> running@.len() == 0,
        picked matches Err(PickError::Several(names)) ==> names == running,
{
}

/// What the user names is run as it is; the shell only where nothing is named.
pub proof fn law_a_named_program_is_run(command: Vec<String>, shell: String, chosen: Vec<String>)
    requires
        call_ensures(session_command, (command, shell), chosen),
    ensures
        command@.len() > 0 ==> chosen@ == command@,
        command@.len() == 0 ==> chosen@ == seq![shell],
{
}

/// `wmux new` goes on exactly where the session is there in time.
pub proof fn law_new_waits_for_the_session(expired: bool, live: bool, step: StartStep)
    requires
        call_ensures(wait_for_session, (expired, live), step),
    ensures
        step == StartStep::Ready <==> live && !expired,
        step == StartStep::GiveUp <==> expired,
{
}

/// A key is seen where its byte is read, and where a record of its press is, also one that began
/// in an earlier read; a release is not seen.
pub proof fn law_keys_are_seen_in_both_forms(
    pending: Seq<u8>,
    before: Seq<u8>,
    behind: Seq<u8>,
    ch: u8,
    record: input::KeyRecord,
    cut: int,
)
    requires
        0 <= cut <= record.bytes().len(),
        1 <= ch,
    ensures
        key_seen(pending, before + seq![ch] + behind, ch),
        record.kd == 1 && record.uc == ch ==> key_seen(
            record.bytes().take(cut),
            record.bytes().skip(cut),
            ch,
        ),
        record.kd == 0 && !record.bytes().contains(ch) ==> !key_seen(
            Seq::empty(),
            record.bytes(),
            ch,
        ),
{
    assert((before + seq![ch] + behind)[before.len() as int] == ch);
    input::law_key_records_are_recognised(
        record.vk,
        record.sc,
        record.uc,
        record.kd,
        record.cs,
        record.rc,
    );
    let bytes = record.bytes();
    assert(bytes.take(cut) + bytes.skip(cut) == bytes);
    assert(Seq::<u8>::empty() + bytes == bytes);
    let keys = input::decoded(bytes).keys;
    if record.kd == 1 && record.uc == ch {
        assert(keys[0].ch == Some(ch));
    }
}

/// What `wmux keys` prints about a read: every byte, in order, as two digits and as what it looks
/// like, and the mark where the prefix was seen, in a line that ends in CR and LF.
pub proof fn law_every_byte_is_printed(bytes: Seq<u8>, b: u8)
    ensures
        hex_row(seq![b]) == text::byte_hex_text(b),
        bytes.len() > 0 ==> hex_row(bytes.push(b)) == hex_row(bytes) + " "@ + text::byte_hex_text(
            b,
        ),
        0x20 <= b <= 0x7e ==> printable_char(b) as u32 == b as u32,
        b < 0x20 || b >= 0x7f ==> printable_char(b) == '.',
        keys_text(bytes, true) != keys_text(bytes, false),
        text::holds(keys_text(bytes, true), "  <- prefix seen"@),
        text::holds(
            keys_text(bytes, false),
            Seq::new(bytes.len(), |i: int| printable_char(bytes[i])),
        ),
        text::stands_at(keys_text(bytes, false), hex_row(bytes), 2),
        keys_text(bytes, true).last() == '\n',
{
    let row = |s: Seq<u8>| Seq::new(s.len(), |i: int| text::byte_hex_text(s[i]));
    reveal_with_fuel(text::joined, 2);
    assert(row(seq![b])[0] == text::byte_hex_text(b));
    assert(row(bytes.push(b)).drop_last() == row(bytes));
    assert(row(bytes.push(b)).last() == text::byte_hex_text(b));
    reveal_strlit("  <- prefix seen");
    reveal_strlit("");
    reveal_strlit("\r\n");
    reveal_strlit("  ");
    let shown = Seq::new(bytes.len(), |i: int| printable_char(bytes[i]));
    let padding = text::padded(hex_row(bytes), 40);
    let front = "  "@ + padding + " "@;
    text::lemma_holds_in_whole(front + shown, "  <- prefix seen"@, "\r\n"@);
    text::lemma_holds_in_whole(front, shown, ""@ + "\r\n"@);
    assert(front + shown + (""@ + "\r\n"@) == keys_text(bytes, false));
    assert(keys_text(bytes, true).len() == keys_text(bytes, false).len() + 16);
    let hex = hex_row(bytes);
    assert(padding.take(hex.len() as int) == hex);
    assert(keys_text(bytes, false).subrange(2, 2 + hex.len() as int) == hex);
}

/// The first attempt is made with all three flags, and it is the first.
pub proof fn law_the_first_attempt_breaks_away(
    start: Launch,
    flags: Option<u32>,
    away: u32,
    plain: u32,
)
    requires
        call_ensures(Launch::spawn_detached_server, (), start),
        call_ensures(Launch::flags, (start,), flags),
        call_ensures(spawn_flags, (true,), away),
        call_ensures(spawn_flags, (false,), plain),
    ensures
        flags == Some(0x0100_0208u32),
        away == 0x0100_0208,
        plain == 0x208,
        start.after(true) == Launch::Running,
        start.after(false).after(true) == Launch::RunningWithWarning,
        start.after(false).after(false) == Launch::Failed,
{
    assert(0x8u32 | 0x200u32 | 0x0100_0000u32 == 0x0100_0208u32) by (bit_vector);
    assert(0x8u32 | 0x200u32 == 0x208u32) by (bit_vector);
}

/// The words for sessions that are not made, not picked, or not started.
pub proof fn law_the_words_of_the_commands(
    name: String,
    names: Vec<String>,
    error: NameError,
    warning: String,
    late: String,
)
    requires
        call_ensures(breakaway_warning, (), warning),
        call_ensures(not_started_message, (), late),
    ensures
        NewError::Running(name).message_text() == "a session named "@ + text::quoted_text(name@)
            + " is already running; use `wmux attach "@ + name@ + "`"@,
        NewError::Name(error).message_text() == error.message_text(),
        PickError::NoSessions.message_text()
            == "no sessions are running; start one with `wmux new`"@,
        PickError::Several(names).message_text() == text::decimal_text(names@.len())
            + " sessions are running; name one of: "@ + text::joined(text::texts(names@), ", "@),
        warning@
            == "wmux: warning: could not break away from the parent job object; this session may not survive its parent process exiting"@,
        late@ == "the session server did not start within "@ + text::decimal_text(10)
            + " seconds (set WMUX_LOG=1 and check %LOCALAPPDATA%\\wmux\\wmux.log)"@,
        SERVER_START_TIMEOUT == 10,
        SERVER_START_POLL == 25,
        QUIT_KEY == 0x11,
{
}

/// The words for what was done.
pub proof fn law_what_was_done_is_said(
    name: &str,
    words: &Vec<String>,
    killed: String,
    detached: String,
    command: String,
    output: String,
    shown: String,
)
    requires
        call_ensures(cmd_kill, (name,), killed),
        call_ensures(cmd_detach, (name,), detached),
        call_ensures(cmd_run, (words,), command),
        call_ensures(printed, (output,), shown),
    ensures
        killed@ == "[killed "@ + name@ + "]"@,
        detached@ == "[detached "@ + name@ + "]"@,
        command@ == text::joined(text::texts(words@), " "@),
        shown@ == printed_text(output@),
        shown@.last() == '\n',
{
}

/// What `wmux keys` says of the prefix: its byte, and the letter that it is pressed with.
pub proof fn law_the_prefix_is_named(prefix: u8, line: String)
    requires
        prefix < 0x20,
        call_ensures(keys_prefix_line, (prefix,), line),
    ensures
        ({
            let front = "prefix is 0x"@ + text::byte_hex_text(prefix) + " (Ctrl-"@;
            let letter = line@[front.len() as int];
            &&& line@.take(front.len() as int) == front
            &&& letter as u32 == prefix + 64
            &&& line@.skip(front.len() as int + 1)
                == "); press it then 'd' to detach when attached."@
        }),
{
    let front = "prefix is 0x"@ + text::byte_hex_text(prefix) + " (Ctrl-"@;
    let back = "); press it then 'd' to detach when attached."@;
    let letter = (prefix + 0x40) as char;
    assert(line@ == front + seq![letter] + back);
    assert(line@.take(front.len() as int) == front);
    assert(line@.skip(front.len() as int + 1) == back);
}

/// A line of `wmux keys`, from its start to its end.
pub proof fn law_a_line_of_keys(bytes: Seq<u8>)
    ensures
        ({
            let front = "  "@ + text::padded(hex_row(bytes), 40) + " "@ + Seq::new(
                bytes.len(),
                |i: int| printable_char(bytes[i]),
            );
            &&& keys_text(bytes, true) == front + "  <- prefix seen"@ + "\r\n"@
            &&& keys_text(bytes, false) == front + "\r\n"@
        }),
{
    reveal_strlit("");
    let front = "  "@ + text::padded(hex_row(bytes), 40) + " "@ + Seq::new(
        bytes.len(),
        |i: int| printable_char(bytes[i]),
    );
    assert(front + ""@ == front);
}

/// A key that is not among what is typed is not seen.
pub proof fn law_other_keys_are_not_seen(bytes: Seq<u8>, ch: u8)
    requires
        forall|i: int| 0 <= i < bytes.len() ==> #[trigger] bytes[i] != ch && bytes[i] != 0x1b,
    ensures
        !key_seen(Seq::empty(), bytes, ch),
{
    assert(Seq::<u8>::empty() + bytes == bytes);
    input::law_typing_is_read_byte_by_byte(bytes);
    if bytes.contains(ch) {
        let i = choose|i: int| 0 <= i < bytes.len() && bytes[i] == ch;
        assert(bytes[i] != ch);
    }
    let keys = input::decoded(bytes).keys;
    assert forall|i: int| 0 <= i < keys.len() implies (#[trigger] keys[i]).ch != Some(ch) by {
        assert(bytes[i] != ch);
    }
}

/// A session that is asked to be made gets its name, and the shell and the listing are what they are
/// said to be.
pub proof fn law_commands_do_what_they_say(
    asked: Option<String>,
    running: &Vec<String>,
    named: Result<String, NewError>,
    setting: Option<String>,
    has_pwsh: bool,
    shell: String,
    name: &str,
    reply: Option<ServerMsg>,
    line: String,
    bytes: &[u8],
    row: String,
)
    requires
        call_ensures(cmd_new, (asked, running), named),
        call_ensures(default_shell, (setting, has_pwsh), shell),
        call_ensures(cmd_ls, (name, reply), line),
        call_ensures(hex_bytes, (bytes,), row),
    ensures
        asked matches Some(n) ==> (session::valid_name(n@) && !text::texts(running@).contains(n@)
            ==> (named matches Ok(got) && got@ == n@)),
        asked is None ==> named is Ok,
        named matches Ok(got) ==> session::valid_name(got@) && !text::texts(running@).contains(
            got@,
        ),
        setting matches Some(s) ==> shell@ == shell_text(Some(s@), has_pwsh),
        setting is None ==> shell@ == (if has_pwsh {
            "pwsh.exe"@
        } else {
            "powershell.exe"@
        }),
        line@ == listing_text(name@, reply),
        row@ == hex_row(bytes@),
{
}

/// What `wmux keys` does about one read: it prints every byte, marks the prefix where it was pressed,
/// and ends where Ctrl-Q was, as a byte or as a record.
pub proof fn law_keys_are_printed_until_ctrl_q(
    parser: &mut InputParser,
    bytes: &[u8],
    prefix: u8,
    row: (String, bool),
)
    requires
        old(parser).pending().len() == 0,
        call_ensures(cmd_keys, (parser, bytes, prefix), row),
    ensures
        bytes@.contains(0x11) ==> row.1,
        bytes@.contains(prefix) ==> row.0@ == keys_text(bytes@, true),
        (forall|i: int|
            0 <= i < bytes@.len() ==> #[trigger] bytes@[i] != 0x11 && bytes@[i] != 0x1b)
            ==> !row.1,
        (forall|i: int|
            0 <= i < bytes@.len() ==> #[trigger] bytes@[i] != prefix && bytes@[i] != 0x1b)
            ==> row.0@ == keys_text(bytes@, false),
        final(parser).pending() == input::decoded(bytes@).rest,
{
    assert(old(parser).pending() + bytes@ == bytes@);
    assert(old(parser).pending() == Seq::<u8>::empty());
    if forall|i: int| 0 <= i < bytes@.len() ==> #[trigger] bytes@[i] != 0x11 && bytes@[i] != 0x1b {
        law_other_keys_are_not_seen(bytes@, 0x11);
    }
    if forall|i: int|
        0 <= i < bytes@.len() ==> #[trigger] bytes@[i] != prefix && bytes@[i] != 0x1b {
        law_other_keys_are_not_seen(bytes@, prefix);
    }
}

/// Errors are told in their words, and the server is launched with its arguments, stage by stage.
pub proof fn law_launching_and_its_errors(
    new: &NewError,
    pick: &PickError,
    first: String,
    second: String,
    launch: Launch,
    ok: bool,
    next: Launch,
    name: &str,
    command: &Vec<String>,
    cols: u16,
    rows: u16,
    args: Vec<String>,
)
    requires
        call_ensures(NewError::message, (new,), first),
        call_ensures(PickError::message, (pick,), second),
        call_ensures(Launch::attempted, (launch, ok), next),
        call_ensures(server_arguments, (name, command, cols, rows), args),
    ensures
        first@ == new.message_text(),
        second@ == pick.message_text(),
        next == launch.after(ok),
        text::texts(args@) == server_arguments_for(name@, text::texts(command@), cols, rows),
{
}

} // verus!
