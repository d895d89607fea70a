//! Named pipe transport: what to ask the system for, and what to make of its answers.
//!
//! # Why overlapped I/O
//!
//! A connection is full duplex and genuinely concurrent: one thread streams pty output to the
//! client while another reads the client's keystrokes. On Windows a handle opened in synchronous
//! mode serialises every operation, so a blocking read would stall a concurrent write on the same
//! handle and deadlock the session. `FILE_FLAG_OVERLAPPED` removes that serialisation; an
//! operation then either answers at once or says that it is pending, and is awaited.
//!
//! # Access control
//!
//! The pipe is created with an explicit DACL granting access to SYSTEM, Administrators, and the
//! creating user only. The first instance is created with `FILE_FLAG_FIRST_PIPE_INSTANCE` so that
//! a squatter who already owns the name causes a hard failure instead of silently intercepting the
//! session.

use vstd::prelude::*;

verus! {

/// Bytes may flow both ways.
pub const PIPE_ACCESS_DUPLEX: u32 = 0x0000_0003;

/// Operations on the handle may be pending.
pub const FILE_FLAG_OVERLAPPED: u32 = 0x4000_0000;

/// Creating the instance fails where the name is already taken.
pub const FILE_FLAG_FIRST_PIPE_INSTANCE: u32 = 0x0008_0000;

/// The pipe carries bytes, not messages.
pub const PIPE_TYPE_BYTE: u32 = 0x0000_0000;

/// Bytes are read as they come.
pub const PIPE_READMODE_BYTE: u32 = 0x0000_0000;

/// Operations block until they are done.
pub const PIPE_WAIT: u32 = 0x0000_0000;

/// Nobody connects from another machine.
pub const PIPE_REJECT_REMOTE_CLIENTS: u32 = 0x0000_0008;

/// Space for bytes on their way, in either direction.
pub const PIPE_BUFFER_BYTES: u32 = 65536;

/// Read access.
pub const GENERIC_READ: u32 = 0x8000_0000;

/// Write access.
pub const GENERIC_WRITE: u32 = 0x4000_0000;

/// The flags say how far the server may act in the client's name.
pub const SECURITY_SQOS_PRESENT: u32 = 0x0010_0000;

/// The server may learn who the client is, but not act in its name.
pub const SECURITY_IDENTIFICATION: u32 = 0x0001_0000;

/// The other side has closed the pipe.
pub const ERROR_BROKEN_PIPE: u32 = 109;

/// All instances of the pipe are taken.
pub const ERROR_PIPE_BUSY: u32 = 231;

/// Nobody is at the other side.
pub const ERROR_PIPE_NOT_CONNECTED: u32 = 233;

/// There is more to read than fitted the buffer.
pub const ERROR_MORE_DATA: u32 = 234;

/// A client was faster than the wait for it.
pub const ERROR_PIPE_CONNECTED: u32 = 535;

/// The operation is pending.
pub const ERROR_IO_PENDING: u32 = 997;

/// How often a client tries to open a busy pipe.
pub const CONNECT_ATTEMPTS: u32 = 50;

/// How long a client waits for a busy pipe before it tries again, in milliseconds.
pub const BUSY_WAIT: u32 = 100;

/// The security descriptor of a session pipe, in the security descriptor definition language.
///
/// It grants full control to SYSTEM, the local Administrators group, and `sid`, and denies
/// everyone else by virtue of the DACL being protected (`P`), so that nothing inherited widens it.
pub open spec fn descriptor_text(sid: Seq<char>) -> Seq<char> {
    "D:P(A;;GA;;;SY)(A;;GA;;;BA)(A;;GA;;;"@ + sid + ")"@
}

/// The security descriptor of a session pipe that belongs to `sid`.
pub fn descriptor_for_user(sid: &str) -> (sddl: String)
    ensures
        sddl@ == descriptor_text(sid@),
{
    let mut sddl: String = "D:P(A;;GA;;;SY)(A;;GA;;;BA)(A;;GA;;;".to_owned();
    sddl.append(sid);
    sddl.append(")");
    sddl
}

/// How an instance of a session pipe is opened. Only the first one insists on a free name.
pub fn open_mode(first: bool) -> (mode: u32)
    ensures
        first ==> mode == PIPE_ACCESS_DUPLEX | FILE_FLAG_OVERLAPPED
            | FILE_FLAG_FIRST_PIPE_INSTANCE,
        !first ==> mode == PIPE_ACCESS_DUPLEX | FILE_FLAG_OVERLAPPED,
{
    let mode: u32 = PIPE_ACCESS_DUPLEX | FILE_FLAG_OVERLAPPED;
    if first {
        mode | FILE_FLAG_FIRST_PIPE_INSTANCE
    } else {
        mode
    }
}

/// What kind of pipe a session pipe is.
pub fn pipe_mode() -> (mode: u32)
    ensures
        mode == PIPE_TYPE_BYTE | PIPE_READMODE_BYTE | PIPE_WAIT | PIPE_REJECT_REMOTE_CLIENTS,
{
    PIPE_TYPE_BYTE | PIPE_READMODE_BYTE | PIPE_WAIT | PIPE_REJECT_REMOTE_CLIENTS
}

/// What a client asks for when it opens a session pipe: the access, and the flags.
///
/// `SECURITY_IDENTIFICATION` stops a compromised server from impersonating the attaching user.
pub fn client_access() -> (access: (u32, u32))
    ensures
        access.0 == GENERIC_READ | GENERIC_WRITE,
        access.1 == FILE_FLAG_OVERLAPPED | SECURITY_SQOS_PRESENT | SECURITY_IDENTIFICATION,
{
    (
        GENERIC_READ | GENERIC_WRITE,
        FILE_FLAG_OVERLAPPED | SECURITY_SQOS_PRESENT | SECURITY_IDENTIFICATION,
    )
}

/// What the system says about an operation.
#[derive(Debug, Clone, Copy, PartialEq, Eq, Structural)]
pub struct Answer {
    /// Whether the operation succeeded.
    pub ok: bool,
    /// The error code, where it did not.
    pub code: u32,
    /// How many bytes were transferred.
    pub transferred: u32,
}

/// Whether an error code says that the other side has gone away.
pub open spec fn peer_gone(code: u32) -> bool {
    code == ERROR_BROKEN_PIPE || code == ERROR_PIPE_NOT_CONNECTED
}

/// What an operation has come to.
#[derive(Debug, Clone, Copy, PartialEq, Eq, Structural)]
pub enum Progress {
    /// It is pending; its completion is to be awaited.
    Await,
    /// It is done, with this many bytes.
    Done(u32),
    /// It failed.
    Failed,
}

/// What a read has come to. That the peer has gone away is the end of the stream, not an error.
pub open spec fn read_progress(answer: Answer) -> Progress {
    if answer.ok {
        Progress::Done(answer.transferred)
    } else if answer.code == ERROR_IO_PENDING {
        Progress::Await
    } else if peer_gone(answer.code) {
        Progress::Done(0)
    } else if answer.code == ERROR_MORE_DATA {
        Progress::Done(answer.transferred)
    } else {
        Progress::Failed
    }
}

/// What an awaited read has come to.
pub open spec fn awaited_read_progress(answer: Answer) -> Progress {
    if answer.ok {
        Progress::Done(answer.transferred)
    } else if peer_gone(answer.code) {
        Progress::Done(0)
    } else {
        Progress::Failed
    }
}

/// What a write has come to.
pub open spec fn write_progress(answer: Answer) -> Progress {
    if answer.ok {
        Progress::Done(answer.transferred)
    } else if answer.code == ERROR_IO_PENDING {
        Progress::Await
    } else {
        Progress::Failed
    }
}

/// What an awaited write has come to.
pub open spec fn awaited_write_progress(answer: Answer) -> Progress {
    if answer.ok {
        Progress::Done(answer.transferred)
    } else {
        Progress::Failed
    }
}

/// What the wait for a client has come to.
pub open spec fn connect_progress(answer: Answer) -> Progress {
    if answer.ok || answer.code == ERROR_PIPE_CONNECTED {
        Progress::Done(0)
    } else if answer.code == ERROR_IO_PENDING {
        Progress::Await
    } else {
        Progress::Failed
    }
}

/// Decides what a read has come to: `awaited` says whether this is the answer to the read itself
/// or to the wait for its completion.
///
/// Byte-mode pipes should not say that there is more data, but a partial read counts as success
/// rather than an error if it ever happens.
pub fn read_bytes(answer: Answer, awaited: bool) -> (progress: Progress)
    ensures
        awaited ==> progress == awaited_read_progress(answer),
        !awaited ==> progress == read_progress(answer),
{
    if answer.ok {
        return Progress::Done(answer.transferred);
    }
    if answer.code == ERROR_IO_PENDING && !awaited {
        return Progress::Await;
    }
    if answer.code == ERROR_BROKEN_PIPE || answer.code == ERROR_PIPE_NOT_CONNECTED {
        return Progress::Done(0);
    }
    if answer.code == ERROR_MORE_DATA && !awaited {
        return Progress::Done(answer.transferred);
    }
    Progress::Failed
}

/// Decides what a write of one chunk has come to: `awaited` says whether this is the answer to the
/// write itself or to the wait for its completion.
pub fn write_chunk(answer: Answer, awaited: bool) -> (progress: Progress)
    ensures
        awaited ==> progress == awaited_write_progress(answer),
        !awaited ==> progress == write_progress(answer),
{
    if answer.ok {
        Progress::Done(answer.transferred)
    } else if answer.code == ERROR_IO_PENDING && !awaited {
        Progress::Await
    } else {
        Progress::Failed
    }
}

/// Decides whether a client has connected: `awaited` says whether this is the answer to the
/// operation itself or to the wait for its completion.
pub fn wait_for_connection(answer: Answer, awaited: bool) -> (progress: Progress)
    ensures
        awaited ==> progress == (if answer.ok {
            Progress::Done(0)
        } else {
            Progress::Failed
        }),
        !awaited ==> progress == connect_progress(answer),
{
    if answer.ok {
        Progress::Done(0)
    } else if answer.code == ERROR_PIPE_CONNECTED && !awaited {
        // A client raced in between creating the instance and waiting for one.
        Progress::Done(0)
    } else if answer.code == ERROR_IO_PENDING && !awaited {
        Progress::Await
    } else {
        Progress::Failed
    }
}

/// The pipe took nothing of what was offered.
#[derive(Debug, Clone, Copy, PartialEq, Eq, Structural)]
pub struct WriteZero;

impl WriteZero {
    /// What to tell the user.
    pub fn message(self) -> (message: String)
        ensures
            message@ == "named pipe accepted zero bytes"@,
    {
        "named pipe accepted zero bytes".to_owned()
    }
}

/// A buffer on its way through the pipe, in as many writes as it takes.
#[derive(Debug)]
pub struct Outgoing {
    buf: Vec<u8>,
    written: usize,
}

impl Outgoing {
    /// The whole buffer.
    pub closed spec fn all(&self) -> Seq<u8> {
        self.buf@
    }

    /// How many bytes have gone out.
    pub closed spec fn written(&self) -> nat {
        self.written as nat
    }

    /// The bytes that are still to go.
    pub open spec fn rest(&self) -> Seq<u8> {
        if self.written() < self.all().len() {
            self.all().skip(self.written() as int)
        } else {
            Seq::empty()
        }
    }

    /// A buffer of which nothing has gone out.
    pub fn new(buf: Vec<u8>) -> (outgoing: Outgoing)
        ensures
            outgoing.all() == buf@,
            outgoing.written() == 0,
    {
        Outgoing { buf, written: 0 }
    }

    /// What to offer to the pipe next: all that is still to go, or nothing where it is done.
    pub fn chunk(&self) -> (chunk: Option<&[u8]>)
        ensures
            match chunk {
                Some(bytes) => bytes@ == self.rest() && bytes@.len() > 0,
                None => self.rest().len() == 0,
            },
    {
        if self.written < self.buf.len() {
            let rest: &[u8] = vstd::slice::slice_subrange(
                self.buf.as_slice(),
                self.written,
                self.buf.len(),
            );
            assert(rest@ == self.rest());
            Some(rest)
        } else {
            None
        }
    }

    /// Takes in how many bytes the pipe took. None at all is an error.
    pub fn sent(&mut self, transferred: u32) -> (taken: Result<(), WriteZero>)
        requires
            old(self).written() + transferred <= usize::MAX,
        ensures
            taken is Err <==> transferred == 0,
            final(self).all() == old(self).all(),
            final(self).written() == old(self).written() + transferred,
    {
        if transferred == 0 {
            return Err(WriteZero);
        }
        self.written = self.written + transferred as usize;
        Ok(())
    }
}

/// Whatever parts of the chunks the pipe takes, the parts are the buffer: what went out and what
/// is still to go are all of it, and what a write takes is the front of what was still to go.
pub proof fn law_partial_writes_lose_nothing(before: Outgoing, after: Outgoing, transferred: u32)
    requires
        after.all() == before.all(),
        after.written() == before.written() + transferred,
        transferred <= before.rest().len(),
    ensures
        before.rest() == before.rest().take(transferred as int) + after.rest(),
        before.written() <= before.all().len() ==> before.all() == before.all().take(
            before.written() as int,
        ) + before.rest(),
{
    if before.written() < before.all().len() {
        assert(before.rest().skip(transferred as int) == before.all().skip(
            before.written() + transferred as int,
        ));
    }
}

/// What to do about a pipe that could not be opened.
#[derive(Debug, Clone, Copy, PartialEq, Eq, Structural)]
pub enum OpenStep {
    /// Wait `BUSY_WAIT` for an instance, and try again.
    WaitAndRetry,
    /// Wait `BUSY_WAIT` for an instance; that was the last attempt.
    WaitAndGiveUp,
    /// Fail with the system's error.
    Fail,
}

/// Opens a client connection, one attempt after the other.
///
/// A pipe instance may be momentarily busy while the server hands off to a fresh one; the client
/// retries across that window rather than failing.
#[derive(Debug)]
pub struct Connecting {
    attempt: u32,
}

impl Connecting {
    /// How many attempts have failed.
    pub closed spec fn failed(&self) -> nat {
        self.attempt as nat
    }

    /// Before the first attempt.
    pub fn connect() -> (connecting: Connecting)
        ensures
            connecting.failed() == 0,
    {
        Connecting { attempt: 0 }
    }

    /// Decides what to do after an attempt that failed with this error code.
    pub fn refused(&mut self, code: u32) -> (step: OpenStep)
        requires
            old(self).failed() < CONNECT_ATTEMPTS,
        ensures
            final(self).failed() == old(self).failed() + 1,
            code != ERROR_PIPE_BUSY ==> step == OpenStep::Fail,
            code == ERROR_PIPE_BUSY && final(self).failed() < CONNECT_ATTEMPTS ==> step
                == OpenStep::WaitAndRetry,
            code == ERROR_PIPE_BUSY && final(self).failed() == CONNECT_ATTEMPTS ==> step
                == OpenStep::WaitAndGiveUp,
    {
        self.attempt = self.attempt + 1;
        if code != ERROR_PIPE_BUSY {
            OpenStep::Fail
        } else if self.attempt < CONNECT_ATTEMPTS {
            OpenStep::WaitAndRetry
        } else {
            OpenStep::WaitAndGiveUp
        }
    }
}

/// What to tell the user about a pipe that could not be opened.
pub fn could_not_open_message(path: &str) -> (message: String)
    ensures
        message@ == "could not open session pipe "@ + path@,
{
    let mut message: String = "could not open session pipe ".to_owned();
    message.append(path);
    message
}

/// What to tell the user about a pipe that had no free instance.
pub fn stayed_busy_message(path: &str) -> (message: String)
    ensures
        message@ == "session pipe "@ + path@ + " stayed busy; giving up"@,
{
    let mut message: String = "session pipe ".to_owned();
    message.append(path);
    message.append(" stayed busy; giving up");
    message
}

/// What to tell the user about a pipe that could not be created.
pub fn could_not_create_message(path: &str) -> (message: String)
    ensures
        message@ == "could not create session pipe "@ + path@,
{
    let mut message: String = "could not create session pipe ".to_owned();
    message.append(path);
    message
}

/// How far the acceptance of one client has come.
///
/// There is an instance that waits for a client, and perhaps one that has one.
#[derive(Debug, Clone, Copy, PartialEq, Eq, Structural)]
pub enum Accepting {
    /// Wait until a client connects to the waiting instance.
    Wait,
    /// The wait failed: close the waiting instance.
    ClosePoisoned,
    /// Put a fresh instance in its place.
    ReplacePoisoned,
    /// A client is there: put up a fresh instance for the next one.
    CreateNext,
    /// Make a connection of the instance that has a client.
    Wrap,
    /// That failed: close it.
    CloseConnected,
    /// The end.
    End(Accepted),
}

/// How the acceptance of one client ended.
#[derive(Debug, Clone, Copy, PartialEq, Eq, Structural)]
pub enum Accepted {
    /// With a connection.
    Connection,
    /// Without one: the wait failed.
    WaitFailed,
    /// Without one: the wait failed, and the poisoned instance could not be replaced.
    NotReplaced,
    /// Without one: no fresh instance could be put up.
    NoNext,
    /// Without one: the connection could not be made.
    NotWrapped,
}

impl Accepting {
    /// The stage after this one, by whether what it asks for succeeded.
    pub open spec fn after(self, ok: bool) -> Accepting {
        match self {
            Accepting::Wait => if ok {
                Accepting::CreateNext
            } else {
                Accepting::ClosePoisoned
            },
            Accepting::ClosePoisoned => Accepting::ReplacePoisoned,
            Accepting::ReplacePoisoned => if ok {
                Accepting::End(Accepted::WaitFailed)
            } else {
                Accepting::End(Accepted::NotReplaced)
            },
            Accepting::CreateNext => if ok {
                Accepting::Wrap
            } else {
                Accepting::End(Accepted::NoNext)
            },
            Accepting::Wrap => if ok {
                Accepting::End(Accepted::Connection)
            } else {
                Accepting::CloseConnected
            },
            Accepting::CloseConnected => Accepting::End(Accepted::NotWrapped),
            Accepting::End(how) => Accepting::End(how),
        }
    }

    /// Starts to accept a client.
    ///
    /// If the wait fails the waiting instance is replaced. This matters more than it looks:
    /// anything that merely probes the pipe path opens and immediately closes a client handle,
    /// which consumes the waiting instance. Without the replacement the server would spin on a
    /// dead handle and the session would become unreachable.
    pub fn accept() -> (stage: Accepting)
        ensures
            stage == Accepting::Wait,
    {
        Accepting::Wait
    }

    /// Takes in whether what this stage asks for succeeded.
    pub fn answered(self, ok: bool) -> (next: Accepting)
        ensures
            next == self.after(ok),
    {
        match self {
            Accepting::Wait => if ok {
                Accepting::CreateNext
            } else {
                Accepting::ClosePoisoned
            },
            Accepting::ClosePoisoned => Accepting::ReplacePoisoned,
            Accepting::ReplacePoisoned => if ok {
                Accepting::End(Accepted::WaitFailed)
            } else {
                Accepting::End(Accepted::NotReplaced)
            },
            Accepting::CreateNext => if ok {
                Accepting::Wrap
            } else {
                Accepting::End(Accepted::NoNext)
            },
            Accepting::Wrap => if ok {
                Accepting::End(Accepted::Connection)
            } else {
                Accepting::CloseConnected
            },
            Accepting::CloseConnected => Accepting::End(Accepted::NotWrapped),
            Accepting::End(how) => Accepting::End(how),
        }
    }
}

/// The instances of a pipe as one acceptance sees them.
pub struct Instances {
    /// Whether an instance waits for a client.
    pub waiting: bool,
    /// How many instances are open that have no owner.
    pub orphans: nat,
    /// Whether the caller has a connection.
    pub connection: bool,
}

impl Instances {
    /// The instances after a stage.
    pub open spec fn after(self, stage: Accepting, ok: bool) -> Instances {
        match stage {
            // The instance that has a client waits for nobody any more.
            Accepting::Wait => Instances { waiting: false, orphans: self.orphans + 1, ..self },
            Accepting::ClosePoisoned => Instances { orphans: (self.orphans - 1) as nat, ..self },
            Accepting::ReplacePoisoned => Instances { waiting: ok, ..self },
            Accepting::CreateNext => Instances { waiting: ok, ..self },
            Accepting::Wrap => if ok {
                Instances { orphans: (self.orphans - 1) as nat, connection: true, ..self }
            } else {
                self
            },
            Accepting::CloseConnected => Instances { orphans: (self.orphans - 1) as nat, ..self },
            Accepting::End(_) => self,
        }
    }
}

/// Where the instances and the acceptance end up, when the stages succeed or fail as `ok` says.
pub open spec fn accepted(pipe: Instances, stage: Accepting, ok: Seq<bool>) -> (
    Instances,
    Accepting,
)
    decreases ok.len(),
{
    if ok.len() == 0 || stage is End {
        (pipe, stage)
    } else {
        accepted(pipe.after(stage, ok.first()), stage.after(ok.first()), ok.drop_first())
    }
}

/// However the acceptance of a client turns out, an instance waits for the next one behind it,
/// unless the system refused to create one; there is a connection exactly where it says so; and no
/// instance is left open that has no owner, unless the system refused to create one.
pub proof fn law_an_instance_always_waits(ok: Seq<bool>)
    requires
        ok.len() == 4,
    ensures
        ({
            let start = Instances { waiting: true, orphans: 0, connection: false };
            let (pipe, end) = accepted(start, Accepting::Wait, ok);
            match end {
                Accepting::End(how) => {
                    &&& pipe.connection <==> how == Accepted::Connection
                    &&& pipe.waiting <==> how != Accepted::NotReplaced && how != Accepted::NoNext
                    &&& how != Accepted::NoNext ==> pipe.orphans == 0
                },
                _ => false,
            }
        }),
{
    reveal_with_fuel(accepted, 5);
    let r1 = ok.drop_first();
    let r2 = r1.drop_first();
    let r3 = r2.drop_first();
    assert(r3.drop_first().len() == 0);
}

/// What the system calls by number.
pub proof fn law_the_numbers_of_the_system()
    ensures
        PIPE_ACCESS_DUPLEX == 3,
        FILE_FLAG_OVERLAPPED == 0x4000_0000,
        FILE_FLAG_FIRST_PIPE_INSTANCE == 0x8_0000,
        PIPE_TYPE_BYTE == 0,
        PIPE_READMODE_BYTE == 0,
        PIPE_WAIT == 0,
        PIPE_REJECT_REMOTE_CLIENTS == 8,
        GENERIC_READ == 0x8000_0000,
        GENERIC_WRITE == 0x4000_0000,
        SECURITY_SQOS_PRESENT == 0x10_0000,
        SECURITY_IDENTIFICATION == 0x1_0000,
        ERROR_BROKEN_PIPE == 109,
        ERROR_PIPE_BUSY == 231,
        ERROR_PIPE_NOT_CONNECTED == 233,
        ERROR_MORE_DATA == 234,
        ERROR_PIPE_CONNECTED == 535,
        ERROR_IO_PENDING == 997,
        PIPE_BUFFER_BYTES == 65536,
        CONNECT_ATTEMPTS == 50,
        BUSY_WAIT == 100,
{
}

/// A pipe is open to the system, the administrators and its user, each with full control, and to
/// nobody else: the list is protected.
pub proof fn law_the_pipe_belongs_to_its_user(sid: &str, sddl: String)
    requires
        call_ensures(descriptor_for_user, (sid,), sddl),
    ensures
        sddl@ == "D:P(A;;GA;;;SY)(A;;GA;;;BA)(A;;GA;;;"@ + sid@ + ")"@,
{
}

/// The bits of a pipe: both instances carry bytes both ways, and may be pending; only the first one
/// insists on a free name; and nobody connects from another machine.
pub proof fn law_bits_of_an_instance(first: u32, later: u32, mode: u32)
    requires
        call_ensures(open_mode, (true,), first),
        call_ensures(open_mode, (false,), later),
        call_ensures(pipe_mode, (), mode),
    ensures
        later == 0x4000_0003,
        first == 0x4008_0003,
        mode == 8,
{
    assert(3u32 | 0x4000_0000u32 == 0x4000_0003u32) by (bit_vector);
    assert(3u32 | 0x4000_0000u32 | 0x8_0000u32 == 0x4008_0003u32) by (bit_vector);
    assert(0u32 | 0u32 | 0u32 | 8u32 == 8u32) by (bit_vector);
}

/// The bits of a client: it reads and writes, may be pending, and lets the server know who it is
/// but not act in its name.
pub proof fn law_bits_of_a_client(access: (u32, u32))
    requires
        call_ensures(client_access, (), access),
    ensures
        access == (0xc000_0000u32, 0x4011_0000u32),
{
    assert(0x8000_0000u32 | 0x4000_0000u32 == 0xc000_0000u32) by (bit_vector);
    assert(0x4000_0000u32 | 0x10_0000u32 | 0x1_0000u32 == 0x4011_0000u32) by (bit_vector);
}

/// What a read comes to, by the number that the system answers: bytes, the end of the stream where
/// the peer has gone, a wait where it is pending, and otherwise an error.
pub proof fn law_what_a_read_comes_to(answer: Answer, at_once: Progress, awaited: Progress)
    requires
        call_ensures(read_bytes, (answer, false), at_once),
        call_ensures(read_bytes, (answer, true), awaited),
    ensures
        answer.ok ==> at_once == Progress::Done(answer.transferred) && awaited == Progress::Done(
            answer.transferred,
        ),
        !answer.ok && (answer.code == 109 || answer.code == 233) ==> at_once == Progress::Done(0)
            && awaited == Progress::Done(0),
        !answer.ok && answer.code == 997 ==> at_once == Progress::Await && awaited
            == Progress::Failed,
        !answer.ok && answer.code == 234 ==> at_once == Progress::Done(answer.transferred)
            && awaited == Progress::Failed,
        !answer.ok && answer.code != 109 && answer.code != 233 && answer.code != 234 && answer.code
            != 997 ==> at_once == Progress::Failed && awaited == Progress::Failed,
{
}

/// What a write comes to: here a peer that has gone is an error.
pub proof fn law_what_a_write_comes_to(answer: Answer, at_once: Progress, awaited: Progress)
    requires
        call_ensures(write_chunk, (answer, false), at_once),
        call_ensures(write_chunk, (answer, true), awaited),
    ensures
        answer.ok ==> at_once == Progress::Done(answer.transferred) && awaited == Progress::Done(
            answer.transferred,
        ),
        !answer.ok ==> awaited == Progress::Failed,
        !answer.ok && answer.code == 997 ==> at_once == Progress::Await,
        !answer.ok && answer.code != 997 ==> at_once == Progress::Failed,
{
}

/// What the wait for a client comes to: one that was faster is there.
pub proof fn law_what_the_wait_for_a_client_comes_to(
    answer: Answer,
    at_once: Progress,
    awaited: Progress,
)
    requires
        call_ensures(wait_for_connection, (answer, false), at_once),
        call_ensures(wait_for_connection, (answer, true), awaited),
    ensures
        answer.ok ==> at_once == Progress::Done(0) && awaited == Progress::Done(0),
        !answer.ok ==> awaited == Progress::Failed,
        !answer.ok && answer.code == 535 ==> at_once == Progress::Done(0),
        !answer.ok && answer.code == 997 ==> at_once == Progress::Await,
        !answer.ok && answer.code != 535 && answer.code != 997 ==> at_once == Progress::Failed,
{
}

/// A buffer is offered from where it was taken up to, and is done when nothing is left of it.
pub proof fn law_the_rest_is_offered(outgoing: &Outgoing, chunk: Option<&[u8]>)
    requires
        call_ensures(Outgoing::chunk, (outgoing,), chunk),
    ensures
        chunk is None <==> outgoing.written() >= outgoing.all().len(),
        chunk matches Some(bytes) ==> bytes@ == outgoing.all().skip(outgoing.written() as int),
{
}

/// A new buffer has everything still to go.
pub proof fn law_a_new_buffer_is_all_to_go(buf: Vec<u8>, outgoing: Outgoing, start: Connecting)
    requires
        call_ensures(Outgoing::new, (buf,), outgoing),
        call_ensures(Connecting::connect, (), start),
    ensures
        outgoing.rest() == buf@,
        start.failed() == 0,
{
    assert(buf@.skip(0) == buf@);
}

/// How the acceptance of a client goes, answer by answer: a wait that fails costs the instance,
/// which is replaced; a client that came gets its connection only when the next instance is up.
pub proof fn law_how_an_acceptance_goes(any: bool)
    ensures
        Accepting::Wait.after(true) == Accepting::CreateNext,
        Accepting::Wait.after(false) == Accepting::ClosePoisoned,
        Accepting::ClosePoisoned.after(any) == Accepting::ReplacePoisoned,
        Accepting::ReplacePoisoned.after(true) == Accepting::End(Accepted::WaitFailed),
        Accepting::ReplacePoisoned.after(false) == Accepting::End(Accepted::NotReplaced),
        Accepting::CreateNext.after(true) == Accepting::Wrap,
        Accepting::CreateNext.after(false) == Accepting::End(Accepted::NoNext),
        Accepting::Wrap.after(true) == Accepting::End(Accepted::Connection),
        Accepting::Wrap.after(false) == Accepting::CloseConnected,
        Accepting::CloseConnected.after(any) == Accepting::End(Accepted::NotWrapped),
{
}

/// The same from its start to its end, whatever the system answers: there is a connection exactly
/// where the wait, the next instance and the connection itself all came to be.
pub proof fn law_how_an_acceptance_ends(start: Accepting, ok: Seq<bool>)
    requires
        call_ensures(Accepting::accept, (), start),
        ok.len() == 4,
    ensures
        ({
            let pipe = Instances { waiting: true, orphans: 0, connection: false };
            let end = accepted(pipe, start, ok).1;
            &&& end == Accepting::End(Accepted::Connection) <==> ok[0] && ok[1] && ok[2]
            &&& end == Accepting::End(Accepted::NotWrapped) <==> ok[0] && ok[1] && !ok[2]
            &&& end == Accepting::End(Accepted::NoNext) <==> ok[0] && !ok[1]
            &&& end == Accepting::End(Accepted::WaitFailed) <==> !ok[0] && ok[2]
            &&& end == Accepting::End(Accepted::NotReplaced) <==> !ok[0] && !ok[2]
        }),
{
    reveal_with_fuel(accepted, 5);
    let r1 = ok.drop_first();
    let r2 = r1.drop_first();
    let r3 = r2.drop_first();
    assert(r1.first() == ok[1] && r2.first() == ok[2] && r3.first() == ok[3]);
    assert(r3.drop_first().len() == 0);
}

/// A pipe that makes trouble is named.
pub proof fn law_troublesome_pipes_are_named(
    path: &str,
    not_opened: String,
    busy: String,
    not_created: String,
    zero: String,
)
    requires
        call_ensures(could_not_open_message, (path,), not_opened),
        call_ensures(stayed_busy_message, (path,), busy),
        call_ensures(could_not_create_message, (path,), not_created),
        call_ensures(WriteZero::message, (WriteZero,), zero),
    ensures
        not_opened@ == "could not open session pipe "@ + path@,
        busy@ == "session pipe "@ + path@ + " stayed busy; giving up"@,
        not_created@ == "could not create session pipe "@ + path@,
        zero@ == "named pipe accepted zero bytes"@,
{
}

/// What the pipe took leaves the rest to go, and nothing at all is an error.
pub proof fn law_what_was_taken_is_gone(
    outgoing: &mut Outgoing,
    transferred: u32,
    taken: Result<(), WriteZero>,
)
    requires
        transferred <= old(outgoing).rest().len(),
        call_ensures(Outgoing::sent, (outgoing, transferred), taken),
    ensures
        taken is Err <==> transferred == 0,
        final(outgoing).rest() == old(outgoing).rest().skip(transferred as int),
        final(outgoing).all() == old(outgoing).all(),
{
    if old(outgoing).written() < old(outgoing).all().len() {
        assert(old(outgoing).rest().skip(transferred as int) == old(outgoing).all().skip(
            old(outgoing).written() + transferred as int,
        ));
    }
    if transferred == old(outgoing).rest().len() {
        assert(old(outgoing).rest().skip(transferred as int) == Seq::<u8>::empty());
    }
}

/// A busy pipe is tried again, fifty times in all; any other trouble ends it at once.
pub proof fn law_only_busy_pipes_are_tried_again(
    connecting: &mut Connecting,
    code: u32,
    step: OpenStep,
)
    requires
        old(connecting).failed() < 50,
        call_ensures(Connecting::refused, (connecting, code), step),
    ensures
        final(connecting).failed() == old(connecting).failed() + 1,
        step == OpenStep::Fail <==> code != 231,
        step == OpenStep::WaitAndRetry <==> code == 231 && old(connecting).failed() < 49,
        step == OpenStep::WaitAndGiveUp <==> code == 231 && old(connecting).failed() == 49,
{
}

/// An acceptance goes on by the calls as it does by its stages.
pub proof fn law_answers_move_the_acceptance(stage: Accepting, ok: bool, next: Accepting)
    requires
        call_ensures(Accepting::answered, (stage, ok), next),
    ensures
        next == stage.after(ok),
        stage == Accepting::Wait && ok ==> next == Accepting::CreateNext,
        stage == Accepting::CreateNext && ok ==> next == Accepting::Wrap,
        stage == Accepting::Wrap && ok ==> next == Accepting::End(Accepted::Connection),
        stage is End ==> next == stage,
{
}

} // verus!
