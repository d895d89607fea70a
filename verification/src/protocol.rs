//! Wire protocol.
//!
//! Every message is a length-prefixed frame:
//!
//! ```text
//! +--------+------------------+-----------------+
//! | tag u8 | payload_len u32  | payload         |
//! +--------+------------------+-----------------+
//!            little-endian       payload_len bytes
//! ```
//!
//! The framing is hand-rolled on purpose: it makes the byte layout obvious when debugging with a
//! pipe sniffer.

use vstd::prelude::*;
use vstd::utf8::*;

use crate::text;
use crate::utf8;

verus! {

/// Largest payload accepted in a single frame. Guards against a corrupt or hostile length prefix
/// causing a huge allocation.
pub const MAX_PAYLOAD: usize = 4 * 1024 * 1024;

/// Bytes in front of the payload: the tag and the length.
pub const HEADER_LEN: usize = 5;

// Client to server.
pub const TAG_ATTACH: u8 = 0x01;

pub const TAG_INPUT: u8 = 0x02;

pub const TAG_RESIZE: u8 = 0x03;

pub const TAG_DETACH: u8 = 0x04;

pub const TAG_KILL: u8 = 0x05;

pub const TAG_INFO: u8 = 0x06;

pub const TAG_CAPTURE: u8 = 0x07;

pub const TAG_DETACH_CLIENTS: u8 = 0x08;

// Server to client.
pub const TAG_REPAINT: u8 = 0x81;

pub const TAG_OUTPUT: u8 = 0x82;

pub const TAG_EXITED: u8 = 0x83;

pub const TAG_INFO_REPLY: u8 = 0x84;

pub const TAG_CAPTURE_REPLY: u8 = 0x85;

pub const TAG_DETACHED: u8 = 0x86;

/// A message sent from an attaching client to the session server.
#[derive(Debug, Clone, PartialEq, Eq)]
pub enum ClientMsg {
    /// Attach to the session at the given terminal size.
    Attach { cols: u16, rows: u16 },
    /// Keyboard input destined for the pty.
    Input(Vec<u8>),
    /// The client's terminal changed size.
    Resize { cols: u16, rows: u16 },
    /// Detach this client, leaving the session running.
    Detach,
    /// Terminate the session and its child process.
    Kill,
    /// Request session metadata without attaching.
    Info,
    /// Request the rendered screen as plain text, without attaching.
    ///
    /// This is what makes a session usable from a program that has no console of its own: send
    /// input, and read back what the shell put on screen.
    Capture,
    /// Detach every attached client, from outside the session.
    ///
    /// The escape hatch for when the prefix key is unavailable: bound by the terminal emulator,
    /// remapped, or missing from the keyboard entirely.
    DetachClients,
}

/// A message sent from the session server to an attached client.
#[derive(Debug, Clone, PartialEq, Eq)]
pub enum ServerMsg {
    /// Full screen redraw, sent once immediately after a successful attach.
    Repaint(Vec<u8>),
    /// Live pty output.
    Output(Vec<u8>),
    /// The child process exited with this code; the session is going away.
    Exited(i32),
    /// Reply to [`ClientMsg::Info`].
    InfoReply { cols: u16, rows: u16, clients: u32, command: String },
    /// Reply to [`ClientMsg::Capture`]: the visible screen, newline separated, with escape
    /// sequences already resolved.
    CaptureReply(String),
    /// The server is detaching this client; the session keeps running.
    Detached,
}

/// What a `ClientMsg` says.
#[verifier::ext_equal]
pub enum ClientMessage {
    Attach { cols: u16, rows: u16 },
    Input(Seq<u8>),
    Resize { cols: u16, rows: u16 },
    Detach,
    Kill,
    Info,
    Capture,
    DetachClients,
}

/// What a `ServerMsg` says.
#[verifier::ext_equal]
pub enum ServerMessage {
    Repaint(Seq<u8>),
    Output(Seq<u8>),
    Exited(i32),
    InfoReply { cols: u16, rows: u16, clients: u32, command: Seq<char> },
    CaptureReply(Seq<char>),
    Detached,
}

impl View for ClientMsg {
    type V = ClientMessage;

    open spec fn view(&self) -> ClientMessage {
        match *self {
            ClientMsg::Attach { cols, rows } => ClientMessage::Attach { cols, rows },
            ClientMsg::Input(bytes) => ClientMessage::Input(bytes@),
            ClientMsg::Resize { cols, rows } => ClientMessage::Resize { cols, rows },
            ClientMsg::Detach => ClientMessage::Detach,
            ClientMsg::Kill => ClientMessage::Kill,
            ClientMsg::Info => ClientMessage::Info,
            ClientMsg::Capture => ClientMessage::Capture,
            ClientMsg::DetachClients => ClientMessage::DetachClients,
        }
    }
}

impl View for ServerMsg {
    type V = ServerMessage;

    open spec fn view(&self) -> ServerMessage {
        match *self {
            ServerMsg::Repaint(bytes) => ServerMessage::Repaint(bytes@),
            ServerMsg::Output(bytes) => ServerMessage::Output(bytes@),
            ServerMsg::Exited(code) => ServerMessage::Exited(code),
            ServerMsg::InfoReply { cols, rows, clients, command } => ServerMessage::InfoReply {
                cols,
                rows,
                clients,
                command: command@,
            },
            ServerMsg::CaptureReply(screen) => ServerMessage::CaptureReply(screen@),
            ServerMsg::Detached => ServerMessage::Detached,
        }
    }
}

/// Why a message could not be read.
#[derive(Debug, Clone, Copy, PartialEq, Eq, Structural)]
pub enum ReadError {
    /// The stream ended inside a frame.
    UnexpectedEof,
    /// The length prefix is beyond [`MAX_PAYLOAD`].
    Oversized(u32),
    /// No client message has this tag.
    UnknownClientTag(u8),
    /// No server message has this tag.
    UnknownServerTag(u8),
    /// Terminal dimensions take four bytes.
    ShortDimensions,
    /// An exit code takes four bytes.
    ShortExitCode,
    /// An info reply takes at least eight bytes.
    TruncatedInfo,
}

/// What sort of trouble a [`ReadError`] is.
#[derive(Debug, Clone, Copy, PartialEq, Eq, Structural)]
pub enum ErrorKind {
    UnexpectedEof,
    InvalidData,
}

impl ReadError {
    /// The stream ended early, or it holds what it should not.
    pub fn kind(self) -> (kind: ErrorKind)
        ensures
            kind == (if self == ReadError::UnexpectedEof {
                ErrorKind::UnexpectedEof
            } else {
                ErrorKind::InvalidData
            }),
    {
        match self {
            ReadError::UnexpectedEof => ErrorKind::UnexpectedEof,
            _ => ErrorKind::InvalidData,
        }
    }

    /// What to tell the user.
    pub open spec fn message_text(self) -> Seq<char> {
        match self {
            ReadError::UnexpectedEof => "failed to fill whole buffer"@,
            ReadError::Oversized(len) => "frame payload of "@ + text::decimal_text(len as nat)
                + " bytes exceeds the "@ + text::decimal_text(MAX_PAYLOAD as nat)
                + " byte limit"@,
            ReadError::UnknownClientTag(tag) => "unknown client frame tag 0x"@
                + text::byte_hex_text(tag),
            ReadError::UnknownServerTag(tag) => "unknown server frame tag 0x"@
                + text::byte_hex_text(tag),
            ReadError::ShortDimensions => "expected 4 bytes of terminal dimensions"@,
            ReadError::ShortExitCode => "expected 4 bytes of exit code"@,
            ReadError::TruncatedInfo => "truncated info reply"@,
        }
    }

    /// What to tell the user.
    pub fn message(self) -> (message: String)
        ensures
            message@ == self.message_text(),
    {
        match self {
            ReadError::UnexpectedEof => "failed to fill whole buffer".to_owned(),
            ReadError::Oversized(len) => {
                let mut message: String = "frame payload of ".to_owned();
                message.append(text::decimal(len as u64).as_str());
                message.append(" bytes exceeds the ");
                message.append(text::decimal(MAX_PAYLOAD as u64).as_str());
                message.append(" byte limit");
                message
            },
            ReadError::UnknownClientTag(tag) => {
                let mut message: String = "unknown client frame tag 0x".to_owned();
                message.append(text::byte_hex(tag).as_str());
                message
            },
            ReadError::UnknownServerTag(tag) => {
                let mut message: String = "unknown server frame tag 0x".to_owned();
                message.append(text::byte_hex(tag).as_str());
                message
            },
            ReadError::ShortDimensions => "expected 4 bytes of terminal dimensions".to_owned(),
            ReadError::ShortExitCode => "expected 4 bytes of exit code".to_owned(),
            ReadError::TruncatedInfo => "truncated info reply".to_owned(),
        }
    }
}

/// Sixteen bits, low byte first.
pub open spec fn le16(x: int) -> Seq<u8> {
    seq![(x % 256) as u8, (x / 256 % 256) as u8]
}

/// Thirty-two bits, low byte first.
pub open spec fn le32(x: int) -> Seq<u8> {
    le16(x % 65536) + le16(x / 65536)
}

/// The sixteen bit number in two bytes, low byte first.
pub open spec fn le16_value(s: Seq<u8>) -> int {
    s[0] + 256 * s[1]
}

/// The thirty-two bit number in four bytes, low byte first.
pub open spec fn le32_value(s: Seq<u8>) -> int {
    le16_value(s) + 65536 * le16_value(s.skip(2))
}

/// The bits of a signed number, read as an unsigned one.
pub open spec fn code_bits(code: i32) -> int {
    if code < 0 {
        code + 0x1_0000_0000
    } else {
        code as int
    }
}

/// The signed number that has these bits.
pub open spec fn bits_code(bits: int) -> i32 {
    if bits >= 0x8000_0000 {
        (bits - 0x1_0000_0000) as i32
    } else {
        bits as i32
    }
}

/// A frame as it stands on the wire.
pub open spec fn frame_bytes(tag: u8, payload: Seq<u8>) -> Seq<u8> {
    seq![tag] + le32(payload.len() as int) + payload
}

/// Terminal dimensions as a payload.
pub open spec fn dims_bytes(cols: u16, rows: u16) -> Seq<u8> {
    le16(cols as int) + le16(rows as int)
}

impl ClientMessage {
    /// The tag of the frame that carries the message.
    pub open spec fn tag(self) -> u8 {
        match self {
            ClientMessage::Attach { .. } => TAG_ATTACH,
            ClientMessage::Input(_) => TAG_INPUT,
            ClientMessage::Resize { .. } => TAG_RESIZE,
            ClientMessage::Detach => TAG_DETACH,
            ClientMessage::Kill => TAG_KILL,
            ClientMessage::Info => TAG_INFO,
            ClientMessage::Capture => TAG_CAPTURE,
            ClientMessage::DetachClients => TAG_DETACH_CLIENTS,
        }
    }

    /// The payload of the frame that carries the message.
    pub open spec fn payload(self) -> Seq<u8> {
        match self {
            ClientMessage::Attach { cols, rows } => dims_bytes(cols, rows),
            ClientMessage::Input(bytes) => bytes,
            ClientMessage::Resize { cols, rows } => dims_bytes(cols, rows),
            _ => Seq::empty(),
        }
    }

    /// Whether the message fits in one frame.
    pub open spec fn fits(self) -> bool {
        self.payload().len() <= MAX_PAYLOAD
    }

    /// The message as it stands on the wire.
    pub open spec fn wire(self) -> Seq<u8> {
        frame_bytes(self.tag(), self.payload())
    }
}

impl ServerMessage {
    /// The tag of the frame that carries the message.
    pub open spec fn tag(self) -> u8 {
        match self {
            ServerMessage::Repaint(_) => TAG_REPAINT,
            ServerMessage::Output(_) => TAG_OUTPUT,
            ServerMessage::Exited(_) => TAG_EXITED,
            ServerMessage::InfoReply { .. } => TAG_INFO_REPLY,
            ServerMessage::CaptureReply(_) => TAG_CAPTURE_REPLY,
            ServerMessage::Detached => TAG_DETACHED,
        }
    }

    /// The payload of the frame that carries the message.
    pub open spec fn payload(self) -> Seq<u8> {
        match self {
            ServerMessage::Repaint(bytes) => bytes,
            ServerMessage::Output(bytes) => bytes,
            ServerMessage::Exited(code) => le32(code_bits(code)),
            ServerMessage::InfoReply { cols, rows, clients, command } => dims_bytes(cols, rows)
                + le32(clients as int) + encode_utf8(command),
            ServerMessage::CaptureReply(screen) => encode_utf8(screen),
            ServerMessage::Detached => Seq::empty(),
        }
    }

    /// Whether the message fits in one frame.
    pub open spec fn fits(self) -> bool {
        self.payload().len() <= MAX_PAYLOAD
    }

    /// The message as it stands on the wire.
    pub open spec fn wire(self) -> Seq<u8> {
        frame_bytes(self.tag(), self.payload())
    }
}

/// The client message that a frame carries.
pub open spec fn client_message(tag: u8, payload: Seq<u8>) -> Result<ClientMessage, ReadError> {
    if tag == TAG_ATTACH || tag == TAG_RESIZE {
        if payload.len() < 4 {
            Err(ReadError::ShortDimensions)
        } else {
            let cols = le16_value(payload) as u16;
            let rows = le16_value(payload.skip(2)) as u16;
            if tag == TAG_ATTACH {
                Ok(ClientMessage::Attach { cols, rows })
            } else {
                Ok(ClientMessage::Resize { cols, rows })
            }
        }
    } else if tag == TAG_INPUT {
        Ok(ClientMessage::Input(payload))
    } else if tag == TAG_DETACH {
        Ok(ClientMessage::Detach)
    } else if tag == TAG_KILL {
        Ok(ClientMessage::Kill)
    } else if tag == TAG_INFO {
        Ok(ClientMessage::Info)
    } else if tag == TAG_CAPTURE {
        Ok(ClientMessage::Capture)
    } else if tag == TAG_DETACH_CLIENTS {
        Ok(ClientMessage::DetachClients)
    } else {
        Err(ReadError::UnknownClientTag(tag))
    }
}

/// The server message that a frame carries.
pub open spec fn server_message(tag: u8, payload: Seq<u8>) -> Result<ServerMessage, ReadError> {
    if tag == TAG_REPAINT {
        Ok(ServerMessage::Repaint(payload))
    } else if tag == TAG_OUTPUT {
        Ok(ServerMessage::Output(payload))
    } else if tag == TAG_EXITED {
        if payload.len() < 4 {
            Err(ReadError::ShortExitCode)
        } else {
            Ok(ServerMessage::Exited(bits_code(le32_value(payload))))
        }
    } else if tag == TAG_INFO_REPLY {
        if payload.len() < 8 {
            Err(ReadError::TruncatedInfo)
        } else {
            Ok(
                ServerMessage::InfoReply {
                    cols: le16_value(payload) as u16,
                    rows: le16_value(payload.skip(2)) as u16,
                    clients: le32_value(payload.skip(4)) as u32,
                    command: utf8::text_of_bytes(payload.skip(8)),
                },
            )
        }
    } else if tag == TAG_CAPTURE_REPLY {
        Ok(ServerMessage::CaptureReply(utf8::text_of_bytes(payload)))
    } else if tag == TAG_DETACHED {
        Ok(ServerMessage::Detached)
    } else {
        Err(ReadError::UnknownServerTag(tag))
    }
}

/// What stands at the front of a stream.
#[verifier::ext_equal]
pub enum FrameRead {
    /// A whole frame, and what follows it.
    Frame { tag: u8, payload: Seq<u8>, rest: Seq<u8> },
    /// A header whose length is beyond the limit, and what follows the header.
    Oversized { len: u32, rest: Seq<u8> },
    /// The stream ends inside a frame.
    Truncated,
}

/// The first frame of a stream.
pub open spec fn first_frame(s: Seq<u8>) -> FrameRead {
    if s.len() < HEADER_LEN {
        FrameRead::Truncated
    } else {
        let len = le32_value(s.skip(1));
        if len > MAX_PAYLOAD {
            FrameRead::Oversized { len: len as u32, rest: s.skip(HEADER_LEN as int) }
        } else if s.len() < HEADER_LEN + len {
            FrameRead::Truncated
        } else {
            FrameRead::Frame {
                tag: s[0],
                payload: s.subrange(HEADER_LEN as int, HEADER_LEN + len),
                rest: s.skip(HEADER_LEN + len),
            }
        }
    }
}

/// What reading one client message from a stream gives, and what is left of the stream.
///
/// A stream that ends inside a frame is used up. A frame that is there is taken off the stream
/// even if it holds no message.
pub open spec fn client_read(s: Seq<u8>) -> (Result<ClientMessage, ReadError>, Seq<u8>) {
    match first_frame(s) {
        FrameRead::Frame { tag, payload, rest } => (client_message(tag, payload), rest),
        FrameRead::Oversized { len, rest } => (Err(ReadError::Oversized(len)), rest),
        FrameRead::Truncated => (Err(ReadError::UnexpectedEof), Seq::empty()),
    }
}

/// What reading one server message from a stream gives, and what is left of the stream.
pub open spec fn server_read(s: Seq<u8>) -> (Result<ServerMessage, ReadError>, Seq<u8>) {
    match first_frame(s) {
        FrameRead::Frame { tag, payload, rest } => (server_message(tag, payload), rest),
        FrameRead::Oversized { len, rest } => (Err(ReadError::Oversized(len)), rest),
        FrameRead::Truncated => (Err(ReadError::UnexpectedEof), Seq::empty()),
    }
}

/// Whether a client message was read as expected.
pub open spec fn client_agrees(
    got: Result<ClientMsg, ReadError>,
    expected: Result<ClientMessage, ReadError>,
) -> bool {
    match got {
        Ok(msg) => expected == Ok::<ClientMessage, ReadError>(msg@),
        Err(e) => expected == Err::<ClientMessage, ReadError>(e),
    }
}

/// Whether a server message was read as expected.
pub open spec fn server_agrees(
    got: Result<ServerMsg, ReadError>,
    expected: Result<ServerMessage, ReadError>,
) -> bool {
    match got {
        Ok(msg) => expected == Ok::<ServerMessage, ReadError>(msg@),
        Err(e) => expected == Err::<ServerMessage, ReadError>(e),
    }
}

/// Appends sixteen bits, low byte first.
fn push_le16(w: &mut Vec<u8>, x: u16)
    ensures
        final(w)@ == old(w)@ + le16(x as int),
{
    w.push((x % 256) as u8);
    w.push((x / 256) as u8);
    assert(w@ == old(w)@ + le16(x as int));
}

/// Appends thirty-two bits, low byte first.
fn push_le32(w: &mut Vec<u8>, x: u32)
    ensures
        final(w)@ == old(w)@ + le32(x as int),
{
    push_le16(w, (x % 65536) as u16);
    push_le16(w, (x / 65536) as u16);
    assert(w@ == old(w)@ + le32(x as int));
}

/// Terminal dimensions as a payload.
fn dims_payload(cols: u16, rows: u16) -> (payload: Vec<u8>)
    ensures
        payload@ == dims_bytes(cols, rows),
{
    let mut payload: Vec<u8> = Vec::new();
    push_le16(&mut payload, cols);
    push_le16(&mut payload, rows);
    assert(payload@ == dims_bytes(cols, rows));
    payload
}

/// Appends a frame.
pub fn write_frame(w: &mut Vec<u8>, tag: u8, payload: &[u8])
    requires
        payload.len() <= MAX_PAYLOAD,
    ensures
        final(w)@ == old(w)@ + frame_bytes(tag, payload@),
{
    w.push(tag);
    push_le32(w, payload.len() as u32);
    w.extend_from_slice(payload);
    assert(w@ == old(w)@ + frame_bytes(tag, payload@));
}

/// The sixteen bit number at `at`.
fn le16_at(s: &[u8], at: usize) -> (x: u16)
    requires
        at + 2 <= s.len(),
    ensures
        x == le16_value(s@.skip(at as int)),
{
    s[at] as u16 + 256 * (s[at + 1] as u16)
}

/// The thirty-two bit number at `at`.
fn le32_at(s: &[u8], at: usize) -> (x: u32)
    requires
        at + 4 <= s.len(),
    ensures
        x == le32_value(s@.skip(at as int)),
{
    assert(s@.skip(at as int).skip(2) == s@.skip(at + 2));
    le16_at(s, at) as u32 + 65536 * (le16_at(s, at + 2) as u32)
}

/// Reads terminal dimensions.
fn dims(payload: &[u8]) -> (dims: Result<(u16, u16), ReadError>)
    ensures
        dims == (if payload.len() < 4 {
            Err::<(u16, u16), ReadError>(ReadError::ShortDimensions)
        } else {
            Ok((le16_value(payload@) as u16, le16_value(payload@.skip(2)) as u16))
        }),
{
    if payload.len() < 4 {
        return Err(ReadError::ShortDimensions);
    }
    assert(payload@.skip(0) == payload@);
    Ok((le16_at(payload, 0), le16_at(payload, 2)))
}

/// Reads a frame header: the tag, and how many bytes of payload follow.
pub fn frame_header(header: &[u8]) -> (read: Result<(u8, usize), ReadError>)
    requires
        header.len() == HEADER_LEN,
    ensures
        read == (if le32_value(header@.skip(1)) > MAX_PAYLOAD {
            Err::<(u8, usize), ReadError>(
                ReadError::Oversized(le32_value(header@.skip(1)) as u32),
            )
        } else {
            Ok((header@[0], le32_value(header@.skip(1)) as usize))
        }),
{
    let len: u32 = le32_at(header, 1);
    if len as usize > MAX_PAYLOAD {
        return Err(ReadError::Oversized(len));
    }
    Ok((header[0], len as usize))
}

/// A stream of bytes that messages are read from.
#[derive(Debug)]
pub struct FrameReader {
    bytes: Vec<u8>,
    pos: usize,
}

impl FrameReader {
    #[verifier::type_invariant]
    spec fn inside(self) -> bool {
        self.pos <= self.bytes.len()
    }

    /// What has not been read yet.
    pub closed spec fn remaining(&self) -> Seq<u8> {
        self.bytes@.skip(self.pos as int)
    }

    /// A reader at the front of `bytes`.
    pub fn new(bytes: Vec<u8>) -> (reader: FrameReader)
        ensures
            reader.remaining() == bytes@,
    {
        let reader = FrameReader { bytes, pos: 0 };
        assert(reader.remaining() == bytes@);
        reader
    }

    /// Takes the next `n` bytes, or everything that is left where there are fewer.
    fn read_exact(&mut self, n: usize) -> (taken: Option<Vec<u8>>)
        ensures
            match taken {
                Some(bytes) => n <= old(self).remaining().len() && bytes@ == old(
                    self,
                ).remaining().take(n as int) && final(self).remaining() == old(
                    self,
                ).remaining().skip(n as int),
                None => n > old(self).remaining().len() && final(self).remaining() == Seq::<
                    u8,
                >::empty(),
            },
    {
        proof {
            use_type_invariant(&*self);
        }
        if n > self.bytes.len() - self.pos {
            self.pos = self.bytes.len();
            assert(self.remaining() == Seq::<u8>::empty());
            return None;
        }
        let end: usize = self.pos + n;
        let bytes: Vec<u8> = vstd::slice::slice_to_vec(
            vstd::slice::slice_subrange(self.bytes.as_slice(), self.pos, end),
        );
        assert(bytes@ == old(self).remaining().take(n as int));
        self.pos = end;
        assert(self.remaining() == old(self).remaining().skip(n as int));
        Some(bytes)
    }
}

/// Takes the next frame off the stream.
pub fn read_frame(r: &mut FrameReader) -> (read: Result<(u8, Vec<u8>), ReadError>)
    ensures
        match first_frame(old(r).remaining()) {
            FrameRead::Frame { tag, payload, rest } => read matches Ok(got) && got.0 == tag
                && got.1@ == payload && final(r).remaining() == rest,
            FrameRead::Oversized { len, rest } => read == Err::<(u8, Vec<u8>), ReadError>(
                ReadError::Oversized(len),
            ) && final(r).remaining() == rest,
            FrameRead::Truncated => read == Err::<(u8, Vec<u8>), ReadError>(
                ReadError::UnexpectedEof,
            ) && final(r).remaining() == Seq::<u8>::empty(),
        },
{
    let ghost s = r.remaining();
    let header: Vec<u8> = match r.read_exact(HEADER_LEN) {
        Some(header) => header,
        None => return Err(ReadError::UnexpectedEof),
    };
    proof {
        assert(header@.skip(1).skip(2) == header@.skip(3));
        assert(s.skip(1).skip(2) == s.skip(3));
        assert(le32_value(header@.skip(1)) == le32_value(s.skip(1)));
    }
    let (tag, len): (u8, usize) = match frame_header(header.as_slice()) {
        Ok(read) => read,
        Err(e) => return Err(e),
    };
    match r.read_exact(len) {
        Some(payload) => {
            assert(payload@ == s.subrange(HEADER_LEN as int, HEADER_LEN + len));
            assert(r.remaining() == s.skip(HEADER_LEN + len));
            Ok((tag, payload))
        },
        None => Err(ReadError::UnexpectedEof),
    }
}

impl ClientMsg {
    /// Whether the message fits in one frame.
    pub fn fits(&self) -> (yes: bool)
        ensures
            yes == self@.fits(),
    {
        match self {
            ClientMsg::Input(bytes) => bytes.len() <= MAX_PAYLOAD,
            _ => true,
        }
    }

    /// Appends the message to a stream.
    pub fn write_to(&self, w: &mut Vec<u8>)
        requires
            self@.fits(),
        ensures
            final(w)@ == old(w)@ + self@.wire(),
    {
        let empty: Vec<u8> = Vec::new();
        match self {
            ClientMsg::Attach { cols, rows } => write_frame(
                w,
                TAG_ATTACH,
                dims_payload(*cols, *rows).as_slice(),
            ),
            ClientMsg::Input(bytes) => write_frame(w, TAG_INPUT, bytes.as_slice()),
            ClientMsg::Resize { cols, rows } => write_frame(
                w,
                TAG_RESIZE,
                dims_payload(*cols, *rows).as_slice(),
            ),
            ClientMsg::Detach => write_frame(w, TAG_DETACH, empty.as_slice()),
            ClientMsg::Kill => write_frame(w, TAG_KILL, empty.as_slice()),
            ClientMsg::Info => write_frame(w, TAG_INFO, empty.as_slice()),
            ClientMsg::Capture => write_frame(w, TAG_CAPTURE, empty.as_slice()),
            ClientMsg::DetachClients => write_frame(w, TAG_DETACH_CLIENTS, empty.as_slice()),
        }
    }

    /// The message that a frame carries.
    pub fn from_frame(tag: u8, payload: Vec<u8>) -> (msg: Result<ClientMsg, ReadError>)
        ensures
            client_agrees(msg, client_message(tag, payload@)),
    {
        if tag == TAG_ATTACH {
            match dims(payload.as_slice()) {
                Ok((cols, rows)) => Ok(ClientMsg::Attach { cols, rows }),
                Err(e) => Err(e),
            }
        } else if tag == TAG_INPUT {
            Ok(ClientMsg::Input(payload))
        } else if tag == TAG_RESIZE {
            match dims(payload.as_slice()) {
                Ok((cols, rows)) => Ok(ClientMsg::Resize { cols, rows }),
                Err(e) => Err(e),
            }
        } else if tag == TAG_DETACH {
            Ok(ClientMsg::Detach)
        } else if tag == TAG_KILL {
            Ok(ClientMsg::Kill)
        } else if tag == TAG_INFO {
            Ok(ClientMsg::Info)
        } else if tag == TAG_CAPTURE {
            Ok(ClientMsg::Capture)
        } else if tag == TAG_DETACH_CLIENTS {
            Ok(ClientMsg::DetachClients)
        } else {
            Err(ReadError::UnknownClientTag(tag))
        }
    }

    /// Takes the next message off a stream.
    pub fn read_from(r: &mut FrameReader) -> (msg: Result<ClientMsg, ReadError>)
        ensures
            client_agrees(msg, client_read(old(r).remaining()).0),
            final(r).remaining() == client_read(old(r).remaining()).1,
    {
        match read_frame(r) {
            Ok((tag, payload)) => ClientMsg::from_frame(tag, payload),
            Err(e) => Err(e),
        }
    }
}

impl ServerMsg {
    /// Another message that says the same.
    pub fn copy(&self) -> (other: ServerMsg)
        ensures
            other@ == self@,
    {
        match self {
            ServerMsg::Repaint(bytes) => ServerMsg::Repaint(
                vstd::slice::slice_to_vec(bytes.as_slice()),
            ),
            ServerMsg::Output(bytes) => ServerMsg::Output(
                vstd::slice::slice_to_vec(bytes.as_slice()),
            ),
            ServerMsg::Exited(code) => ServerMsg::Exited(*code),
            ServerMsg::InfoReply { cols, rows, clients, command } => ServerMsg::InfoReply {
                cols: *cols,
                rows: *rows,
                clients: *clients,
                command: command.as_str().to_owned(),
            },
            ServerMsg::CaptureReply(screen) => ServerMsg::CaptureReply(screen.as_str().to_owned()),
            ServerMsg::Detached => ServerMsg::Detached,
        }
    }

    /// The payload of the frame that carries the message.
    fn payload(&self) -> (payload: Vec<u8>)
        ensures
            payload@ == self@.payload(),
    {
        match self {
            ServerMsg::Repaint(bytes) => vstd::slice::slice_to_vec(bytes.as_slice()),
            ServerMsg::Output(bytes) => vstd::slice::slice_to_vec(bytes.as_slice()),
            ServerMsg::Exited(code) => {
                let bits: u32 = if *code < 0 {
                    (*code as i64 + 0x1_0000_0000) as u32
                } else {
                    *code as u32
                };
                let mut payload: Vec<u8> = Vec::new();
                push_le32(&mut payload, bits);
                assert(payload@ == le32(bits as int));
                payload
            },
            ServerMsg::InfoReply { cols, rows, clients, command } => {
                let mut payload: Vec<u8> = dims_payload(*cols, *rows);
                push_le32(&mut payload, *clients);
                payload.extend_from_slice(command.as_str().as_bytes());
                assert(payload@ == self@.payload());
                payload
            },
            ServerMsg::CaptureReply(screen) => vstd::slice::slice_to_vec(
                screen.as_str().as_bytes(),
            ),
            ServerMsg::Detached => Vec::new(),
        }
    }

    /// Whether the message fits in one frame.
    pub fn fits(&self) -> (yes: bool)
        ensures
            yes == self@.fits(),
    {
        self.payload().len() <= MAX_PAYLOAD
    }

    /// Appends the message to a stream.
    pub fn write_to(&self, w: &mut Vec<u8>)
        requires
            self@.fits(),
        ensures
            final(w)@ == old(w)@ + self@.wire(),
    {
        let tag: u8 = match self {
            ServerMsg::Repaint(_) => TAG_REPAINT,
            ServerMsg::Output(_) => TAG_OUTPUT,
            ServerMsg::Exited(_) => TAG_EXITED,
            ServerMsg::InfoReply { .. } => TAG_INFO_REPLY,
            ServerMsg::CaptureReply(_) => TAG_CAPTURE_REPLY,
            ServerMsg::Detached => TAG_DETACHED,
        };
        write_frame(w, tag, self.payload().as_slice());
    }

    /// The message that a frame carries.
    pub fn from_frame(tag: u8, payload: Vec<u8>) -> (msg: Result<ServerMsg, ReadError>)
        ensures
            server_agrees(msg, server_message(tag, payload@)),
    {
        if tag == TAG_REPAINT {
            Ok(ServerMsg::Repaint(payload))
        } else if tag == TAG_OUTPUT {
            Ok(ServerMsg::Output(payload))
        } else if tag == TAG_EXITED {
            if payload.len() < 4 {
                return Err(ReadError::ShortExitCode);
            }
            assert(payload@.skip(0) == payload@);
            let bits: u32 = le32_at(payload.as_slice(), 0);
            let code: i32 = if bits >= 0x8000_0000 {
                (bits as i64 - 0x1_0000_0000) as i32
            } else {
                bits as i32
            };
            Ok(ServerMsg::Exited(code))
        } else if tag == TAG_INFO_REPLY {
            if payload.len() < 8 {
                return Err(ReadError::TruncatedInfo);
            }
            assert(payload@.skip(0) == payload@);
            let tail: &[u8] = vstd::slice::slice_subrange(payload.as_slice(), 8, payload.len());
            assert(tail@ == payload@.skip(8));
            Ok(
                ServerMsg::InfoReply {
                    cols: le16_at(payload.as_slice(), 0),
                    rows: le16_at(payload.as_slice(), 2),
                    clients: le32_at(payload.as_slice(), 4),
                    command: utf8::decode_lossy(tail),
                },
            )
        } else if tag == TAG_CAPTURE_REPLY {
            Ok(ServerMsg::CaptureReply(utf8::decode_lossy(payload.as_slice())))
        } else if tag == TAG_DETACHED {
            Ok(ServerMsg::Detached)
        } else {
            Err(ReadError::UnknownServerTag(tag))
        }
    }

    /// Takes the next message off a stream.
    pub fn read_from(r: &mut FrameReader) -> (msg: Result<ServerMsg, ReadError>)
        ensures
            server_agrees(msg, server_read(old(r).remaining()).0),
            final(r).remaining() == server_read(old(r).remaining()).1,
    {
        match read_frame(r) {
            Ok((tag, payload)) => ServerMsg::from_frame(tag, payload),
            Err(e) => Err(e),
        }
    }
}

/// Thirty-two bits come back as the number they were made from.
proof fn lemma_le32(x: int, tail: Seq<u8>)
    requires
        0 <= x < 0x1_0000_0000,
    ensures
        le32_value(le32(x) + tail) == x,
{
    let s = le32(x) + tail;
    assert(s.skip(2)[0] == s[2] && s.skip(2)[1] == s[3]);
}

/// A frame at the front of a stream is found as it was written.
proof fn lemma_first_frame(tag: u8, payload: Seq<u8>, rest: Seq<u8>)
    requires
        payload.len() <= MAX_PAYLOAD,
    ensures
        first_frame(frame_bytes(tag, payload) + rest) == (FrameRead::Frame { tag, payload, rest }),
{
    let s = frame_bytes(tag, payload) + rest;
    assert(s.skip(1) == le32(payload.len() as int) + (payload + rest));
    lemma_le32(payload.len() as int, payload + rest);
    assert(s.subrange(HEADER_LEN as int, HEADER_LEN + payload.len()) == payload);
    assert(s.skip(HEADER_LEN + payload.len()) == rest);
}

/// A payload of dimensions reads back as the dimensions.
proof fn lemma_dims(cols: u16, rows: u16, tail: Seq<u8>)
    ensures
        le16_value(dims_bytes(cols, rows) + tail) == cols,
        le16_value((dims_bytes(cols, rows) + tail).skip(2)) == rows,
{
}

/// Reading gives back the client message that was written, and leaves what follows it.
pub proof fn law_client_messages_read_back(msg: ClientMessage, rest: Seq<u8>)
    requires
        msg.fits(),
    ensures
        client_read(msg.wire() + rest) == (Ok::<ClientMessage, ReadError>(msg), rest),
{
    lemma_first_frame(msg.tag(), msg.payload(), rest);
    match msg {
        ClientMessage::Attach { cols, rows } => {
            lemma_dims(cols, rows, Seq::empty());
            assert(dims_bytes(cols, rows) + Seq::<u8>::empty() == dims_bytes(cols, rows));
        },
        ClientMessage::Resize { cols, rows } => {
            lemma_dims(cols, rows, Seq::empty());
            assert(dims_bytes(cols, rows) + Seq::<u8>::empty() == dims_bytes(cols, rows));
        },
        _ => {},
    }
}

/// Reading gives back the server message that was written, and leaves what follows it.
pub proof fn law_server_messages_read_back(msg: ServerMessage, rest: Seq<u8>)
    requires
        msg.fits(),
    ensures
        server_read(msg.wire() + rest) == (Ok::<ServerMessage, ReadError>(msg), rest),
{
    lemma_first_frame(msg.tag(), msg.payload(), rest);
    let payload = msg.payload();
    match msg {
        ServerMessage::Exited(code) => {
            lemma_le32(code_bits(code), Seq::empty());
            assert(le32(code_bits(code)) + Seq::<u8>::empty() == payload);
        },
        ServerMessage::InfoReply { cols, rows, clients, command } => {
            let tail = le32(clients as int) + encode_utf8(command);
            assert(payload == dims_bytes(cols, rows) + tail);
            lemma_dims(cols, rows, tail);
            assert(payload.skip(4) == tail);
            lemma_le32(clients as int, encode_utf8(command));
            assert(payload.skip(8) == encode_utf8(command));
            utf8::lemma_text_of_encoded(command);
        },
        ServerMessage::CaptureReply(screen) => {
            utf8::lemma_text_of_encoded(screen);
        },
        _ => {},
    }
}

/// A frame that was cut short is not read as a frame.
proof fn lemma_cut_frame(tag: u8, payload: Seq<u8>, n: int)
    requires
        payload.len() <= MAX_PAYLOAD,
        0 <= n < frame_bytes(tag, payload).len(),
    ensures
        first_frame(frame_bytes(tag, payload).take(n)) == FrameRead::Truncated,
{
    let s = frame_bytes(tag, payload);
    if n >= HEADER_LEN {
        let cut = s.take(n);
        let tail = payload.take(n - HEADER_LEN);
        assert(cut.skip(1) == le32(payload.len() as int) + tail);
        lemma_le32(payload.len() as int, tail);
    }
}

/// A client message that was cut short, wherever that happened, reads as the end of the stream
/// and never as another message.
pub proof fn law_cut_client_messages_are_errors(msg: ClientMessage, n: int)
    requires
        msg.fits(),
        0 <= n < msg.wire().len(),
    ensures
        client_read(msg.wire().take(n)) == (
            Err::<ClientMessage, ReadError>(ReadError::UnexpectedEof),
            Seq::<u8>::empty(),
        ),
{
    lemma_cut_frame(msg.tag(), msg.payload(), n);
}

/// A server message that was cut short, wherever that happened, reads as the end of the stream
/// and never as another message.
pub proof fn law_cut_server_messages_are_errors(msg: ServerMessage, n: int)
    requires
        msg.fits(),
        0 <= n < msg.wire().len(),
    ensures
        server_read(msg.wire().take(n)) == (
            Err::<ServerMessage, ReadError>(ReadError::UnexpectedEof),
            Seq::<u8>::empty(),
        ),
{
    lemma_cut_frame(msg.tag(), msg.payload(), n);
}

/// Client messages on the wire, one after the other.
pub open spec fn client_stream(msgs: Seq<ClientMessage>) -> Seq<u8>
    decreases msgs.len(),
{
    if msgs.len() == 0 {
        Seq::empty()
    } else {
        msgs.first().wire() + client_stream(msgs.drop_first())
    }
}

/// What is left of a stream after `n` client messages were read from it.
pub open spec fn after_client_reads(s: Seq<u8>, n: nat) -> Seq<u8>
    decreases n,
{
    if n == 0 {
        s
    } else {
        after_client_reads(client_read(s).1, (n - 1) as nat)
    }
}

/// Messages that are sent back to back are read back one by one, in order.
pub proof fn law_client_messages_stream_back_to_back(msgs: Seq<ClientMessage>, i: int)
    requires
        forall|k: int| 0 <= k < msgs.len() ==> (#[trigger] msgs[k]).fits(),
        0 <= i < msgs.len(),
    ensures
        client_read(after_client_reads(client_stream(msgs), i as nat)).0 == Ok::<
            ClientMessage,
            ReadError,
        >(msgs[i]),
        after_client_reads(client_stream(msgs), msgs.len()) == Seq::<u8>::empty(),
    decreases msgs.len(),
{
    let rest = client_stream(msgs.drop_first());
    law_client_messages_read_back(msgs.first(), rest);
    assert(after_client_reads(client_stream(msgs), 0) == client_stream(msgs));
    if msgs.len() == 1 {
        assert(rest == Seq::<u8>::empty());
        assert(after_client_reads(rest, 0) == rest);
    } else {
        assert forall|k: int| 0 <= k < msgs.drop_first().len() implies (
        #[trigger] msgs.drop_first()[k]).fits() by {
            assert(msgs.drop_first()[k] == msgs[k + 1]);
        }
        law_client_messages_stream_back_to_back(
            msgs.drop_first(),
            if i == 0 {
                0
            } else {
                i - 1
            },
        );
    }
}

/// Server messages on the wire, one after the other.
pub open spec fn server_stream(msgs: Seq<ServerMessage>) -> Seq<u8>
    decreases msgs.len(),
{
    if msgs.len() == 0 {
        Seq::empty()
    } else {
        msgs.first().wire() + server_stream(msgs.drop_first())
    }
}

/// What is left of a stream after `n` server messages were read from it.
pub open spec fn after_server_reads(s: Seq<u8>, n: nat) -> Seq<u8>
    decreases n,
{
    if n == 0 {
        s
    } else {
        after_server_reads(server_read(s).1, (n - 1) as nat)
    }
}

/// Messages that are sent back to back are read back one by one, in order.
pub proof fn law_server_messages_stream_back_to_back(msgs: Seq<ServerMessage>, i: int)
    requires
        forall|k: int| 0 <= k < msgs.len() ==> (#[trigger] msgs[k]).fits(),
        0 <= i < msgs.len(),
    ensures
        server_read(after_server_reads(server_stream(msgs), i as nat)).0 == Ok::<
            ServerMessage,
            ReadError,
        >(msgs[i]),
        after_server_reads(server_stream(msgs), msgs.len()) == Seq::<u8>::empty(),
    decreases msgs.len(),
{
    let rest = server_stream(msgs.drop_first());
    law_server_messages_read_back(msgs.first(), rest);
    assert(after_server_reads(server_stream(msgs), 0) == server_stream(msgs));
    if msgs.len() == 1 {
        assert(rest == Seq::<u8>::empty());
        assert(after_server_reads(rest, 0) == rest);
    } else {
        assert forall|k: int| 0 <= k < msgs.drop_first().len() implies (
        #[trigger] msgs.drop_first()[k]).fits() by {
            assert(msgs.drop_first()[k] == msgs[k + 1]);
        }
        law_server_messages_stream_back_to_back(
            msgs.drop_first(),
            if i == 0 {
                0
            } else {
                i - 1
            },
        );
    }
}

/// A frame on the wire: the tag, the length of the payload in four bytes, the lowest first, and the
/// payload.
pub proof fn law_a_frame_on_the_wire(tag: u8, payload: Seq<u8>)
    requires
        payload.len() <= 4194304,
    ensures
        ({
            let s = frame_bytes(tag, payload);
            &&& s.len() == 5 + payload.len()
            &&& s[0] == tag
            &&& s[1] + 0x100 * s[2] + 0x1_0000 * s[3] + 0x100_0000 * s[4] == payload.len()
            &&& s.skip(5) == payload
        }),
{
    let four = le32(payload.len() as int);
    let s = frame_bytes(tag, payload);
    lemma_four_bytes(payload.len() as int);
    assert(s[1] == four[0] && s[2] == four[1] && s[3] == four[2] && s[4] == four[3]);
    assert(s.skip(5) == payload);
}

/// Four bytes are the number, the lowest first.
proof fn lemma_four_bytes(x: int)
    requires
        0 <= x < 0x1_0000_0000,
    ensures
        le32(x).len() == 4,
        le32(x)[0] + 0x100 * le32(x)[1] + 0x1_0000 * le32(x)[2] + 0x100_0000 * le32(x)[3] == x,
{
    let four = le32(x);
    let low = x % 65536;
    let high = x / 65536;
    assert(four[0] == low % 256 && four[1] == low / 256 % 256);
    assert(four[2] == high % 256 && four[3] == high / 256 % 256);
    assert(low / 256 < 256 && high / 256 < 256);
}

/// Every client message has a tag of its own, and says in its payload what it holds.
pub proof fn law_client_messages_on_the_wire(msg: ClientMessage)
    ensures
        msg.wire() == frame_bytes(msg.wire()[0], msg.wire().skip(5)),
        msg.fits() <==> msg.wire().len() <= 4194309,
        ({
            let tag = msg.wire()[0];
            let payload = msg.wire().skip(5);
            match msg {
                ClientMessage::Attach { cols, rows } => tag == 1 && payload.len() == 4 && payload[0]
                    + 256 * payload[1] == cols && payload[2] + 256 * payload[3] == rows,
                ClientMessage::Input(bytes) => tag == 2 && payload == bytes,
                ClientMessage::Resize { cols, rows } => tag == 3 && payload.len() == 4 && payload[0]
                    + 256 * payload[1] == cols && payload[2] + 256 * payload[3] == rows,
                ClientMessage::Detach => tag == 4 && payload.len() == 0,
                ClientMessage::Kill => tag == 5 && payload.len() == 0,
                ClientMessage::Info => tag == 6 && payload.len() == 0,
                ClientMessage::Capture => tag == 7 && payload.len() == 0,
                ClientMessage::DetachClients => tag == 8 && payload.len() == 0,
            }
        }),
{
    assert(msg.wire().skip(5) == msg.payload());
    assert(msg.wire().len() == 5 + msg.payload().len());
}

/// Every server message has a tag of its own, and says in its payload what it holds.
pub proof fn law_server_messages_on_the_wire(msg: ServerMessage)
    ensures
        msg.wire() == frame_bytes(msg.wire()[0], msg.wire().skip(5)),
        msg.fits() <==> msg.wire().len() <= 4194309,
        ({
            let tag = msg.wire()[0];
            let payload = msg.wire().skip(5);
            match msg {
                ServerMessage::Repaint(bytes) => tag == 0x81 && payload == bytes,
                ServerMessage::Output(bytes) => tag == 0x82 && payload == bytes,
                ServerMessage::Exited(code) => tag == 0x83 && payload.len() == 4 && payload[0]
                    + 0x100 * payload[1] + 0x1_0000 * payload[2] + 0x100_0000 * payload[3] == (
                if code < 0 {
                    code + 0x1_0000_0000
                } else {
                    code as int
                }),
                ServerMessage::InfoReply { cols, rows, clients, command } => {
                    &&& tag == 0x84
                    &&& payload.len() == 8 + encode_utf8(command).len()
                    &&& payload[0] + 256 * payload[1] == cols
                    &&& payload[2] + 256 * payload[3] == rows
                    &&& payload[4] + 0x100 * payload[5] + 0x1_0000 * payload[6] + 0x100_0000
                        * payload[7] == clients
                    &&& payload.skip(8) == encode_utf8(command)
                },
                ServerMessage::CaptureReply(screen) => tag == 0x85 && payload == encode_utf8(
                    screen,
                ),
                ServerMessage::Detached => tag == 0x86 && payload.len() == 0,
            }
        }),
{
    let payload = msg.payload();
    assert(msg.wire().skip(5) == payload);
    assert(msg.wire().len() == 5 + payload.len());
    match msg {
        ServerMessage::Exited(code) => {
            lemma_four_bytes(code_bits(code));
        },
        ServerMessage::InfoReply { cols, rows, clients, command } => {
            let four = le32(clients as int);
            lemma_four_bytes(clients as int);
            assert(payload[4] == four[0] && payload[5] == four[1] && payload[6] == four[2]
                && payload[7] == four[3]);
            assert(payload.skip(8) == encode_utf8(command));
        },
        _ => {},
    }
}

/// What a client frame is read as, whatever its payload is: where a message has none, what is there
/// is ignored, and so is what follows the dimensions; too few bytes of dimensions are an error, and
/// so is a tag that no message has.
pub proof fn law_any_client_frame_is_read(tag: u8, payload: Seq<u8>)
    ensures
        ({
            let read = client_message(tag, payload);
            &&& tag == 1 || tag == 3 ==> if payload.len() < 4 {
                read == Err::<ClientMessage, ReadError>(ReadError::ShortDimensions)
            } else {
                read is Ok
            }
            &&& tag == 1 && payload.len() >= 4 ==> (read->Ok_0 matches ClientMessage::Attach {
                cols,
                rows,
            } && cols == payload[0] + 256 * payload[1] && rows == payload[2] + 256 * payload[3])
            &&& tag == 2 ==> read == Ok::<ClientMessage, ReadError>(ClientMessage::Input(payload))
            &&& tag == 3 && payload.len() >= 4 ==> (read->Ok_0 matches ClientMessage::Resize {
                cols,
                rows,
            } && cols == payload[0] + 256 * payload[1] && rows == payload[2] + 256 * payload[3])
            &&& tag == 4 ==> read == Ok::<ClientMessage, ReadError>(ClientMessage::Detach)
            &&& tag == 5 ==> read == Ok::<ClientMessage, ReadError>(ClientMessage::Kill)
            &&& tag == 6 ==> read == Ok::<ClientMessage, ReadError>(ClientMessage::Info)
            &&& tag == 7 ==> read == Ok::<ClientMessage, ReadError>(ClientMessage::Capture)
            &&& tag == 8 ==> read == Ok::<ClientMessage, ReadError>(ClientMessage::DetachClients)
            &&& tag == 0 || tag > 8 ==> read == Err::<ClientMessage, ReadError>(
                ReadError::UnknownClientTag(tag),
            )
        }),
{
}

/// What a server frame is read as, whatever its payload is.
pub proof fn law_any_server_frame_is_read(tag: u8, payload: Seq<u8>)
    ensures
        ({
            let read = server_message(tag, payload);
            &&& tag == 0x81 ==> read == Ok::<ServerMessage, ReadError>(
                ServerMessage::Repaint(payload),
            )
            &&& tag == 0x82 ==> read == Ok::<ServerMessage, ReadError>(
                ServerMessage::Output(payload),
            )
            &&& tag == 0x83 && payload.len() < 4 ==> read == Err::<ServerMessage, ReadError>(
                ReadError::ShortExitCode,
            )
            &&& tag == 0x83 && payload.len() >= 4 ==> (read matches Ok(ServerMessage::Exited(code))
                && (code == payload[0] + 0x100 * payload[1] + 0x1_0000 * payload[2] + 0x100_0000
                * payload[3] || code + 0x1_0000_0000 == payload[0] + 0x100 * payload[1] + 0x1_0000
                * payload[2] + 0x100_0000 * payload[3]))
            &&& tag == 0x84 && payload.len() < 8 ==> read == Err::<ServerMessage, ReadError>(
                ReadError::TruncatedInfo,
            )
            &&& tag == 0x84 && payload.len() >= 8 ==> (read matches Ok(
                ServerMessage::InfoReply { cols, rows, clients, command },
            ) && cols == payload[0] + 256 * payload[1] && rows == payload[2] + 256 * payload[3]
                && clients == payload[4] + 0x100 * payload[5] + 0x1_0000 * payload[6] + 0x100_0000
                * payload[7] && command == utf8::text_of_bytes(payload.skip(8)))
            &&& tag == 0x85 ==> read == Ok::<ServerMessage, ReadError>(
                ServerMessage::CaptureReply(utf8::text_of_bytes(payload)),
            )
            &&& tag == 0x86 ==> read == Ok::<ServerMessage, ReadError>(ServerMessage::Detached)
            &&& tag < 0x81 || tag > 0x86 ==> read == Err::<ServerMessage, ReadError>(
                ReadError::UnknownServerTag(tag),
            )
        }),
{
    if payload.len() >= 4 {
        assert(payload.skip(2)[0] == payload[2] && payload.skip(2)[1] == payload[3]);
    }
    if payload.len() >= 8 {
        let tail = payload.skip(4);
        assert(tail[0] == payload[4] && tail[1] == payload[5]);
        assert(tail.skip(2)[0] == payload[6] && tail.skip(2)[1] == payload[7]);
    }
}

/// How far a read goes into any stream: a stream that ends inside the header or the payload is used
/// up, of a frame that is announced as larger than four mebibytes only the header is taken, and any
/// other frame is taken whole, whether it holds a message or not.
pub proof fn law_reading_takes_one_frame(s: Seq<u8>)
    ensures
        ({
            let len = s[1] + 0x100 * s[2] + 0x1_0000 * s[3] + 0x100_0000 * s[4];
            let (client, client_rest) = client_read(s);
            let (server, server_rest) = server_read(s);
            &&& s.len() < 5 || (len <= 4194304 && s.len() < 5 + len) ==> {
                &&& client == Err::<ClientMessage, ReadError>(ReadError::UnexpectedEof)
                &&& server == Err::<ServerMessage, ReadError>(ReadError::UnexpectedEof)
                &&& client_rest.len() == 0
                &&& server_rest.len() == 0
            }
            &&& s.len() >= 5 && len > 4194304 ==> {
                &&& client == Err::<ClientMessage, ReadError>(ReadError::Oversized(len as u32))
                &&& server == Err::<ServerMessage, ReadError>(ReadError::Oversized(len as u32))
                &&& client_rest == s.skip(5)
                &&& server_rest == s.skip(5)
            }
            &&& s.len() >= 5 && len <= 4194304 && s.len() >= 5 + len ==> {
                &&& client == client_message(s[0], s.subrange(5, 5 + len))
                &&& server == server_message(s[0], s.subrange(5, 5 + len))
                &&& client_rest == s.skip(5 + len)
                &&& server_rest == s.skip(5 + len)
            }
        }),
{
    if s.len() >= 5 {
        let tail = s.skip(1);
        assert(tail[0] == s[1] && tail[1] == s[2]);
        assert(tail.skip(2)[0] == s[3] && tail.skip(2)[1] == s[4]);
    }
}

/// The header of a frame says what follows: the tag and the length, unless that is beyond four
/// mebibytes.
pub proof fn law_headers_are_read(header: &[u8], read: Result<(u8, usize), ReadError>)
    requires
        header@.len() == 5,
        call_ensures(frame_header, (header,), read),
    ensures
        ({
            let h = header@;
            let len = h[1] + 0x100 * h[2] + 0x1_0000 * h[3] + 0x100_0000 * h[4];
            &&& len > 4194304 ==> read == Err::<(u8, usize), ReadError>(
                ReadError::Oversized(len as u32),
            )
            &&& len <= 4194304 ==> read == Ok::<(u8, usize), ReadError>((h[0], len as usize))
        }),
{
    let tail = header@.skip(1);
    assert(tail[0] == header@[1] && tail[1] == header@[2]);
    assert(tail.skip(2)[0] == header@[3] && tail.skip(2)[1] == header@[4]);
}

/// An exit code and its bits stand for each other, whatever the code is.
pub proof fn law_exit_codes_keep_their_bits(code: i32, bits: u32)
    ensures
        bits_code(code_bits(code)) == code,
        code_bits(bits_code(bits as int)) == bits,
        0 <= code_bits(code) <= 0xffff_ffff,
        code >= 0 ==> code_bits(code) == code,
        code == -1 ==> code_bits(code) == 0xffff_ffff,
{
}

/// A message that is sent says what it was made of.
pub proof fn law_messages_say_what_they_hold(
    bytes: Vec<u8>,
    text: String,
    cols: u16,
    rows: u16,
    clients: u32,
    code: i32,
)
    ensures
        (ClientMsg::Attach { cols, rows })@ == (ClientMessage::Attach { cols, rows }),
        (ClientMsg::Resize { cols, rows })@ == (ClientMessage::Resize { cols, rows }),
        ClientMsg::Input(bytes)@ == ClientMessage::Input(bytes@),
        ServerMsg::Repaint(bytes)@ == ServerMessage::Repaint(bytes@),
        ServerMsg::Output(bytes)@ == ServerMessage::Output(bytes@),
        ServerMsg::Exited(code)@ == ServerMessage::Exited(code),
        ServerMsg::CaptureReply(text)@ == ServerMessage::CaptureReply(text@),
        (ServerMsg::InfoReply { cols, rows, clients, command: text })@ == (ServerMessage::InfoReply {
            cols,
            rows,
            clients,
            command: text@,
        }),
        ClientMsg::Detach@ == ClientMessage::Detach,
        ClientMsg::Kill@ == ClientMessage::Kill,
        ClientMsg::Info@ == ClientMessage::Info,
        ClientMsg::Capture@ == ClientMessage::Capture,
        ClientMsg::DetachClients@ == ClientMessage::DetachClients,
        ServerMsg::Detached@ == ServerMessage::Detached,
{
}

/// A message that is written for one client reads the same for the next.
pub proof fn law_copies_say_the_same(msg: &ServerMsg, other: ServerMsg, rest: Seq<u8>)
    requires
        call_ensures(ServerMsg::copy, (msg,), other),
        msg@.fits(),
    ensures
        server_read(other@.wire() + rest) == (Ok::<ServerMessage, ReadError>(msg@), rest),
{
    law_server_messages_read_back(msg@, rest);
}

/// Only a stream that ends early is told apart from one that holds what it should not.
pub proof fn law_kinds_of_read_errors(error: ReadError, kind: ErrorKind)
    requires
        call_ensures(ReadError::kind, (error,), kind),
    ensures
        kind == ErrorKind::UnexpectedEof <==> error == ReadError::UnexpectedEof,
        kind == ErrorKind::InvalidData <==> error != ReadError::UnexpectedEof,
{
}

/// What is wrong is said in words, with the length or the tag that was read.
pub proof fn law_read_errors_say_what_is_wrong(len: u32, tag: u8)
    ensures
        ReadError::UnexpectedEof.message_text() == "failed to fill whole buffer"@,
        ReadError::Oversized(len).message_text() == "frame payload of "@ + text::decimal_text(
            len as nat,
        ) + " bytes exceeds the "@ + text::decimal_text(4194304) + " byte limit"@,
        ReadError::UnknownClientTag(tag).message_text() == "unknown client frame tag 0x"@
            + text::byte_hex_text(tag),
        ReadError::UnknownServerTag(tag).message_text() == "unknown server frame tag 0x"@
            + text::byte_hex_text(tag),
        ReadError::ShortDimensions.message_text() == "expected 4 bytes of terminal dimensions"@,
        ReadError::ShortExitCode.message_text() == "expected 4 bytes of exit code"@,
        ReadError::TruncatedInfo.message_text() == "truncated info reply"@,
{
}

/// A frame is put behind what is there, whatever its payload.
pub proof fn law_frames_are_put_behind(w: &mut Vec<u8>, tag: u8, payload: &[u8])
    requires
        payload@.len() <= 4194304,
        call_ensures(write_frame, (w, tag, payload), ()),
    ensures
        final(w)@ == old(w)@ + frame_bytes(tag, payload@),
        final(w)@.len() == old(w)@.len() + 5 + payload@.len(),
        final(w)@[old(w)@.len() as int] == tag,
        final(w)@.skip(old(w)@.len() + 5int) == payload@,
{
    law_a_frame_on_the_wire(tag, payload@);
    assert(final(w)@.skip(old(w)@.len() + 5int) == frame_bytes(tag, payload@).skip(5));
}

/// A client message that was written is read, by the calls, and what follows it stays.
pub proof fn law_client_messages_go_through(
    msg: &ClientMsg,
    w: &mut Vec<u8>,
    r: &mut FrameReader,
    rest: Seq<u8>,
    read: Result<ClientMsg, ReadError>,
)
    requires
        msg@.fits(),
        old(w)@.len() == 0,
        call_ensures(ClientMsg::write_to, (msg, w), ()),
        old(r).remaining() == final(w)@ + rest,
        call_ensures(ClientMsg::read_from, (r,), read),
    ensures
        read matches Ok(got) && got@ == msg@,
        final(r).remaining() == rest,
{
    assert(old(w)@ + msg@.wire() == msg@.wire());
    law_client_messages_read_back(msg@, rest);
}

/// A server message that was written is read, by the calls, and what follows it stays.
pub proof fn law_server_messages_go_through(
    msg: &ServerMsg,
    w: &mut Vec<u8>,
    r: &mut FrameReader,
    rest: Seq<u8>,
    read: Result<ServerMsg, ReadError>,
)
    requires
        msg@.fits(),
        old(w)@.len() == 0,
        call_ensures(ServerMsg::write_to, (msg, w), ()),
        old(r).remaining() == final(w)@ + rest,
        call_ensures(ServerMsg::read_from, (r,), read),
    ensures
        read matches Ok(got) && got@ == msg@,
        final(r).remaining() == rest,
{
    assert(old(w)@ + msg@.wire() == msg@.wire());
    law_server_messages_read_back(msg@, rest);
}

/// A reader starts at the front, and says of every stream that ends too early that it does.
pub proof fn law_readers_start_at_the_front(
    bytes: Vec<u8>,
    reader: FrameReader,
    r: &mut FrameReader,
    read: Result<(u8, Vec<u8>), ReadError>,
)
    requires
        call_ensures(FrameReader::new, (bytes,), reader),
        call_ensures(read_frame, (r,), read),
    ensures
        reader.remaining() == bytes@,
        old(r).remaining().len() < 5 ==> read == Err::<(u8, Vec<u8>), ReadError>(
            ReadError::UnexpectedEof,
        ) && final(r).remaining().len() == 0,
        read matches Ok((tag, payload)) ==> old(r).remaining() == frame_bytes(tag, payload@)
            + final(r).remaining(),
{
    if let Ok((tag, payload)) = read {
        let s = old(r).remaining();
        law_reading_takes_one_frame(s);
        let four = s.skip(1);
        assert(four[0] == s[1] && four[1] == s[2]);
        assert(four.skip(2)[0] == s[3] && four.skip(2)[1] == s[4]);
        let len = le32_value(four);
        assert(payload@ == s.subrange(5, 5 + len));
        assert(final(r).remaining() == s.skip(5 + len));
        lemma_bytes_of_value(s[1], s[2], s[3], s[4]);
        assert(frame_bytes(tag, payload@) == s.take(5 + len));
        assert(s == s.take(5 + len) + s.skip(5 + len));
    }
}

proof fn lemma_bytes_of_value(a: u8, b: u8, c: u8, d: u8)
    ensures
        le32(a + 256 * b + 65536 * (c + 256 * d)) == seq![a, b, c, d],
{
    let low = a + 256 * b;
    let high = c + 256 * d;
    let x = low + 65536 * high;
    assert(x % 65536 == low && x / 65536 == high);
    assert(low % 256 == a && low / 256 % 256 == b);
    assert(high % 256 == c && high / 256 % 256 == d);
}

/// Frames are read as messages by the calls as they are by their meaning, and a message is said to
/// fit exactly where its payload has no more than four mebibytes.
pub proof fn law_frames_are_read_by_the_calls(
    tag: u8,
    payload: Vec<u8>,
    client: Result<ClientMsg, ReadError>,
    server: Result<ServerMsg, ReadError>,
    question: &ClientMsg,
    answer: &ServerMsg,
    short: bool,
    small: bool,
)
    requires
        call_ensures(ClientMsg::from_frame, (tag, payload), client),
        call_ensures(ServerMsg::from_frame, (tag, payload), server),
        call_ensures(ClientMsg::fits, (question,), short),
        call_ensures(ServerMsg::fits, (answer,), small),
    ensures
        client matches Ok(msg) ==> client_message(tag, payload@) == Ok::<ClientMessage, ReadError>(
            msg@,
        ),
        client matches Err(e) ==> client_message(tag, payload@) == Err::<ClientMessage, ReadError>(
            e,
        ),
        server matches Ok(msg) ==> server_message(tag, payload@) == Ok::<ServerMessage, ReadError>(
            msg@,
        ),
        server matches Err(e) ==> server_message(tag, payload@) == Err::<ServerMessage, ReadError>(
            e,
        ),
        short <==> question@.payload().len() <= 4194304,
        small <==> answer@.payload().len() <= 4194304,
        tag == 2 ==> (client matches Ok(ClientMsg::Input(bytes)) && bytes@ == payload@),
        tag == 0x82 ==> (server matches Ok(ServerMsg::Output(bytes)) && bytes@ == payload@),
{
}

/// Errors are told in their words.
pub proof fn law_read_errors_are_told_in_their_words(error: ReadError, message: String)
    requires
        call_ensures(ReadError::message, (error,), message),
    ensures
        message@ == error.message_text(),
{
}

} // verus!
