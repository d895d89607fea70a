//! The attaching client.
//!
//! The client is deliberately dumb: it owns no session state. It connects to the pipe, announces
//! its terminal size, paints whatever the server sends back, and then shuttles bytes in both
//! directions until the user detaches or the session ends.

use vstd::prelude::*;
use vstd::utf8::*;

use crate::console::Size;
use crate::input;
use crate::input::{InputParser, Key, KeyPress};
use crate::protocol;
use crate::protocol::{ClientMsg, ReadError, ServerMsg};
use crate::session;
use crate::session::NameError;
use crate::text;

verus! {

/// Default prefix key: Ctrl-B.
///
/// PSReadLine binds Ctrl-B to backward-char, so inside a session the literal keystroke is reached
/// by pressing the prefix twice.
pub const DEFAULT_PREFIX: u8 = 0x02;

/// The key pressed after the prefix to detach: `d`.
pub const DETACH_KEY: u8 = 0x64;

/// The control byte of a caret form: `^A` to `^_` stand for 0x01 to 0x1f, in either case of the
/// letter, and `^@` for 0x00.
pub open spec fn caret_byte(c: char) -> Option<u8> {
    if '@' <= c <= '_' {
        Some((c as u32 - 0x40) as u8)
    } else if 'a' <= c <= 'z' {
        Some((c as u32 - 0x60) as u8)
    } else {
        None
    }
}

/// The control byte that a prefix specification stands for: a bare control character, or the caret
/// form or a control character with white space around it.
pub open spec fn prefix_byte(raw: Seq<char>) -> Option<u8> {
    let t = text::trimmed(raw);
    if raw.len() == 1 && ' ' > raw[0] {
        Some(raw[0] as u8)
    } else if t.len() == 2 && t[0] == '^' {
        caret_byte(t[1])
    } else if t.len() == 1 && ' ' > t[0] {
        Some(t[0] as u8)
    } else {
        None
    }
}

/// Parses a prefix specification such as `^B` into its control byte.
pub fn parse_prefix(raw: &str) -> (prefix: Option<u8>)
    ensures
        prefix == prefix_byte(raw@),
{
    let bare: Vec<char> = text::chars_of(raw);
    if bare.len() == 1 && ' ' > bare[0] {
        return Some(bare[0] as u8);
    }
    let trimmed: String = text::trim(raw);
    let chars: Vec<char> = text::chars_of(trimmed.as_str());
    if chars.len() == 2 && chars[0] == '^' {
        let c: char = chars[1];
        if '@' <= c && c <= '_' {
            Some((c as u32 - 0x40) as u8)
        } else if 'a' <= c && c <= 'z' {
            Some((c as u32 - 0x60) as u8)
        } else {
            None
        }
    } else if chars.len() == 1 && ' ' > chars[0] {
        Some(chars[0] as u8)
    } else {
        None
    }
}

/// Every control byte can be made the prefix, as a bare control character and in the caret form.
pub proof fn law_every_control_byte_can_be_the_prefix(byte: u8)
    requires
        byte < 0x20,
    ensures
        prefix_byte(seq![byte as char]) == Some(byte),
        prefix_byte(seq!['^', (byte + 0x40) as char]) == Some(byte),
{
    let caret = seq!['^', (byte + 0x40) as char];
    text::lemma_trimmed_same(caret);
}

/// Resolves the prefix key, given the value of `WMUX_PREFIX`.
///
/// Anything unparseable falls back to the default rather than failing an attach.
pub fn configured_prefix(setting: Option<String>) -> (prefix: u8)
    ensures
        prefix == (match text::optional(setting) {
            Some(raw) => match prefix_byte(raw) {
                Some(byte) => byte,
                None => DEFAULT_PREFIX,
            },
            None => DEFAULT_PREFIX,
        }),
{
    match setting {
        Some(raw) => match parse_prefix(raw.as_str()) {
            Some(byte) => byte,
            None => DEFAULT_PREFIX,
        },
        None => DEFAULT_PREFIX,
    }
}

/// How a completed attach ended.
#[derive(Debug, Clone, Copy, PartialEq, Eq, Structural)]
pub enum Outcome {
    /// The user pressed the detach key; the session is still running.
    Detached,
    /// The session's child process exited with this code.
    Exited(i32),
}

/// Whether a character is the detach key, in either case.
pub open spec fn detach_key(c: u8) -> bool {
    c == DETACH_KEY || c == 0x44
}

/// What watching for the detach sequence comes to.
#[verifier::ext_equal]
pub struct Detection {
    /// The bytes withheld since the prefix was pressed, while its second key is awaited.
    pub held: Option<Seq<u8>>,
    /// The bytes for the session.
    pub forward: Seq<u8>,
    /// Whether the user asked to detach.
    pub detach: bool,
}

/// What one key comes to.
pub open spec fn detect_key(prefix: u8, held: Option<Seq<u8>>, key: KeyPress) -> Detection {
    match held {
        Some(bytes) => match key.ch {
            None => Detection { held: Some(bytes + key.raw), forward: Seq::empty(), detach: false },
            Some(c) => if detach_key(c) {
                Detection { held: None, forward: Seq::empty(), detach: true }
            } else if c == prefix {
                Detection { held: None, forward: bytes, detach: false }
            } else {
                Detection { held: None, forward: bytes + key.raw, detach: false }
            },
        },
        None => if key.ch == Some(prefix) {
            Detection { held: Some(key.raw), forward: Seq::empty(), detach: false }
        } else {
            Detection { held: None, forward: key.raw, detach: false }
        },
    }
}

/// What a row of keys comes to. Nothing behind a detach sequence counts.
pub open spec fn detect(prefix: u8, held: Option<Seq<u8>>, keys: Seq<KeyPress>) -> Detection
    decreases keys.len(),
{
    if keys.len() == 0 {
        Detection { held, forward: Seq::empty(), detach: false }
    } else {
        let before = detect(prefix, held, keys.drop_last());
        if before.detach {
            before
        } else {
            let last = detect_key(prefix, before.held, keys.last());
            Detection { forward: before.forward + last.forward, ..last }
        }
    }
}

/// Recognises the prefix + `d` detach sequence in a raw input stream.
#[derive(Debug)]
pub struct DetachDetector {
    prefix: u8,
    parser: InputParser,
    /// True once the prefix has been seen and what it modifies is awaited.
    armed: bool,
    /// Raw bytes withheld while armed: the prefix itself, plus any key releases that arrived
    /// before the second key. Replayed verbatim if the sequence turns out not to be a detach, so
    /// the session sees exactly what was typed and in the right order.
    held: Vec<u8>,
}

impl DetachDetector {
    /// The prefix key.
    pub closed spec fn prefix(&self) -> u8 {
        self.prefix
    }

    /// The bytes that wait for the rest of their key.
    pub closed spec fn pending(&self) -> Seq<u8> {
        self.parser.pending()
    }

    /// The bytes withheld since the prefix was pressed, while its second key is awaited.
    pub closed spec fn held(&self) -> Option<Seq<u8>> {
        if self.armed {
            Some(self.held@)
        } else {
            None
        }
    }

    /// A detector that has seen nothing.
    pub fn new(prefix: u8) -> (detector: DetachDetector)
        ensures
            detector.prefix() == prefix,
            detector.pending() == Seq::<u8>::empty(),
            detector.held() is None,
    {
        DetachDetector { prefix, parser: InputParser::new(), armed: false, held: Vec::new() }
    }

    /// Consumes one key. Returns whether the user asked to detach.
    fn feed_key(&mut self, key: &Key, out: &mut Vec<u8>) -> (detach: bool)
        ensures
            ({
                let d = detect_key(old(self).prefix(), old(self).held(), key@);
                &&& final(self).held() == d.held
                &&& final(out)@ == old(out)@ + d.forward
                &&& detach == d.detach
            }),
            final(self).prefix() == old(self).prefix(),
            final(self).pending() == old(self).pending(),
    {
        if self.armed {
            match key.ch {
                // Key releases and other characterless events arrive between the prefix and the
                // key it modifies. Hold them and stay armed, otherwise releasing Ctrl would cancel
                // the binding before 'd' was ever pressed.
                None => {
                    self.held.extend_from_slice(key.raw.as_slice());
                    assert(out@ == old(out)@ + Seq::<u8>::empty());
                    false
                },
                Some(c) => {
                    self.armed = false;
                    if c == DETACH_KEY || c == 0x44 {
                        self.held = Vec::new();
                        assert(out@ == old(out)@ + Seq::<u8>::empty());
                        return true;
                    }
                    out.append(&mut self.held);
                    if c != self.prefix {
                        out.extend_from_slice(key.raw.as_slice());
                        assert(out@ == old(out)@ + (old(self).held@ + key.raw@));
                    }
                    false
                },
            }
        } else if key.ch == Some(self.prefix) {
            self.armed = true;
            self.held = Vec::new();
            self.held.extend_from_slice(key.raw.as_slice());
            assert(self.held@ == key.raw@);
            assert(out@ == old(out)@ + Seq::<u8>::empty());
            false
        } else {
            out.extend_from_slice(key.raw.as_slice());
            false
        }
    }

    /// Consumes raw console input and returns the bytes to forward to the pty plus whether the
    /// user asked to detach.
    ///
    /// Input is decoded into key presses first, because Windows Terminal delivers keys as
    /// win32-input-mode escape sequences rather than plain bytes; see [`crate::input`]. Bytes are
    /// forwarded exactly as received, so whatever encoding the terminal negotiated still reaches
    /// the session.
    ///
    /// Pressing the prefix twice forwards a single literal prefix.
    pub fn feed(&mut self, input: &[u8]) -> (fed: (Vec<u8>, bool))
        ensures
            ({
                let stream = input::decoded(old(self).pending() + input@);
                let d = detect(old(self).prefix(), old(self).held(), stream.keys);
                &&& fed.0@ == d.forward
                &&& fed.1 == d.detach
                &&& final(self).held() == d.held
                &&& final(self).pending() == stream.rest
            }),
            final(self).prefix() == old(self).prefix(),
    {
        let keys: Vec<Key> = self.parser.feed(input);
        let ghost all = input::presses(keys@);
        let ghost rest = self.pending();
        let ghost held = old(self).held();
        let mut out: Vec<u8> = Vec::new();
        let mut i: usize = 0;
        while i < keys.len()
            invariant
                i <= keys.len(),
                all == input::presses(keys@),
                all == input::decoded(old(self).pending() + input@).keys,
                rest == input::decoded(old(self).pending() + input@).rest,
                held == old(self).held(),
                self.prefix() == old(self).prefix(),
                self.pending() == rest,
                detect(old(self).prefix(), held, all.take(i as int)) == (Detection {
                    held: self.held(),
                    forward: out@,
                    detach: false,
                }),
            decreases keys.len() - i,
        {
            assert(all.take(i + 1).drop_last() == all.take(i as int));
            assert(all.take(i + 1).last() == keys[i as int]@);
            let detach: bool = self.feed_key(&keys[i], &mut out);
            if detach {
                proof {
                    lemma_nothing_after_a_detach(old(self).prefix(), held, all, i + 1);
                }
                return (out, true);
            }
            i += 1;
        }
        assert(all.take(keys.len() as int) == all);
        (out, false)
    }
}

/// What comes behind a detach sequence makes no difference.
proof fn lemma_nothing_after_a_detach(
    prefix: u8,
    held: Option<Seq<u8>>,
    keys: Seq<KeyPress>,
    n: int,
)
    requires
        0 <= n <= keys.len(),
        detect(prefix, held, keys.take(n)).detach,
    ensures
        detect(prefix, held, keys) == detect(prefix, held, keys.take(n)),
    decreases keys.len(),
{
    if n < keys.len() {
        assert(keys.drop_last().take(n) == keys.take(n));
        lemma_nothing_after_a_detach(prefix, held, keys.drop_last(), n);
    } else {
        assert(keys.take(n) == keys);
    }
}

/// Two rows of keys, one behind the other: the second goes on where the first left off, unless
/// the first asked to detach.
pub proof fn law_keys_may_come_in_parts(
    prefix: u8,
    held: Option<Seq<u8>>,
    a: Seq<KeyPress>,
    b: Seq<KeyPress>,
)
    ensures
        ({
            let first = detect(prefix, held, a);
            let second = detect(prefix, first.held, b);
            detect(prefix, held, a + b) == if first.detach {
                first
            } else {
                Detection { forward: first.forward + second.forward, ..second }
            }
        }),
    decreases b.len(),
{
    let first = detect(prefix, held, a);
    if b.len() == 0 {
        assert(a + b == a);
        assert(first.forward + Seq::<u8>::empty() == first.forward);
    } else {
        law_keys_may_come_in_parts(prefix, held, a, b.drop_last());
        assert((a + b).drop_last() == a + b.drop_last());
        assert((a + b).last() == b.last());
        let second = detect(prefix, first.held, b.drop_last());
        let last = detect_key(prefix, second.held, b.last());
        assert((first.forward + second.forward) + last.forward == first.forward + (second.forward
            + last.forward));
    }
}

/// It makes no difference where the input is cut into reads: the detach sequence is found, and the
/// same bytes are forwarded, wherever the cut falls, be it between the prefix and the key or in
/// the middle of a key.
pub proof fn law_reads_may_come_in_parts(
    prefix: u8,
    held: Option<Seq<u8>>,
    pending: Seq<u8>,
    a: Seq<u8>,
    b: Seq<u8>,
)
    ensures
        ({
            let stream1 = input::decoded(pending + a);
            let d1 = detect(prefix, held, stream1.keys);
            let stream2 = input::decoded(stream1.rest + b);
            let d2 = detect(prefix, d1.held, stream2.keys);
            let stream = input::decoded(pending + (a + b));
            let d = detect(prefix, held, stream.keys);
            &&& stream.rest == stream2.rest
            &&& d == if d1.detach {
                d1
            } else {
                Detection { forward: d1.forward + d2.forward, ..d2 }
            }
        }),
{
    input::law_reads_may_be_split_anywhere(pending + a, b);
    assert((pending + a) + b == pending + (a + b));
    let stream1 = input::decoded(pending + a);
    let stream2 = input::decoded(stream1.rest + b);
    law_keys_may_come_in_parts(prefix, held, stream1.keys, stream2.keys);
}

/// Whether none of the keys is the prefix.
pub open spec fn without_prefix(prefix: u8, keys: Seq<KeyPress>) -> bool {
    forall|i: int| 0 <= i < keys.len() ==> (#[trigger] keys[i]).ch != Some(prefix)
}

/// Whether none of the keys carries a character: key releases, cursor keys, focus events.
pub open spec fn without_characters(keys: Seq<KeyPress>) -> bool {
    forall|i: int| 0 <= i < keys.len() ==> (#[trigger] keys[i]).ch is None
}

/// The bytes of the last key stand last.
proof fn lemma_raw_bytes_last(keys: Seq<KeyPress>)
    requires
        keys.len() > 0,
    ensures
        input::raw_bytes(keys) == input::raw_bytes(keys.drop_last()) + keys.last().raw,
    decreases keys.len(),
{
    if keys.len() == 1 {
        assert(keys.drop_first() == Seq::<KeyPress>::empty());
        assert(keys.drop_last() == Seq::<KeyPress>::empty());
        assert(input::raw_bytes(Seq::<KeyPress>::empty()) == Seq::<u8>::empty());
        assert(keys.first().raw + Seq::<u8>::empty() == Seq::<u8>::empty() + keys.last().raw);
    } else {
        lemma_raw_bytes_last(keys.drop_first());
        assert(keys.drop_first().drop_last() == keys.drop_last().drop_first());
        let middle = input::raw_bytes(keys.drop_first().drop_last());
        assert(keys.first().raw + (middle + keys.last().raw) == (keys.first().raw + middle)
            + keys.last().raw);
    }
}

/// Ordinary typing passes straight through: where the prefix is not among the keys, every byte is
/// forwarded, in order, and nobody detaches.
pub proof fn law_ordinary_typing_passes_through(prefix: u8, keys: Seq<KeyPress>)
    requires
        without_prefix(prefix, keys),
    ensures
        detect(prefix, None, keys) == (Detection {
            held: None,
            forward: input::raw_bytes(keys),
            detach: false,
        }),
    decreases keys.len(),
{
    if keys.len() > 0 {
        assert forall|i: int| 0 <= i < keys.drop_last().len() implies (#[trigger] keys.drop_last()[i]).ch
            != Some(prefix) by {
            assert(keys[i].ch != Some(prefix));
        }
        law_ordinary_typing_passes_through(prefix, keys.drop_last());
        lemma_raw_bytes_last(keys);
        assert(keys[keys.len() - 1].ch != Some(prefix));
    }
}

/// The same of a stream: what is forwarded and what waits for the rest of its key is all of it.
pub proof fn law_ordinary_input_is_forwarded_verbatim(prefix: u8, s: Seq<u8>)
    requires
        without_prefix(prefix, input::decoded(s).keys),
    ensures
        detect(prefix, None, input::decoded(s).keys).forward + input::decoded(s).rest == s,
        !detect(prefix, None, input::decoded(s).keys).detach,
{
    law_ordinary_typing_passes_through(prefix, input::decoded(s).keys);
    input::law_decoding_keeps_every_byte(s);
}

/// What carries no character does not resolve the prefix: it is held, not forwarded.
pub proof fn law_releases_do_not_cancel_the_prefix(
    prefix: u8,
    held: Seq<u8>,
    releases: Seq<KeyPress>,
)
    requires
        without_characters(releases),
    ensures
        detect(prefix, Some(held), releases) == (Detection {
            held: Some(held + input::raw_bytes(releases)),
            forward: Seq::empty(),
            detach: false,
        }),
    decreases releases.len(),
{
    if releases.len() > 0 {
        let front = releases.drop_last();
        assert forall|i: int| 0 <= i < front.len() implies (#[trigger] front[i]).ch is None by {
            assert(releases[i].ch is None);
        }
        law_releases_do_not_cancel_the_prefix(prefix, held, front);
        lemma_raw_bytes_last(releases);
        assert(releases[releases.len() - 1].ch is None);
        assert((held + input::raw_bytes(front)) + releases.last().raw == held + (input::raw_bytes(
            front,
        ) + releases.last().raw));
        assert(Seq::<u8>::empty() + Seq::<u8>::empty() == Seq::<u8>::empty());
    } else {
        assert(held + Seq::<u8>::empty() == held);
    }
}

/// What the key comes to that resolves the prefix, with nothing but releases in between.
proof fn lemma_prefix_and_key(
    prefix: u8,
    first: KeyPress,
    releases: Seq<KeyPress>,
    second: KeyPress,
)
    requires
        first.ch == Some(prefix),
        without_characters(releases),
        second.ch is Some,
    ensures
        detect(prefix, None, seq![first] + releases + seq![second]) == detect_key(
            prefix,
            Some(first.raw + input::raw_bytes(releases)),
            second,
        ),
{
    let held = first.raw + input::raw_bytes(releases);
    let keys = seq![first] + releases + seq![second];
    assert(seq![first].drop_last() == Seq::<KeyPress>::empty());
    assert(detect(prefix, None, seq![first]) == (Detection {
        held: Some(first.raw),
        forward: Seq::empty(),
        detach: false,
    })) by {
        reveal_with_fuel(detect, 2);
        assert(Seq::<u8>::empty() + Seq::<u8>::empty() == Seq::<u8>::empty());
    }
    law_releases_do_not_cancel_the_prefix(prefix, first.raw, releases);
    law_keys_may_come_in_parts(prefix, None, seq![first], releases);
    assert(keys.drop_last() == seq![first] + releases);
    assert(keys.last() == second);
    let last = detect_key(prefix, Some(held), second);
    assert(Seq::<u8>::empty() + Seq::<u8>::empty() == Seq::<u8>::empty());
    assert(Seq::<u8>::empty() + last.forward == last.forward);
}

/// The prefix and then the detach key, in either case, detach. Of the two keys and of what came
/// between them nothing is forwarded; what was typed before them is, and what comes behind them is
/// dropped.
pub proof fn law_prefix_then_d_detaches(
    prefix: u8,
    before: Seq<KeyPress>,
    first: KeyPress,
    releases: Seq<KeyPress>,
    second: KeyPress,
    behind: Seq<KeyPress>,
)
    requires
        without_prefix(prefix, before),
        first.ch == Some(prefix),
        without_characters(releases),
        second.ch matches Some(c) && detach_key(c),
    ensures
        detect(
            prefix,
            None,
            before + (seq![first] + releases + seq![second]) + behind,
        ) == (Detection { held: None, forward: input::raw_bytes(before), detach: true }),
{
    let keys = seq![first] + releases + seq![second];
    lemma_prefix_and_key(prefix, first, releases, second);
    law_ordinary_typing_passes_through(prefix, before);
    law_keys_may_come_in_parts(prefix, None, before, keys);
    law_keys_may_come_in_parts(prefix, None, before + keys, behind);
    assert(input::raw_bytes(before) + Seq::<u8>::empty() == input::raw_bytes(before));
}

/// The prefix pressed twice sends one literal prefix: the first one, with what came between; the
/// second one is swallowed.
pub proof fn law_doubled_prefix_sends_one(
    prefix: u8,
    first: KeyPress,
    releases: Seq<KeyPress>,
    second: KeyPress,
)
    requires
        !detach_key(prefix),
        first.ch == Some(prefix),
        without_characters(releases),
        second.ch == Some(prefix),
    ensures
        detect(prefix, None, seq![first] + releases + seq![second]) == (Detection {
            held: None,
            forward: first.raw + input::raw_bytes(releases),
            detach: false,
        }),
{
    lemma_prefix_and_key(prefix, first, releases, second);
}

/// The prefix and then a key that is bound to nothing: the session gets all of it, in the order in
/// which it was typed.
pub proof fn law_unbound_keys_are_replayed(
    prefix: u8,
    first: KeyPress,
    releases: Seq<KeyPress>,
    second: KeyPress,
)
    requires
        first.ch == Some(prefix),
        without_characters(releases),
        second.ch matches Some(c) && !detach_key(c) && c != prefix,
    ensures
        detect(prefix, None, seq![first] + releases + seq![second]) == (Detection {
            held: None,
            forward: input::raw_bytes(seq![first] + releases + seq![second]),
            detach: false,
        }),
{
    lemma_prefix_and_key(prefix, first, releases, second);
    let keys = seq![first] + releases + seq![second];
    lemma_raw_bytes_last(keys);
    assert(keys.drop_last() == seq![first] + releases);
    assert((seq![first] + releases).drop_first() == releases);
}

/// The same where the terminal sends key records instead of bytes: a press of the prefix, records
/// without a character (the release of the prefix, the press and release of modifiers), and a
/// press of the detach key detach, and nothing is forwarded.
pub proof fn law_key_records_detach(
    prefix: u8,
    first: input::KeyRecord,
    releases: Seq<input::KeyRecord>,
    second: input::KeyRecord,
)
    requires
        prefix >= 1,
        first.kd == 1 && first.uc == prefix,
        without_characters(input::record_presses(releases)),
        second.kd == 1 && (second.uc == 0x64 || second.uc == 0x44),
    ensures
        detect(
            prefix,
            None,
            input::decoded(input::records_bytes(seq![first] + releases + seq![second])).keys,
        ) == (Detection { held: None, forward: Seq::empty(), detach: true }),
{
    let records = seq![first] + releases + seq![second];
    input::law_rows_of_key_records_are_recognised(records);
    let quiet = input::record_presses(releases);
    assert(input::record_presses(records) == seq![first.press()] + quiet + seq![second.press()]);
    lemma_prefix_and_key(prefix, first.press(), quiet, second.press());
}

/// How often the client re-reads the console size to spot a window resize, in milliseconds.
///
/// Windows has no SIGWINCH; polling is the standard approach and this is well inside the threshold
/// where a resize feels instant.
pub const RESIZE_POLL: u64 = 200;

/// What the client writes when an attach is over: it drops any partial styling and leaves the
/// cursor somewhere sane, so that the shell the user returns to is not wearing the session's
/// colours.
pub open spec fn parting_bytes() -> Seq<u8> {
    seq![0x1b, 0x5b, 0x30, 0x6d, 0x0d, 0x0a]
}

/// What the client writes when an attach is over.
pub fn parting() -> (bytes: Vec<u8>)
    ensures
        bytes@ == parting_bytes(),
{
    let bytes: Vec<u8> = vec![0x1b, 0x5b, 0x30, 0x6d, 0x0d, 0x0a];
    assert(bytes@ == parting_bytes());
    bytes
}

/// What a row of messages says.
pub open spec fn messages(msgs: Seq<ClientMsg>) -> Seq<protocol::ClientMessage> {
    Seq::new(msgs.len(), |i: int| msgs[i]@)
}

/// The messages that console input comes to: what is to be forwarded, and the detach behind it.
pub open spec fn input_calls_for(d: Detection) -> Seq<protocol::ClientMessage> {
    let forward = if d.forward.len() > 0 {
        seq![protocol::ClientMessage::Input(d.forward)]
    } else {
        Seq::empty()
    };
    if d.detach {
        forward.push(protocol::ClientMessage::Detach)
    } else {
        forward
    }
}

/// Turns one read of console input into the messages to send, in order, and whether the client is
/// done reading.
pub fn pump_input(detector: &mut DetachDetector, input: &[u8]) -> (pumped: (Vec<ClientMsg>, bool))
    ensures
        ({
            let stream = input::decoded(old(detector).pending() + input@);
            let d = detect(old(detector).prefix(), old(detector).held(), stream.keys);
            &&& messages(pumped.0@) == input_calls_for(d)
            &&& pumped.1 == d.detach
            &&& final(detector).held() == d.held
            &&& final(detector).pending() == stream.rest
        }),
        final(detector).prefix() == old(detector).prefix(),
{
    let (forward, detach) = detector.feed(input);
    let mut msgs: Vec<ClientMsg> = Vec::new();
    let ghost bytes = forward@;
    if forward.len() > 0 {
        msgs.push(ClientMsg::Input(forward));
        assert(messages(msgs@) == seq![protocol::ClientMessage::Input(bytes)]);
    } else {
        assert(messages(msgs@) == Seq::<protocol::ClientMessage>::empty());
    }
    let ghost before = msgs@;
    if detach {
        msgs.push(ClientMsg::Detach);
        assert(messages(msgs@) == messages(before).push(protocol::ClientMessage::Detach));
    }
    (msgs, detach)
}

/// What the client does about a message of the server.
#[derive(Debug)]
pub enum Painting {
    /// Write these bytes to the terminal.
    Paint(Vec<u8>),
    /// Nothing.
    Ignore,
    /// The attach is over.
    Finish(Outcome),
}

/// Whether this is what a client does about `read`.
///
/// Screen contents are painted. An attached client never asks for the replies to other requests,
/// but ignoring them keeps the stream in sync. A connection that dropped counts as a detach: the
/// server closes it to acknowledge one, and where the session died underneath, the user is not
/// shown a spurious error.
pub open spec fn paints(
    read: Result<protocol::ServerMessage, ReadError>,
    painting: Painting,
) -> bool {
    match read {
        Ok(protocol::ServerMessage::Repaint(bytes)) => painting matches Painting::Paint(b) && b@
            == bytes,
        Ok(protocol::ServerMessage::Output(bytes)) => painting matches Painting::Paint(b) && b@
            == bytes,
        Ok(protocol::ServerMessage::Exited(code)) => painting == Painting::Finish(
            Outcome::Exited(code),
        ),
        Ok(protocol::ServerMessage::Detached) => painting == Painting::Finish(Outcome::Detached),
        Ok(protocol::ServerMessage::InfoReply { .. }) => painting is Ignore,
        Ok(protocol::ServerMessage::CaptureReply(_)) => painting is Ignore,
        Err(_) => painting == Painting::Finish(Outcome::Detached),
    }
}

/// What was read of the server.
pub open spec fn read_of(read: Result<ServerMsg, ReadError>) -> Result<
    protocol::ServerMessage,
    ReadError,
> {
    match read {
        Ok(msg) => Ok(msg@),
        Err(e) => Err(e),
    }
}

/// Decides what to do about what was read from the server side of the connection.
pub fn pump_output(read: Result<ServerMsg, ReadError>) -> (painting: Painting)
    ensures
        paints(read_of(read), painting),
{
    match read {
        Ok(ServerMsg::Repaint(bytes)) => Painting::Paint(bytes),
        Ok(ServerMsg::Output(bytes)) => Painting::Paint(bytes),
        Ok(ServerMsg::Exited(code)) => Painting::Finish(Outcome::Exited(code)),
        Ok(ServerMsg::Detached) => Painting::Finish(Outcome::Detached),
        Ok(ServerMsg::InfoReply { .. }) => Painting::Ignore,
        Ok(ServerMsg::CaptureReply(_)) => Painting::Ignore,
        Err(_) => Painting::Finish(Outcome::Detached),
    }
}

/// Tells the server when the window changes.
#[derive(Debug)]
pub struct ResizeWatcher {
    last: Size,
}

impl ResizeWatcher {
    /// The size that the server was told last.
    pub closed spec fn last(&self) -> Size {
        self.last
    }

    /// A watcher of a window whose size the server knows.
    pub fn new(initial: Size) -> (watcher: ResizeWatcher)
        ensures
            watcher.last() == initial,
    {
        ResizeWatcher { last: initial }
    }

    /// Takes in the size that the window has now, and gives the message to send if it changed.
    pub fn observe(&mut self, now: Size) -> (msg: Option<ClientMsg>)
        ensures
            final(self).last() == now,
            now == old(self).last() ==> msg is None,
            now != old(self).last() ==> msg == Some(
                ClientMsg::Resize { cols: now.cols, rows: now.rows },
            ),
    {
        if now != self.last {
            self.last = now;
            Some(ClientMsg::Resize { cols: now.cols, rows: now.rows })
        } else {
            None
        }
    }
}

/// What to write to which pipe.
#[derive(Debug)]
pub struct Request {
    /// The pipe of the session.
    pub path: String,
    /// The messages, as they go over the pipe.
    pub bytes: Vec<u8>,
}

/// Whether `request` puts these messages to the session, or says what is wrong with its name.
pub open spec fn asks(
    request: Result<Request, NameError>,
    sid: Seq<char>,
    name: Seq<char>,
    msgs: Seq<protocol::ClientMessage>,
) -> bool {
    match session::name_error(name) {
        Some(e) => request == Err::<Request, NameError>(e),
        None => request matches Ok(r) && r.path@ == session::path_text(sid, name) && r.bytes@
            == protocol::client_stream(msgs),
    }
}

/// The bytes of one message.
proof fn lemma_stream_of_one(msg: protocol::ClientMessage)
    ensures
        protocol::client_stream(seq![msg]) == msg.wire(),
{
    reveal_with_fuel(protocol::client_stream, 2);
    assert(seq![msg].drop_first() == Seq::<protocol::ClientMessage>::empty());
    assert(msg.wire() + Seq::<u8>::empty() == msg.wire());
}

/// The bytes of two messages.
proof fn lemma_stream_of_two(first: protocol::ClientMessage, second: protocol::ClientMessage)
    ensures
        protocol::client_stream(seq![first, second]) == first.wire() + second.wire(),
{
    assert(seq![first, second].drop_first() == seq![second]);
    lemma_stream_of_one(second);
}

/// Puts one message to a session.
fn ask(sid: &str, name: &str, msg: ClientMsg) -> (request: Result<Request, NameError>)
    requires
        msg@.fits(),
    ensures
        asks(request, sid@, name@, seq![msg@]),
{
    match session::pipe_path(sid, name) {
        Ok(path) => {
            let mut bytes: Vec<u8> = Vec::new();
            msg.write_to(&mut bytes);
            proof {
                lemma_stream_of_one(msg@);
                assert(bytes@ == msg@.wire());
            }
            Ok(Request { path, bytes })
        },
        Err(e) => Err(e),
    }
}

/// Puts a message to a session and asks for the screen behind it, so that the answer shows that
/// the message was acted on.
fn ask_and_capture(sid: &str, name: &str, msg: ClientMsg) -> (request: Result<Request, NameError>)
    requires
        msg@.fits(),
    ensures
        asks(request, sid@, name@, seq![msg@, protocol::ClientMessage::Capture]),
{
    match ask(sid, name, msg) {
        Ok(mut request) => {
            ClientMsg::Capture.write_to(&mut request.bytes);
            proof {
                lemma_stream_of_one(msg@);
                lemma_stream_of_two(msg@, protocol::ClientMessage::Capture);
            }
            Ok(request)
        },
        Err(e) => Err(e),
    }
}

/// Attaches to a running session, from a terminal of this size.
pub fn attach(sid: &str, name: &str, size: Size) -> (request: Result<Request, NameError>)
    ensures
        asks(
            request,
            sid@,
            name@,
            seq![protocol::ClientMessage::Attach { cols: size.cols, rows: size.rows }],
        ),
{
    ask(sid, name, ClientMsg::Attach { cols: size.cols, rows: size.rows })
}

/// Asks a session about itself.
pub fn query_info(sid: &str, name: &str) -> (request: Result<Request, NameError>)
    ensures
        asks(request, sid@, name@, seq![protocol::ClientMessage::Info]),
{
    ask(sid, name, ClientMsg::Info)
}

/// Sends literal input to a session without attaching.
///
/// The request round-trips a capture afterwards, so that it is answered only once the server has
/// actually consumed the bytes and written them to the pty. Without that a caller that exits
/// immediately could close the pipe before the input was read.
pub fn send_keys(sid: &str, name: &str, keys: &str) -> (request: Result<Request, NameError>)
    requires
        encode_utf8(keys@).len() <= protocol::MAX_PAYLOAD,
    ensures
        asks(
            request,
            sid@,
            name@,
            seq![
                protocol::ClientMessage::Input(encode_utf8(keys@)),
                protocol::ClientMessage::Capture,
            ],
        ),
{
    let bytes: Vec<u8> = vstd::slice::slice_to_vec(keys.as_bytes());
    ask_and_capture(sid, name, ClientMsg::Input(bytes))
}

/// Asks for the session's visible screen as plain text.
pub fn capture(sid: &str, name: &str) -> (request: Result<Request, NameError>)
    ensures
        asks(request, sid@, name@, seq![protocol::ClientMessage::Capture]),
{
    ask(sid, name, ClientMsg::Capture)
}

/// Detaches every client attached to a session, from outside it.
///
/// The escape hatch for when the prefix key cannot be used. The request round-trips a capture
/// afterwards, so that it is answered only once the server has acted on it.
pub fn detach_clients(sid: &str, name: &str) -> (request: Result<Request, NameError>)
    ensures
        asks(
            request,
            sid@,
            name@,
            seq![protocol::ClientMessage::DetachClients, protocol::ClientMessage::Capture],
        ),
{
    ask_and_capture(sid, name, ClientMsg::DetachClients)
}

/// Asks a session to terminate its child process.
pub fn kill(sid: &str, name: &str) -> (request: Result<Request, NameError>)
    ensures
        asks(request, sid@, name@, seq![protocol::ClientMessage::Kill]),
{
    ask(sid, name, ClientMsg::Kill)
}

/// What to tell the user when the pipe of a session is not there.
pub fn no_session_message(name: &str) -> (message: String)
    ensures
        message@ == "no session named "@ + text::quoted_text(name@) + " is running"@,
{
    let mut message: String = "no session named ".to_owned();
    message.append(text::quote_text(name).as_str());
    message.append(" is running");
    message
}

/// Why a request got no proper answer.
#[derive(Debug)]
pub enum ReplyError {
    /// There was no message to read.
    Read(ReadError),
    /// The message is no answer to the request.
    Unexpected(ServerMsg),
}

/// Takes in the answer to sent input: the screen, which shows that the input was consumed.
pub fn send_reply(read: Result<ServerMsg, ReadError>) -> (reply: Result<(), ReplyError>)
    ensures
        match read {
            Ok(ServerMsg::CaptureReply(_)) => reply is Ok,
            Ok(other) => reply == Err::<(), ReplyError>(ReplyError::Unexpected(other)),
            Err(e) => reply == Err::<(), ReplyError>(ReplyError::Read(e)),
        },
{
    match read {
        Ok(ServerMsg::CaptureReply(_)) => Ok(()),
        Ok(other) => Err(ReplyError::Unexpected(other)),
        Err(e) => Err(ReplyError::Read(e)),
    }
}

/// Takes in the answer to a capture: the text of the screen.
pub fn capture_reply(read: Result<ServerMsg, ReadError>) -> (reply: Result<String, ReplyError>)
    ensures
        match read {
            Ok(ServerMsg::CaptureReply(text)) => reply == Ok::<String, ReplyError>(text),
            Ok(other) => reply == Err::<String, ReplyError>(ReplyError::Unexpected(other)),
            Err(e) => reply == Err::<String, ReplyError>(ReplyError::Read(e)),
        },
{
    match read {
        Ok(ServerMsg::CaptureReply(text)) => Ok(text),
        Ok(other) => Err(ReplyError::Unexpected(other)),
        Err(e) => Err(ReplyError::Read(e)),
    }
}

/// How long to wait between two looks at the screen, in milliseconds.
pub const CAPTURE_POLL: u64 = 100;

/// What to do next while waiting for a text to appear on screen.
#[derive(Debug, Clone, Copy, PartialEq, Eq, Structural)]
pub enum WaitStep {
    /// Look at the screen.
    Capture,
    /// Wait `CAPTURE_POLL` and ask again what to do.
    Pause,
    /// The text is on screen.
    Found,
    /// The time is over.
    GiveUp,
}

/// Waits for a text to appear on screen.
///
/// Automation needs this: after sending a command there is no signal that the shell has finished
/// with it, and sleeping a guessed interval is both slower and less reliable than waiting for the
/// output to show up.
#[derive(Debug)]
pub struct CaptureWait {
    needle: String,
    last: String,
}

impl CaptureWait {
    /// The text that is waited for.
    pub closed spec fn needle(&self) -> Seq<char> {
        self.needle@
    }

    /// The screen as it was seen last.
    pub closed spec fn last(&self) -> Seq<char> {
        self.last@
    }

    /// Decides by the clock.
    pub fn next(&self, expired: bool) -> (step: WaitStep)
        ensures
            expired ==> step == WaitStep::GiveUp,
            !expired ==> step == WaitStep::Capture,
    {
        if expired {
            WaitStep::GiveUp
        } else {
            WaitStep::Capture
        }
    }

    /// Decides by what is on screen.
    pub fn captured(&mut self, screen: String) -> (step: WaitStep)
        ensures
            final(self).last() == screen@,
            final(self).needle() == old(self).needle(),
            text::holds(screen@, old(self).needle()) ==> step == WaitStep::Found,
            !text::holds(screen@, old(self).needle()) ==> step == WaitStep::Pause,
    {
        let found: bool = text::contains_text(screen.as_str(), self.needle.as_str());
        self.last = screen;
        if found {
            WaitStep::Found
        } else {
            WaitStep::Pause
        }
    }

    /// The screen as it was seen last.
    pub fn screen(&self) -> (text: &str)
        ensures
            text@ == self.last(),
    {
        self.last.as_str()
    }

    /// What to tell the user when the time is over. The time is given as it is to be printed.
    pub fn timeout_message(&self, timeout: &str) -> (message: String)
        ensures
            message@ == text::quoted_text(self.needle()) + " did not appear within "@ + timeout@
                + "; screen was:\n"@ + self.last(),
    {
        let mut message: String = text::quote_text(self.needle.as_str());
        message.append(" did not appear within ");
        message.append(timeout);
        message.append("; screen was:\n");
        message.append(self.last.as_str());
        message
    }
}

/// Starts to wait until `needle` appears on screen.
pub fn capture_wait(needle: &str) -> (wait: CaptureWait)
    ensures
        wait.needle() == needle@,
        wait.last() == Seq::<char>::empty(),
{
    CaptureWait { needle: needle.to_owned(), last: String::new() }
}

/// What an attach does about what it reads: the screen and the output are painted byte for byte;
/// it ends as exited with a code exactly where the server says that the child exited with that
/// code, whichever it is; it ends as detached exactly where the server says so or the connection
/// drops; and it goes on, painting nothing, at the answers to other requests.
pub proof fn law_an_attach_ends_as_the_server_says(
    read: Result<protocol::ServerMessage, ReadError>,
    painting: Painting,
    code: i32,
)
    requires
        paints(read, painting),
    ensures
        painting == Painting::Finish(Outcome::Exited(code)) <==> read == Ok::<
            protocol::ServerMessage,
            ReadError,
        >(protocol::ServerMessage::Exited(code)),
        painting == Painting::Finish(Outcome::Detached) <==> read is Err || read == Ok::<
            protocol::ServerMessage,
            ReadError,
        >(protocol::ServerMessage::Detached),
        read matches Ok(protocol::ServerMessage::Repaint(bytes)) ==> (painting matches Painting::Paint(
            b,
        ) && b@ == bytes),
        read matches Ok(protocol::ServerMessage::Output(bytes)) ==> (painting matches Painting::Paint(
            b,
        ) && b@ == bytes),
        painting is Ignore <==> (read matches Ok(msg) && (msg is InfoReply || msg is CaptureReply)),
{
}

/// The same of the call itself, over what came over the pipe.
pub proof fn law_what_is_read_is_painted_or_ends_the_attach(
    read: Result<ServerMsg, ReadError>,
    painting: Painting,
)
    requires
        call_ensures(pump_output, (read,), painting),
    ensures
        read matches Ok(ServerMsg::Exited(code)) ==> painting == Painting::Finish(
            Outcome::Exited(code),
        ),
        read matches Ok(ServerMsg::Detached) ==> painting == Painting::Finish(Outcome::Detached),
        read is Err ==> painting == Painting::Finish(Outcome::Detached),
        read matches Ok(ServerMsg::Output(bytes)) ==> (painting matches Painting::Paint(b) && b@
            == bytes@),
        read matches Ok(ServerMsg::Repaint(bytes)) ==> (painting matches Painting::Paint(b) && b@
            == bytes@),
{
}

/// What the prefix and one more key come to, where both are bytes: `d` and `D` detach, and nothing
/// is forwarded; the prefix again sends one prefix; any other byte sends both; and without the
/// prefix a byte is sent as it is. So it is for every prefix but an escape, `d` and `D`.
pub proof fn law_bytes_detach_or_pass(prefix: u8, b: u8)
    requires
        prefix != 0x1b,
        prefix != 0x64,
        prefix != 0x44,
        b != 0x1b,
    ensures
        ({
            let typed = |s: Seq<u8>| detect(prefix, None, input::decoded(s).keys);
            &&& b == 0x64 || b == 0x44 ==> typed(seq![prefix, b]) == (Detection {
                held: None,
                forward: Seq::empty(),
                detach: true,
            })
            &&& b == prefix ==> typed(seq![prefix, b]) == (Detection {
                held: None,
                forward: seq![prefix],
                detach: false,
            })
            &&& b != 0x64 && b != 0x44 && b != prefix ==> typed(seq![prefix, b]) == (Detection {
                held: None,
                forward: seq![prefix, b],
                detach: false,
            })
            &&& b != prefix ==> typed(seq![b]) == (Detection {
                held: None,
                forward: seq![b],
                detach: false,
            })
            &&& typed(seq![prefix]) == (Detection {
                held: Some(seq![prefix]),
                forward: Seq::empty(),
                detach: false,
            })
        }),
{
    input::law_a_plain_byte_is_a_key(b, Seq::empty());
    input::law_a_plain_byte_is_a_key(prefix, seq![b]);
    assert(seq![prefix] + seq![b] == seq![prefix, b]);
    let first = KeyPress { ch: Some(prefix), raw: seq![prefix] };
    let second = KeyPress { ch: Some(b), raw: seq![b] };
    let none = Seq::<KeyPress>::empty();
    assert(seq![first] + none + seq![second] == seq![first] + seq![second]);
    lemma_prefix_and_key(prefix, first, none, second);
    assert(input::raw_bytes(none) == Seq::<u8>::empty());
    assert(seq![prefix] + Seq::<u8>::empty() == seq![prefix]);
    assert(seq![prefix] + seq![b] == seq![prefix, b]);
    let empty = Seq::<u8>::empty();
    assert(empty + empty == empty);
    assert(seq![first].drop_last() == none);
    assert(seq![second].drop_last() == none);
    reveal_with_fuel(detect, 2);
    assert(empty + seq![b] == seq![b]);
}

/// A whole session of typing: bytes without escapes and without the prefix are all sent, in order,
/// then the prefix and `d` detach; what comes behind them is not sent.
pub proof fn law_typing_is_sent_until_the_detach(
    prefix: u8,
    typed: Seq<u8>,
    d: u8,
    behind: Seq<u8>,
)
    requires
        prefix != 0x1b,
        d == 0x64 || d == 0x44,
        forall|i: int| 0 <= i < typed.len() ==> #[trigger] typed[i] != 0x1b && typed[i] != prefix,
    ensures
        detect(
            prefix,
            None,
            input::decoded(typed + seq![prefix, d] + behind).keys,
        ) == (Detection { held: None, forward: typed, detach: true }),
{
    input::law_typing_is_read_byte_by_byte(typed);
    let keys = input::decoded(typed).keys;
    let first = KeyPress { ch: Some(prefix), raw: seq![prefix] };
    let second = KeyPress { ch: Some(d), raw: seq![d] };
    let none = Seq::<KeyPress>::empty();
    let rest = input::decoded(behind).keys;
    input::law_a_plain_byte_is_a_key(d, behind);
    input::law_a_plain_byte_is_a_key(prefix, seq![d] + behind);
    assert(seq![prefix] + (seq![d] + behind) == seq![prefix, d] + behind);
    assert(typed + seq![prefix, d] + behind == typed + (seq![prefix, d] + behind));
    input::law_a_key_is_its_bytes(typed, seq![prefix, d] + behind);
    assert(seq![first] + (seq![second] + rest) == seq![first] + none + seq![second] + rest);
    assert(keys + (seq![first] + none + seq![second] + rest) == keys + (seq![first] + none + seq![
        second,
    ]) + rest);
    assert forall|i: int| 0 <= i < keys.len() implies (#[trigger] keys[i]).ch != Some(prefix) by {
        assert(typed[i] != prefix);
    }
    law_prefix_then_d_detaches(prefix, keys, first, none, second, rest);
    input::law_decoding_keeps_every_byte(typed);
    assert(input::raw_bytes(keys) + Seq::<u8>::empty() == input::raw_bytes(keys));
}

/// Without the prefix, typing is sent byte for byte, and nobody detaches, also at `d`.
pub proof fn law_typing_without_the_prefix_is_sent(prefix: u8, typed: Seq<u8>)
    requires
        forall|i: int| 0 <= i < typed.len() ==> #[trigger] typed[i] != 0x1b && typed[i] != prefix,
    ensures
        detect(prefix, None, input::decoded(typed).keys) == (Detection {
            held: None,
            forward: typed,
            detach: false,
        }),
{
    input::law_typing_is_read_byte_by_byte(typed);
    let keys = input::decoded(typed).keys;
    assert forall|i: int| 0 <= i < keys.len() implies (#[trigger] keys[i]).ch != Some(prefix) by {
        assert(typed[i] != prefix);
    }
    law_ordinary_typing_passes_through(prefix, keys);
    input::law_decoding_keeps_every_byte(typed);
    assert(input::raw_bytes(keys) + Seq::<u8>::empty() == input::raw_bytes(keys));
}

/// Key records, one by one: the prefix is withheld whichever character it has, the records of
/// other keys are sent as they came, and behind the prefix a press that is neither `d`, `D` nor the
/// prefix sends both.
pub proof fn law_key_records_pass(
    prefix: u8,
    first: input::KeyRecord,
    second: input::KeyRecord,
)
    requires
        prefix >= 1,
        prefix != 0x64,
        prefix != 0x44,
        first.kd == 1 && first.uc == prefix,
        second.kd == 1 && 1 <= second.uc <= 0xff,
        second.uc != 0x64 && second.uc != 0x44,
    ensures
        detect(prefix, None, input::decoded(first.bytes()).keys) == (Detection {
            held: Some(first.bytes()),
            forward: Seq::empty(),
            detach: false,
        }),
        detect(prefix, None, input::decoded(first.bytes() + second.bytes()).keys) == (Detection {
            held: None,
            forward: if second.uc == prefix {
                first.bytes()
            } else {
                first.bytes() + second.bytes()
            },
            detach: false,
        }),
        second.uc != prefix ==> detect(prefix, None, input::decoded(second.bytes()).keys) == (
        Detection { held: None, forward: second.bytes(), detach: false }),
{
    input::law_key_records_are_recognised(
        first.vk,
        first.sc,
        first.uc,
        first.kd,
        first.cs,
        first.rc,
    );
    input::law_key_records_are_recognised(
        second.vk,
        second.sc,
        second.uc,
        second.kd,
        second.cs,
        second.rc,
    );
    input::law_a_key_is_its_bytes(first.bytes(), second.bytes());
    let a = KeyPress { ch: Some(prefix), raw: first.bytes() };
    let b = KeyPress { ch: Some(second.uc as u8), raw: second.bytes() };
    let none = Seq::<KeyPress>::empty();
    let empty = Seq::<u8>::empty();
    assert(seq![a] + none + seq![b] == seq![a] + seq![b]);
    lemma_prefix_and_key(prefix, a, none, b);
    assert(input::raw_bytes(none) == empty);
    assert(first.bytes() + empty == first.bytes());
    assert(empty + empty == empty);
    assert(empty + second.bytes() == second.bytes());
    assert(seq![a].drop_last() == none);
    assert(seq![b].drop_last() == none);
    reveal_with_fuel(detect, 2);
}

/// A prefix that is set is a control byte, and every caret form gives one, in either case of the
/// letter: `^A` and `^a` are 0x01, `^Z` and `^z` are 0x1a, and `^@` to `^_` are 0x00 to 0x1f. Nothing
/// else is a prefix, and white space around the form makes no difference.
pub proof fn law_prefixes_are_control_bytes(raw: Seq<char>, letter: u8)
    requires
        1 <= letter <= 26,
    ensures
        prefix_byte(raw) matches Some(b) ==> b < 0x20,
        prefix_byte(seq!['^', (letter + 0x60) as char]) == Some(letter),
        prefix_byte(seq!['^', (letter + 0x40) as char]) == Some(letter),
        raw.len() > 1 ==> prefix_byte(raw) == prefix_byte(text::trimmed(raw)),
        prefix_byte(raw) is Some ==> (raw.len() == 1 && ' ' > raw[0]) || (text::trimmed(raw).len()
            == 1 && ' ' > text::trimmed(raw)[0]) || (text::trimmed(raw).len() == 2 && text::trimmed(
            raw,
        )[0] == '^'),
        prefix_byte(Seq::empty()) is None,
{
    let upper = seq!['^', (letter + 0x40) as char];
    let lower = seq!['^', (letter + 0x60) as char];
    text::lemma_trimmed_same(upper);
    text::lemma_trimmed_same(lower);
    let t = text::trimmed(raw);
    text::law_only_white_space_is_trimmed_away(raw);
    text::lemma_trimmed_same(t);
    if raw.len() == 1 {
        lemma_control_byte(raw[0]);
    }
    if t.len() == 1 {
        lemma_control_byte(t[0]);
    }
    if t.len() == 2 && t[0] == '^' {
        lemma_control_byte(t[1]);
    }
}

proof fn lemma_control_byte(c: char)
    ensures
        caret_byte(c) matches Some(b) ==> b < 0x20,
        ' ' > c ==> (c as u8) < 0x20,
{
}

/// What is configured is the prefix where it is one, and Ctrl-B where it is not or nothing is.
pub proof fn law_ctrl_b_unless_configured(
    setting: String,
    set: u8,
    unset: u8,
)
    requires
        call_ensures(configured_prefix, (Some(setting),), set),
        call_ensures(configured_prefix, (None,), unset),
    ensures
        unset == 2,
        prefix_byte(setting@) matches Some(b) ==> set == b,
        prefix_byte(setting@) is None ==> set == 2,
        set < 0x20,
{
    law_prefixes_are_control_bytes(setting@, 1);
}

/// What is typed is sent as one message where there is anything, and the detach as one behind it;
/// there are no other messages.
pub proof fn law_typing_is_sent_in_order(d: Detection)
    ensures
        d.forward.len() > 0 && !d.detach ==> input_calls_for(d) == seq![
            protocol::ClientMessage::Input(d.forward),
        ],
        d.forward.len() > 0 && d.detach ==> input_calls_for(d) == seq![
            protocol::ClientMessage::Input(d.forward),
            protocol::ClientMessage::Detach,
        ],
        d.forward.len() == 0 && d.detach ==> input_calls_for(d) == seq![
            protocol::ClientMessage::Detach,
        ],
        d.forward.len() == 0 && !d.detach ==> input_calls_for(d).len() == 0,
{
}

/// The terminal gets its plain style back, and a line of its own: `ESC [ 0 m`, CR and LF.
pub proof fn law_the_terminal_is_left_plain()
    ensures
        parting_bytes() == seq![0x1bu8, '[' as u8, '0' as u8, 'm' as u8, 13, 10],
{
}

/// A request goes to the pipe of the session that it names, and the server reads from it the
/// messages that were put, in order, and nothing else. It is refused exactly where no session can
/// have the name.
pub proof fn law_a_request_reaches_its_session(
    request: Result<Request, NameError>,
    sid: Seq<char>,
    name: Seq<char>,
    first: protocol::ClientMessage,
    second: protocol::ClientMessage,
)
    requires
        first.fits(),
        second.fits(),
    ensures
        asks(request, sid, name, seq![first]) ==> (request is Ok <==> session::valid_name(name)),
        asks(request, sid, name, seq![first]) ==> (request matches Ok(r) ==> r.path@
            == "\\\\.\\pipe\\wmux."@ + sid + "."@ + name && protocol::client_read(r.bytes@) == (
            Ok::<protocol::ClientMessage, ReadError>(first),
            Seq::<u8>::empty(),
        )),
        asks(request, sid, name, seq![first, second]) ==> (request matches Ok(r) ==> r.path@
            == "\\\\.\\pipe\\wmux."@ + sid + "."@ + name && protocol::client_read(r.bytes@).0
            == Ok::<protocol::ClientMessage, ReadError>(first) && protocol::client_read(
            protocol::client_read(r.bytes@).1,
        ) == (Ok::<protocol::ClientMessage, ReadError>(second), Seq::<u8>::empty())),
{
    lemma_stream_of_one(first);
    lemma_stream_of_one(second);
    lemma_stream_of_two(first, second);
    let none = Seq::<u8>::empty();
    protocol::law_client_messages_read_back(first, none);
    protocol::law_client_messages_read_back(first, second.wire());
    protocol::law_client_messages_read_back(second, none);
    assert(first.wire() + none == first.wire());
    assert(second.wire() + none == second.wire());
    session::law_the_path_of_a_session(sid, name);
}

/// Every request asks for what it is named for: attaching with the size of the terminal, the
/// questions, the text that is sent, byte for byte, with a capture behind it, detaching the clients
/// with a capture behind it, and killing.
pub proof fn law_requests_ask_for_what_they_are_for(
    sid: &str,
    name: &str,
    size: Size,
    keys: &str,
    attached: Result<Request, NameError>,
    info: Result<Request, NameError>,
    sent: Result<Request, NameError>,
    captured: Result<Request, NameError>,
    detached: Result<Request, NameError>,
    killed: Result<Request, NameError>,
)
    requires
        encode_utf8(keys@).len() <= protocol::MAX_PAYLOAD,
        call_ensures(attach, (sid, name, size), attached),
        call_ensures(query_info, (sid, name), info),
        call_ensures(send_keys, (sid, name, keys), sent),
        call_ensures(capture, (sid, name), captured),
        call_ensures(detach_clients, (sid, name), detached),
        call_ensures(kill, (sid, name), killed),
    ensures
        attached matches Ok(r) ==> protocol::client_read(r.bytes@).0 == Ok::<
            protocol::ClientMessage,
            ReadError,
        >(protocol::ClientMessage::Attach { cols: size.cols, rows: size.rows }),
        info matches Ok(r) ==> protocol::client_read(r.bytes@).0 == Ok::<
            protocol::ClientMessage,
            ReadError,
        >(protocol::ClientMessage::Info),
        sent matches Ok(r) ==> protocol::client_read(r.bytes@).0 == Ok::<
            protocol::ClientMessage,
            ReadError,
        >(protocol::ClientMessage::Input(encode_utf8(keys@))),
        captured matches Ok(r) ==> protocol::client_read(r.bytes@).0 == Ok::<
            protocol::ClientMessage,
            ReadError,
        >(protocol::ClientMessage::Capture),
        detached matches Ok(r) ==> protocol::client_read(r.bytes@).0 == Ok::<
            protocol::ClientMessage,
            ReadError,
        >(protocol::ClientMessage::DetachClients),
        killed matches Ok(r) ==> protocol::client_read(r.bytes@) == (
            Ok::<protocol::ClientMessage, ReadError>(protocol::ClientMessage::Kill),
            Seq::<u8>::empty(),
        ),
        session::valid_name(name@) <==> attached is Ok,
        session::valid_name(name@) <==> info is Ok,
        session::valid_name(name@) <==> sent is Ok,
        session::valid_name(name@) <==> captured is Ok,
        session::valid_name(name@) <==> detached is Ok,
        session::valid_name(name@) <==> killed is Ok,
{
    let a = protocol::ClientMessage::Attach { cols: size.cols, rows: size.rows };
    let i = protocol::ClientMessage::Info;
    let s = protocol::ClientMessage::Input(encode_utf8(keys@));
    let c = protocol::ClientMessage::Capture;
    let d = protocol::ClientMessage::DetachClients;
    let k = protocol::ClientMessage::Kill;
    law_a_request_reaches_its_session(attached, sid@, name@, a, c);
    law_a_request_reaches_its_session(info, sid@, name@, i, c);
    law_a_request_reaches_its_session(sent, sid@, name@, s, c);
    law_a_request_reaches_its_session(captured, sid@, name@, c, c);
    law_a_request_reaches_its_session(detached, sid@, name@, d, c);
    law_a_request_reaches_its_session(killed, sid@, name@, k, c);
}

/// An answer counts only where it is the one that was asked for: the screen, which is handed over
/// as it came. Anything else is an error that says what came.
pub proof fn law_only_the_answer_counts(
    read: Result<ServerMsg, ReadError>,
    sent: Result<(), ReplyError>,
    captured: Result<String, ReplyError>,
)
    requires
        call_ensures(send_reply, (read,), sent),
        call_ensures(capture_reply, (read,), captured),
    ensures
        sent is Ok <==> (read matches Ok(ServerMsg::CaptureReply(_))),
        captured is Ok <==> (read matches Ok(ServerMsg::CaptureReply(_))),
        captured matches Ok(text) ==> read == Ok::<ServerMsg, ReadError>(
            ServerMsg::CaptureReply(text),
        ),
        read matches Err(e) ==> sent == Err::<(), ReplyError>(ReplyError::Read(e)) && captured
            == Err::<String, ReplyError>(ReplyError::Read(e)),
        sent matches Err(ReplyError::Unexpected(msg)) ==> read == Ok::<ServerMsg, ReadError>(msg),
{
}

/// What is behind the first message of a request: a capture, where the answer is to show that the
/// first was acted on, and otherwise nothing.
pub proof fn law_requests_end_where_they_should(
    sid: &str,
    name: &str,
    size: Size,
    keys: &str,
    attached: Result<Request, NameError>,
    info: Result<Request, NameError>,
    sent: Result<Request, NameError>,
    captured: Result<Request, NameError>,
    detached: Result<Request, NameError>,
)
    requires
        encode_utf8(keys@).len() <= 4194304,
        call_ensures(attach, (sid, name, size), attached),
        call_ensures(query_info, (sid, name), info),
        call_ensures(send_keys, (sid, name, keys), sent),
        call_ensures(capture, (sid, name), captured),
        call_ensures(detach_clients, (sid, name), detached),
    ensures
        ({
            let capture = (
                Ok::<protocol::ClientMessage, ReadError>(protocol::ClientMessage::Capture),
                Seq::<u8>::empty(),
            );
            let behind = |bytes: Seq<u8>| protocol::client_read(bytes).1;
            let path = "\\\\.\\pipe\\wmux."@ + sid@ + "."@ + name@;
            &&& (attached matches Ok(r) ==> behind(r.bytes@).len() == 0 && r.path@ == path)
            &&& (info matches Ok(r) ==> behind(r.bytes@).len() == 0 && r.path@ == path)
            &&& (captured matches Ok(r) ==> behind(r.bytes@).len() == 0 && r.path@ == path)
            &&& (sent matches Ok(r) ==> protocol::client_read(behind(r.bytes@)) == capture
                && r.path@ == path)
            &&& (detached matches Ok(r) ==> protocol::client_read(behind(r.bytes@)) == capture
                && r.path@ == path)
        }),
{
    let a = protocol::ClientMessage::Attach { cols: size.cols, rows: size.rows };
    let i = protocol::ClientMessage::Info;
    let s = protocol::ClientMessage::Input(encode_utf8(keys@));
    let c = protocol::ClientMessage::Capture;
    let d = protocol::ClientMessage::DetachClients;
    law_a_request_reaches_its_session(attached, sid@, name@, a, c);
    law_a_request_reaches_its_session(info, sid@, name@, i, c);
    law_a_request_reaches_its_session(sent, sid@, name@, s, c);
    law_a_request_reaches_its_session(captured, sid@, name@, c, c);
    law_a_request_reaches_its_session(detached, sid@, name@, d, c);
}

/// A wait for a text on screen starts without a screen, looks until the time is over, and then says
/// what it waited for, how long, and what it saw.
pub proof fn law_a_wait_says_what_it_saw(
    needle: &str,
    start: CaptureWait,
    wait: &CaptureWait,
    expired: bool,
    step: WaitStep,
    screen: &str,
    timeout: &str,
    message: String,
)
    requires
        call_ensures(capture_wait, (needle,), start),
        call_ensures(CaptureWait::next, (wait, expired), step),
        call_ensures(CaptureWait::screen, (wait,), screen),
        call_ensures(CaptureWait::timeout_message, (wait, timeout), message),
    ensures
        start.needle() == needle@,
        start.last().len() == 0,
        step == WaitStep::GiveUp <==> expired,
        step == WaitStep::Capture <==> !expired,
        screen@ == wait.last(),
        message@ == text::quoted_text(wait.needle()) + " did not appear within "@ + timeout@
            + "; screen was:\n"@ + screen@,
{
}

/// What an attach starts with: a detector that has seen nothing, a watcher that knows the size, and
/// the bytes that it will end with. The window is looked at five times a second, and the screen that
/// is waited for ten times.
pub proof fn law_an_attach_starts_afresh(
    prefix: u8,
    size: Size,
    detector: DetachDetector,
    watcher: ResizeWatcher,
    bytes: Vec<u8>,
    name: &str,
    missing: String,
)
    requires
        call_ensures(DetachDetector::new, (prefix,), detector),
        call_ensures(ResizeWatcher::new, (size,), watcher),
        call_ensures(parting, (), bytes),
        call_ensures(no_session_message, (name,), missing),
    ensures
        detector.prefix() == prefix,
        detector.pending().len() == 0,
        detector.held() is None,
        watcher.last() == size,
        bytes@ == seq![0x1bu8, 0x5bu8, 0x30u8, 0x6du8, 13u8, 10u8],
        missing@ == "no session named "@ + text::quoted_text(name@) + " is running"@,
        RESIZE_POLL == 200,
        CAPTURE_POLL == 100,
        DEFAULT_PREFIX == 2,
{
}

/// What a prefix that is set is read as, by the call.
pub proof fn law_prefixes_are_parsed(raw: &str, prefix: Option<u8>)
    requires
        call_ensures(parse_prefix, (raw,), prefix),
    ensures
        prefix == prefix_byte(raw@),
        raw@.len() == 0 ==> prefix is None,
        raw@.len() == 1 && ' ' > raw@[0] ==> prefix == Some(raw@[0] as u8),
{
    law_prefixes_are_control_bytes(raw@, 1);
    if raw@.len() == 0 {
        assert(raw@ == Seq::<char>::empty());
    }
}

/// Caret forms that stand for nothing are no prefix: neither a character beyond the letters, nor one
/// before `@`.
pub proof fn law_other_caret_forms_are_no_prefix(c: char)
    requires
        c < '@' || '_' < c < 'a' || c > 'z',
        !text::white_space(c),
    ensures
        prefix_byte(seq!['^', c]) is None,
{
    text::lemma_trimmed_same(seq!['^', c]);
}

/// White space around a caret form does not count.
pub proof fn law_white_space_around_a_prefix_does_not_count(
    a: Seq<char>,
    letter: u8,
    b: Seq<char>,
)
    requires
        letter < 0x20,
        forall|i: int| 0 <= i < a.len() ==> text::white_space(#[trigger] a[i]),
        forall|i: int| 0 <= i < b.len() ==> text::white_space(#[trigger] b[i]),
    ensures
        prefix_byte(a + seq!['^', (letter + 0x40) as char] + b) == Some(letter),
{
    let form = seq!['^', (letter + 0x40) as char];
    text::law_white_space_around_is_trimmed(a, form, b);
}

/// The server is told of a window exactly where it changed, and of the size that it has now.
pub proof fn law_a_change_of_the_window_is_told(
    watcher: &mut ResizeWatcher,
    now: Size,
    msg: Option<ClientMsg>,
)
    requires
        call_ensures(ResizeWatcher::observe, (watcher, now), msg),
    ensures
        final(watcher).last() == now,
        msg is Some <==> now.cols != old(watcher).last().cols || now.rows != old(
            watcher,
        ).last().rows,
        msg matches Some(told) ==> told@ == (protocol::ClientMessage::Resize {
            cols: now.cols,
            rows: now.rows,
        }),
{
}

/// The wait for a text ends with the first screen that it is on, wherever it stands there.
pub proof fn law_the_wait_ends_when_the_text_is_there(
    wait: &mut CaptureWait,
    screen: String,
    step: WaitStep,
)
    requires
        call_ensures(CaptureWait::captured, (wait, screen), step),
    ensures
        (exists|x: Seq<char>, y: Seq<char>| screen@ == #[trigger] (x + old(wait).needle() + y))
            ==> step == WaitStep::Found,
        step == WaitStep::Found ==> exists|x: Seq<char>, y: Seq<char>|
            screen@ == #[trigger] (x + old(wait).needle() + y),
        step == WaitStep::Found || step == WaitStep::Pause,
        final(wait).last() == screen@,
        final(wait).needle() == old(wait).needle(),
{
    let needle = old(wait).needle();
    if exists|x: Seq<char>, y: Seq<char>| screen@ == #[trigger] (x + needle + y) {
        let (x, y) = choose|x: Seq<char>, y: Seq<char>| screen@ == #[trigger] (x + needle + y);
        text::lemma_holds_in_whole(x, needle, y);
    }
    text::law_a_part_is_found_wherever_it_stands(screen@, Seq::empty(), needle, Seq::empty());
}

/// What is typed without escapes and without the prefix is sent, as one message, byte for byte; and
/// nothing is sent where nothing was typed.
pub proof fn law_what_is_typed_is_sent(
    detector: &mut DetachDetector,
    typed: &[u8],
    pumped: (Vec<ClientMsg>, bool),
)
    requires
        old(detector).pending().len() == 0,
        old(detector).held() is None,
        forall|i: int|
            0 <= i < typed@.len() ==> #[trigger] typed@[i] != 0x1b && typed@[i] != old(
                detector,
            ).prefix(),
        call_ensures(pump_input, (detector, typed), pumped),
    ensures
        !pumped.1,
        typed@.len() > 0 ==> pumped.0@.len() == 1 && pumped.0@[0]@
            == protocol::ClientMessage::Input(typed@),
        typed@.len() == 0 ==> pumped.0@.len() == 0,
        final(detector).held() is None,
        final(detector).pending().len() == 0,
        final(detector).prefix() == old(detector).prefix(),
{
    let prefix = old(detector).prefix();
    assert(old(detector).pending() + typed@ == typed@);
    law_typing_without_the_prefix_is_sent(prefix, typed@);
    input::law_typing_is_read_byte_by_byte(typed@);
    let d = detect(prefix, None, input::decoded(typed@).keys);
    law_typing_is_sent_in_order(d);
    assert(messages(pumped.0@) == input_calls_for(d));
    assert(messages(pumped.0@).len() == pumped.0@.len());
    if typed@.len() > 0 {
        assert(messages(pumped.0@)[0] == pumped.0@[0]@);
    }
}

/// The prefix and `d` detach: the server is told, behind what was typed before, and reading ends.
pub proof fn law_the_detach_is_sent(
    detector: &mut DetachDetector,
    before: Seq<u8>,
    d: u8,
    behind: Seq<u8>,
    typed: &[u8],
    pumped: (Vec<ClientMsg>, bool),
)
    requires
        old(detector).pending().len() == 0,
        old(detector).held() is None,
        old(detector).prefix() != 0x1b,
        d == 0x64 || d == 0x44,
        forall|i: int|
            0 <= i < before.len() ==> #[trigger] before[i] != 0x1b && before[i] != old(
                detector,
            ).prefix(),
        typed@ == before + seq![old(detector).prefix(), d] + behind,
        call_ensures(pump_input, (detector, typed), pumped),
    ensures
        pumped.1,
        pumped.0@.len() >= 1,
        pumped.0@.last()@ == protocol::ClientMessage::Detach,
        before.len() > 0 ==> pumped.0@.len() == 2 && pumped.0@[0]@
            == protocol::ClientMessage::Input(before),
        before.len() == 0 ==> pumped.0@.len() == 1,
{
    let prefix = old(detector).prefix();
    assert(old(detector).pending() + typed@ == typed@);
    law_typing_is_sent_until_the_detach(prefix, before, d, behind);
    let found = detect(prefix, None, input::decoded(typed@).keys);
    law_typing_is_sent_in_order(found);
    let calls = messages(pumped.0@);
    assert(calls == input_calls_for(found));
    assert(calls.len() == pumped.0@.len());
    assert(calls[calls.len() - 1] == pumped.0@[pumped.0@.len() - 1]@);
    if before.len() > 0 {
        assert(calls[0] == pumped.0@[0]@);
    }
}

/// The detector itself forwards what is typed without the prefix, and withholds the prefix.
pub proof fn law_the_detector_forwards_typing(
    detector: &mut DetachDetector,
    typed: &[u8],
    fed: (Vec<u8>, bool),
)
    requires
        old(detector).pending().len() == 0,
        old(detector).held() is None,
        call_ensures(DetachDetector::feed, (detector, typed), fed),
    ensures
        (forall|i: int|
            0 <= i < typed@.len() ==> #[trigger] typed@[i] != 0x1b && typed@[i] != old(
                detector,
            ).prefix()) ==> fed.0@ == typed@ && !fed.1,
        old(detector).prefix() != 0x1b && old(detector).prefix() != 0x64 && old(
            detector,
        ).prefix() != 0x44 && typed@ == seq![old(detector).prefix()] ==> fed.0@.len() == 0
            && !fed.1 && final(detector).held() == Some(typed@),
        final(detector).prefix() == old(detector).prefix(),
{
    let prefix = old(detector).prefix();
    assert(old(detector).pending() + typed@ == typed@);
    if forall|i: int|
        0 <= i < typed@.len() ==> #[trigger] typed@[i] != 0x1b && typed@[i] != prefix {
        law_typing_without_the_prefix_is_sent(prefix, typed@);
    }
    if prefix != 0x1b && prefix != 0x64 && prefix != 0x44 {
        law_bytes_detach_or_pass(prefix, 0x64);
    }
}

} // verus!
