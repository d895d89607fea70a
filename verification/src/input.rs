//! Console input decoding.
//!
//! Reading raw bytes is not enough to recognise a key. Windows Terminal negotiates
//! **win32-input-mode**, in which every keystroke arrives as an escape sequence carrying the full
//! key record rather than as a plain byte:
//!
//! ```text
//! ESC [ Vk ; Sc ; Uc ; Kd ; Cs ; Rc _
//!       |    |    |    |    |    +- repeat count
//!       |    |    |    |    +------ control key state
//!       |    |    |    +----------- 1 = key down, 0 = key up
//!       |    |    +---------------- unicode character
//!       |    +--------------------- scan code
//!       +-------------------------- virtual key code
//! ```
//!
//! Ctrl-B therefore arrives as `ESC[66;48;2;1;40;1_`: virtual key `0x42`, character `0x02`, and
//! never as a bare `0x02`.
//!
//! This module turns a byte stream into discrete key presses, each carrying both the character it
//! represents and the bytes it came as, so that the caller can decide per key whether to act on
//! it or forward it untouched.

use vstd::prelude::*;
use vstd::utf8::*;

use crate::text;
use crate::utf8::decode_lossy;

verus! {

/// Starts an escape sequence.
pub const ESCAPE: u8 = 0x1b;

/// Follows `ESCAPE` in a control sequence: `[`.
pub const CSI_OPEN: u8 = 0x5b;

/// Stands between the parameters of a control sequence: `;`.
pub const PARAM_SEPARATOR: u8 = 0x3b;

/// Terminates a win32-input-mode sequence: `_`.
pub const WIN32_INPUT_FINAL: u8 = 0x5f;

/// One key press decoded from the input stream.
#[derive(Debug, Clone, PartialEq, Eq)]
pub struct Key {
    /// The character this key produced, if it maps to a single byte.
    ///
    /// `None` for key releases, cursor keys, focus events, and anything else that is not a plain
    /// character. Such keys are never treated as a prefix.
    pub ch: Option<u8>,
    /// The exact bytes that produced this key, for forwarding verbatim.
    pub raw: Vec<u8>,
}

/// What a `Key` stands for.
#[verifier::ext_equal]
pub struct KeyPress {
    pub ch: Option<u8>,
    pub raw: Seq<u8>,
}

impl View for Key {
    type V = KeyPress;

    open spec fn view(&self) -> KeyPress {
        KeyPress { ch: self.ch, raw: self.raw@ }
    }
}

/// The presses that a row of keys stands for.
pub open spec fn presses(keys: Seq<Key>) -> Seq<KeyPress> {
    Seq::new(keys.len(), |i: int| keys[i]@)
}

impl Key {
    /// A key that is one plain byte.
    pub fn plain(byte: u8) -> (key: Key)
        ensures
            key@ == (KeyPress { ch: Some(byte), raw: seq![byte] }),
    {
        let mut raw: Vec<u8> = Vec::new();
        raw.push(byte);
        assert(raw@ == seq![byte]);
        Key { ch: Some(byte), raw }
    }

    /// A key that carries no character.
    pub fn opaque(raw: &[u8]) -> (key: Key)
        ensures
            key@ == (KeyPress { ch: None, raw: raw@ }),
    {
        Key { ch: None, raw: vstd::slice::slice_to_vec(raw) }
    }
}

/// Whether a byte ends a control sequence.
pub open spec fn final_byte(b: u8) -> bool {
    0x40 <= b <= 0x7e
}

/// Where the control sequence whose parameters start at `i` ends, if it does.
pub open spec fn csi_end(s: Seq<u8>, i: int) -> Option<int>
    decreases s.len() - i,
{
    if i >= s.len() {
        None
    } else if final_byte(s[i]) {
        Some(i)
    } else {
        csi_end(s, i + 1)
    }
}

/// How many bytes the first key of the stream takes, once it is complete.
pub open spec fn first_key_len(s: Seq<u8>) -> Option<int> {
    if s.len() == 0 {
        None
    } else if s[0] != ESCAPE {
        Some(1)
    } else if s.len() == 1 {
        None
    } else if s[1] != CSI_OPEN {
        Some(2)
    } else {
        match csi_end(s, 2) {
            Some(end) => Some(end + 1),
            None => None,
        }
    }
}

/// The parameters between the separators.
pub open spec fn params(body: Seq<u8>) -> Seq<Seq<u8>>
    decreases body.len(),
{
    if body.len() == 0 {
        seq![Seq::empty()]
    } else {
        let front = params(body.drop_last());
        if body.last() == PARAM_SEPARATOR {
            front.push(Seq::empty())
        } else {
            front.drop_last().push(front.last().push(body.last()))
        }
    }
}

/// The number that a parameter stands for. One that is no number counts as zero.
pub open spec fn param_value(param: Seq<u8>) -> u32 {
    if valid_utf8(param) {
        match text::parsed_u32(text::trimmed(decode_utf8(param))) {
            Some(value) => value,
            None => 0,
        }
    } else {
        0
    }
}

/// The value of the parameter at `i`, zero where there is none.
pub open spec fn param_at(body: Seq<u8>, i: int) -> u32 {
    let all = params(body);
    if i < all.len() {
        param_value(all[i])
    } else {
        0
    }
}

/// The character that a complete control sequence produces.
///
/// Only a win32-input-mode key press has one: key down, with a character of one byte.
pub open spec fn csi_char(raw: Seq<u8>) -> Option<u8> {
    let body = raw.subrange(2, raw.len() - 1);
    let unicode = param_at(body, 2);
    if raw.last() == WIN32_INPUT_FINAL && param_at(body, 3) == 1 && 1 <= unicode <= 0xff {
        Some(unicode as u8)
    } else {
        None
    }
}

/// The key that one complete piece of the stream stands for.
pub open spec fn key_press(raw: Seq<u8>) -> KeyPress {
    let ch = if raw[0] != ESCAPE {
        Some(raw[0])
    } else if raw[1] != CSI_OPEN {
        None
    } else {
        csi_char(raw)
    };
    KeyPress { ch, raw }
}

/// A stream cut into its complete keys and what is left over.
#[verifier::ext_equal]
pub struct Decoded {
    pub keys: Seq<KeyPress>,
    pub rest: Seq<u8>,
}

/// A control sequence ends inside the stream.
proof fn lemma_csi_end(s: Seq<u8>, i: int)
    requires
        0 <= i,
    ensures
        csi_end(s, i) matches Some(end) ==> i <= end < s.len() && final_byte(s[end]) && forall|k: int|
            i <= k < end ==> !final_byte(#[trigger] s[k]),
        csi_end(s, i) is None ==> forall|k: int| i <= k < s.len() ==> !final_byte(#[trigger] s[k]),
    decreases s.len() - i,
{
    if i < s.len() && !final_byte(s[i]) {
        lemma_csi_end(s, i + 1);
    }
}

/// The complete keys at the front of a stream, in order.
pub open spec fn decoded(s: Seq<u8>) -> Decoded
    decreases s.len(),
{
    match first_key_len(s) {
        Some(n) => if 0 < n <= s.len() {
            let tail = decoded(s.skip(n));
            Decoded { keys: seq![key_press(s.take(n))] + tail.keys, rest: tail.rest }
        } else {
            Decoded { keys: Seq::empty(), rest: s }
        },
        None => Decoded { keys: Seq::empty(), rest: s },
    }
}

/// A key takes at least one byte, and no more than there are.
proof fn lemma_first_key_len(s: Seq<u8>)
    ensures
        first_key_len(s) matches Some(n) ==> 0 < n <= s.len(),
{
    lemma_csi_end(s, 2);
}

/// Trimming keeps a character that is no white space.
proof fn lemma_trimmed_keeps(s: Seq<char>, c: char)
    requires
        s.contains(c),
        !text::white_space(c),
    ensures
        text::trimmed(s).contains(c),
{
    lemma_trimmed_front_keeps(s, c);
    lemma_trimmed_back_keeps(text::trimmed_front(s), c);
}

proof fn lemma_trimmed_front_keeps(s: Seq<char>, c: char)
    requires
        s.contains(c),
        !text::white_space(c),
    ensures
        text::trimmed_front(s).contains(c),
    decreases s.len(),
{
    if s.len() > 0 && text::white_space(s.first()) {
        let i = s.index_of(c);
        assert(s.drop_first()[i - 1] == c);
        lemma_trimmed_front_keeps(s.drop_first(), c);
    }
}

proof fn lemma_trimmed_back_keeps(s: Seq<char>, c: char)
    requires
        s.contains(c),
        !text::white_space(c),
    ensures
        text::trimmed_back(s).contains(c),
    decreases s.len(),
{
    if s.len() > 0 && text::white_space(s.last()) {
        let i = s.index_of(c);
        assert(s.drop_last()[i] == c);
        lemma_trimmed_back_keeps(s.drop_last(), c);
    }
}

/// A text with U+FFFD in it is no number, whatever white space is around it.
proof fn lemma_replacement_is_no_number(s: Seq<char>)
    requires
        s.contains('\u{fffd}'),
    ensures
        text::parsed_u32(text::trimmed(s)) is None,
{
    lemma_trimmed_keeps(s, '\u{fffd}');
    let t = text::trimmed(s);
    let i = t.index_of('\u{fffd}');
    let digits = text::unsigned_digits(t);
    if t.first() == '+' {
        assert(digits[i - 1] == '\u{fffd}');
    } else {
        assert(digits[i] == '\u{fffd}');
    }
}

/// Reads one parameter of a control sequence.
fn read_param(param: &Vec<u8>) -> (value: u32)
    ensures
        value == param_value(param@),
{
    let decoded: String = decode_lossy(param.as_slice());
    let trimmed: String = text::trim(decoded.as_str());
    proof {
        if !valid_utf8(param@) {
            lemma_replacement_is_no_number(decoded@);
        }
    }
    match text::parse_u32(trimmed.as_str()) {
        Some(value) => value,
        None => 0,
    }
}

/// The contents of a row of byte strings.
pub open spec fn byte_strings(v: Seq<Vec<u8>>) -> Seq<Seq<u8>> {
    Seq::new(v.len(), |i: int| v[i]@)
}

/// Cuts the parameters of `raw`, which stand from `start` up to `end`, at the separators.
fn split_params(raw: &[u8], start: usize, end: usize) -> (split: Vec<Vec<u8>>)
    requires
        start <= end <= raw.len(),
    ensures
        byte_strings(split@) == params(raw@.subrange(start as int, end as int)),
{
    let ghost body = raw@.subrange(start as int, end as int);
    let mut done: Vec<Vec<u8>> = Vec::new();
    let mut current: Vec<u8> = Vec::new();
    let mut i: usize = start;
    assert(body.take(0) == Seq::<u8>::empty());
    assert(byte_strings(done@).push(current@) == seq![Seq::<u8>::empty()]);
    while i < end
        invariant
            start <= i <= end <= raw.len(),
            body == raw@.subrange(start as int, end as int),
            byte_strings(done@).push(current@) == params(body.take(i - start)),
        decreases end - i,
    {
        let b: u8 = raw[i];
        let ghost front = params(body.take(i - start));
        assert(body.take(i - start + 1).drop_last() == body.take(i - start));
        assert(body.take(i - start + 1).last() == b);
        assert(front.drop_last() == byte_strings(done@));
        let ghost before = done@;
        if b == PARAM_SEPARATOR {
            done.push(current);
            current = Vec::new();
            assert(byte_strings(done@) == front);
        } else {
            current.push(b);
        }
        i += 1;
    }
    assert(body.take(end - start) == body);
    let ghost front = done@;
    let ghost last = current@;
    done.push(current);
    assert(byte_strings(done@) == byte_strings(front).push(last));
    done
}

/// Turns a complete control sequence into a key.
fn decode_csi(raw: &[u8]) -> (key: Key)
    requires
        raw.len() >= 3,
    ensures
        key@ == (KeyPress { ch: csi_char(raw@), raw: raw@ }),
{
    if raw[raw.len() - 1] != WIN32_INPUT_FINAL {
        // Cursor keys, focus events, and friends. Forward, never match.
        return Key::opaque(raw);
    }
    let split: Vec<Vec<u8>> = split_params(raw, 2, raw.len() - 1);
    let ghost all = byte_strings(split@);
    let unicode: u32 = if split.len() > 2 {
        assert(all[2] == split[2]@);
        read_param(&split[2])
    } else {
        0
    };
    let key_down: u32 = if split.len() > 3 {
        assert(all[3] == split[3]@);
        read_param(&split[3])
    } else {
        0
    };
    // Only key presses count, and only those that carry a character. A key release with the same
    // character must not re-trigger the prefix.
    let ch: Option<u8> = if key_down == 1 && 1 <= unicode && unicode <= 0xff {
        Some(unicode as u8)
    } else {
        None
    };
    Key { ch, raw: vstd::slice::slice_to_vec(raw) }
}

/// How many bytes the first key at `pos` takes, once it is complete.
fn key_len_at(buf: &Vec<u8>, pos: usize) -> (len: Option<usize>)
    requires
        pos <= buf.len(),
    ensures
        match first_key_len(buf@.skip(pos as int)) {
            Some(n) => len == Some(n as usize) && 0 < n <= buf.len() - pos,
            None => len is None,
        },
{
    let ghost s = buf@.skip(pos as int);
    proof {
        lemma_first_key_len(s);
    }
    if pos == buf.len() {
        return None;
    }
    if buf[pos] != ESCAPE {
        return Some(1);
    }
    // An escape at the very end may be the start of a sequence.
    if buf.len() - pos < 2 {
        return None;
    }
    if buf[pos + 1] != CSI_OPEN {
        // Escape followed by something else, e.g. Alt-<key>.
        return Some(2);
    }
    let mut i: usize = pos + 2;
    while i < buf.len()
        invariant
            pos + 2 <= i <= buf.len(),
            s == buf@.skip(pos as int),
            csi_end(s, 2) == csi_end(s, i - pos),
            first_key_len(s) == (match csi_end(s, 2) {
                Some(end) => Some(end + 1),
                None => None,
            }),
        decreases buf.len() - i,
    {
        assert(s[i - pos] == buf[i as int]);
        if 0x40 <= buf[i] && buf[i] <= 0x7e {
            return Some(i - pos + 1);
        }
        i += 1;
    }
    None
}

/// Incremental decoder for console input.
///
/// Holds partial escape sequences between reads, because a keystroke can be split across two
/// reads.
#[derive(Debug)]
pub struct InputParser {
    pending: Vec<u8>,
}

impl InputParser {
    /// The bytes that wait for the rest of their key.
    pub closed spec fn pending(&self) -> Seq<u8> {
        self.pending@
    }

    /// A decoder that has seen nothing.
    pub fn new() -> (parser: InputParser)
        ensures
            parser.pending() == Seq::<u8>::empty(),
    {
        InputParser { pending: Vec::new() }
    }

    /// Decodes as many complete keys as the buffered bytes allow.
    ///
    /// Anything incomplete is retained for the next call.
    pub fn feed(&mut self, bytes: &[u8]) -> (keys: Vec<Key>)
        ensures
            presses(keys@) == decoded(old(self).pending() + bytes@).keys,
            final(self).pending() == decoded(old(self).pending() + bytes@).rest,
    {
        let mut buf: Vec<u8> = Vec::new();
        buf.append(&mut self.pending);
        buf.extend_from_slice(bytes);
        let ghost all = old(self).pending() + bytes@;
        assert(buf@ == all);
        let mut keys: Vec<Key> = Vec::new();
        let mut pos: usize = 0;
        assert(all.skip(0) == all);
        assert(presses(keys@) + decoded(all).keys == decoded(all).keys);
        loop
            invariant
                pos <= buf.len(),
                buf@ == all,
                presses(keys@) + decoded(all.skip(pos as int)).keys == decoded(all).keys,
                decoded(all.skip(pos as int)).rest == decoded(all).rest,
            ensures
                pos <= buf.len(),
                presses(keys@) == decoded(all).keys,
                all.skip(pos as int) == decoded(all).rest,
            decreases buf.len() - pos,
        {
            match key_len_at(&buf, pos) {
                None => {
                    assert(presses(keys@) + Seq::<KeyPress>::empty() == presses(keys@));
                    break;
                },
                Some(len) => {
                    let raw: &[u8] = vstd::slice::slice_subrange(buf.as_slice(), pos, pos + len);
                    let ghost s = all.skip(pos as int);
                    assert(raw@ == s.take(len as int));
                    proof {
                        lemma_csi_end(s, 2);
                    }
                    let key: Key = if raw[0] != ESCAPE {
                        assert(raw@ == seq![raw[0]]);
                        Key::plain(raw[0])
                    } else if raw[1] != CSI_OPEN {
                        Key::opaque(raw)
                    } else {
                        decode_csi(raw)
                    };
                    assert(key@ == key_press(raw@));
                    let ghost before = keys@;
                    keys.push(key);
                    proof {
                        assert(presses(keys@) == presses(before).push(key@));
                        assert(s.skip(len as int) == all.skip(pos + len));
                        let tail = decoded(s.skip(len as int)).keys;
                        assert(presses(before) + (seq![key@] + tail) == presses(before).push(key@)
                            + tail);
                    }
                    pos = pos + len;
                },
            }
        }
        self.pending = vstd::slice::slice_to_vec(
            vstd::slice::slice_subrange(buf.as_slice(), pos, buf.len()),
        );
        assert(self.pending@ == all.skip(pos as int));
        keys
    }
}

impl Default for InputParser {
    fn default() -> (parser: InputParser)
        ensures
            parser.pending() == Seq::<u8>::empty(),
    {
        InputParser::new()
    }
}

/// The bytes that a row of keys came as, one key after the other.
pub open spec fn raw_bytes(keys: Seq<KeyPress>) -> Seq<u8>
    decreases keys.len(),
{
    if keys.len() == 0 {
        Seq::empty()
    } else {
        keys.first().raw + raw_bytes(keys.drop_first())
    }
}

/// Decoding loses nothing and reorders nothing: the bytes of the keys, followed by what is left
/// over, are the stream.
pub proof fn law_decoding_keeps_every_byte(s: Seq<u8>)
    ensures
        raw_bytes(decoded(s).keys) + decoded(s).rest == s,
    decreases s.len(),
{
    lemma_first_key_len(s);
    if let Some(n) = first_key_len(s) {
        law_decoding_keeps_every_byte(s.skip(n));
        let tail = decoded(s.skip(n));
        assert(decoded(s).keys.drop_first() == tail.keys);
        assert(s.take(n) + s.skip(n) == s);
    }
}

/// What is left over holds no complete key.
pub proof fn law_leftover_is_incomplete(s: Seq<u8>)
    ensures
        first_key_len(decoded(s).rest) is None,
    decreases s.len(),
{
    lemma_first_key_len(s);
    if let Some(n) = first_key_len(s) {
        law_leftover_is_incomplete(s.skip(n));
    }
}

/// More bytes behind a control sequence do not move its end.
proof fn lemma_csi_end_stays(a: Seq<u8>, b: Seq<u8>, i: int)
    requires
        0 <= i,
        csi_end(a, i) is Some,
    ensures
        csi_end(a + b, i) == csi_end(a, i),
    decreases a.len() - i,
{
    if i < a.len() && !final_byte(a[i]) {
        lemma_csi_end_stays(a, b, i + 1);
    }
}

/// A complete key stays what it is, whatever follows.
proof fn lemma_first_key_stays(a: Seq<u8>, b: Seq<u8>)
    requires
        first_key_len(a) is Some,
    ensures
        first_key_len(a + b) == first_key_len(a),
{
    if a[0] == ESCAPE && a[1] == CSI_OPEN {
        lemma_csi_end_stays(a, b, 2);
    }
}

/// It makes no difference where a stream is cut into reads: decoding one part and then the rest
/// gives the same keys, and leaves the same bytes over, as decoding all of it at once.
pub proof fn law_reads_may_be_split_anywhere(a: Seq<u8>, b: Seq<u8>)
    ensures
        decoded(a + b).keys == decoded(a).keys + decoded(decoded(a).rest + b).keys,
        decoded(a + b).rest == decoded(decoded(a).rest + b).rest,
    decreases a.len(),
{
    lemma_first_key_len(a);
    match first_key_len(a) {
        Some(n) => {
            lemma_first_key_stays(a, b);
            law_reads_may_be_split_anywhere(a.skip(n), b);
            assert((a + b).take(n) == a.take(n));
            assert((a + b).skip(n) == a.skip(n) + b);
            let tail = decoded(a.skip(n));
            assert(decoded(a).rest == tail.rest);
            assert(seq![key_press(a.take(n))] + (tail.keys + decoded(tail.rest + b).keys) == (seq![
                key_press(a.take(n)),
            ] + tail.keys) + decoded(tail.rest + b).keys);
        },
        None => {
            assert(Seq::<KeyPress>::empty() + decoded(a + b).keys == decoded(a + b).keys);
        },
    }
}

/// A number as it is written in a control sequence.
pub open spec fn number_bytes(n: u32) -> Seq<u8> {
    encode_utf8(text::decimal_text(n as nat))
}

/// The parameters of a win32-input-mode sequence, separated.
pub open spec fn record_body(vk: u32, sc: u32, uc: u32, kd: u32, cs: u32, rc: u32) -> Seq<u8> {
    number_bytes(vk) + (seq![PARAM_SEPARATOR] + (number_bytes(sc) + (seq![PARAM_SEPARATOR] + (
    number_bytes(uc) + (seq![PARAM_SEPARATOR] + (number_bytes(kd) + (seq![PARAM_SEPARATOR] + (
    number_bytes(cs) + (seq![PARAM_SEPARATOR] + number_bytes(rc))))))))))
}

/// A key record as win32-input-mode sends it.
pub open spec fn key_record(vk: u32, sc: u32, uc: u32, kd: u32, cs: u32, rc: u32) -> Seq<u8> {
    seq![ESCAPE, CSI_OPEN] + record_body(vk, sc, uc, kd, cs, rc) + seq![WIN32_INPUT_FINAL]
}

/// Whether every byte is a decimal digit.
spec fn digit_bytes(s: Seq<u8>) -> bool {
    forall|i: int| 0 <= i < s.len() ==> 0x30 <= #[trigger] s[i] <= 0x39
}

/// A written number is a row of digits, and reads back as the number.
proof fn lemma_number_bytes(n: u32)
    ensures
        digit_bytes(number_bytes(n)),
        param_value(number_bytes(n)) == n,
{
    let t = text::decimal_text(n as nat);
    text::lemma_decimal_text(n as nat);
    text::law_decimal_reads_back(n);
    assert(is_ascii_chars(t)) by {
        assert forall|i: int| 0 <= i < t.len() implies '\0' <= #[trigger] t[i] <= '\u{7f}' by {
            assert(text::decimal_digit(t[i]));
        }
    }
    is_ascii_chars_encode_utf8(t);
    assert forall|i: int| 0 <= i < number_bytes(n).len() implies 0x30 <= #[trigger] number_bytes(
        n,
    )[i] <= 0x39 by {
        assert(text::decimal_digit(t[i]));
    }
    encode_utf8_valid_utf8(t);
    encode_utf8_decode_utf8(t);
    assert(text::decimal_digit(t.first()) && text::decimal_digit(t.last()));
    text::lemma_trimmed_same(t);
}

/// A parameter without separators in it is one parameter.
proof fn lemma_params_single(x: Seq<u8>)
    requires
        digit_bytes(x),
    ensures
        params(x) == seq![x],
    decreases x.len(),
{
    if x.len() > 0 {
        assert forall|i: int| 0 <= i < x.drop_last().len() implies 0x30 <= #[trigger] x.drop_last()[i]
            <= 0x39 by {
            assert(x.drop_last()[i] == x[i]);
        }
        lemma_params_single(x.drop_last());
        assert(x.last() == x[x.len() - 1]);
        assert(x.drop_last().push(x.last()) == x);
    } else {
        assert(x == Seq::<u8>::empty());
    }
}

/// The first parameter ends at the first separator.
proof fn lemma_params_first(x: Seq<u8>, y: Seq<u8>)
    requires
        digit_bytes(x),
    ensures
        params(x + (seq![PARAM_SEPARATOR] + y)) == seq![x] + params(y),
    decreases y.len(),
{
    let body = x + (seq![PARAM_SEPARATOR] + y);
    if y.len() == 0 {
        lemma_params_single(x);
        assert(body.drop_last() == x);
        assert(y == Seq::<u8>::empty());
        assert(seq![x].push(Seq::<u8>::empty()) == seq![x] + seq![Seq::<u8>::empty()]);
    } else {
        lemma_params_first(x, y.drop_last());
        assert(body.drop_last() == x + (seq![PARAM_SEPARATOR] + y.drop_last()));
        assert(body.last() == y.last());
        lemma_params_nonempty(y.drop_last());
        let front = params(y.drop_last());
        if y.last() == PARAM_SEPARATOR {
            assert((seq![x] + front).push(Seq::<u8>::empty()) == seq![x] + front.push(
                Seq::<u8>::empty(),
            ));
        } else {
            let c = front.last().push(y.last());
            assert((seq![x] + front).last() == front.last());
            assert((seq![x] + front).drop_last().push(c) == seq![x] + front.drop_last().push(c));
        }
    }
}

proof fn lemma_params_nonempty(y: Seq<u8>)
    ensures
        params(y).len() > 0,
    decreases y.len(),
{
    if y.len() > 0 {
        lemma_params_nonempty(y.drop_last());
    }
}

/// A key record is decoded as one key that keeps its bytes. It carries its character where it is
/// a key press whose character fits a byte, and none otherwise.
pub proof fn law_key_records_are_recognised(
    vk: u32,
    sc: u32,
    uc: u32,
    kd: u32,
    cs: u32,
    rc: u32,
)
    ensures
        decoded(key_record(vk, sc, uc, kd, cs, rc)) == (Decoded {
            keys: seq![
                KeyPress {
                    ch: if kd == 1 && 1 <= uc <= 0xff {
                        Some(uc as u8)
                    } else {
                        None
                    },
                    raw: key_record(vk, sc, uc, kd, cs, rc),
                },
            ],
            rest: Seq::empty(),
        }),
{
    let sep = seq![PARAM_SEPARATOR];
    lemma_number_bytes(vk);
    lemma_number_bytes(sc);
    lemma_number_bytes(uc);
    lemma_number_bytes(kd);
    lemma_number_bytes(cs);
    lemma_number_bytes(rc);
    let b5 = number_bytes(rc);
    let b4 = number_bytes(cs) + (sep + b5);
    let b3 = number_bytes(kd) + (sep + b4);
    let b2 = number_bytes(uc) + (sep + b3);
    let b1 = number_bytes(sc) + (sep + b2);
    let body = record_body(vk, sc, uc, kd, cs, rc);
    lemma_params_single(b5);
    lemma_params_first(number_bytes(cs), b5);
    lemma_params_first(number_bytes(kd), b4);
    lemma_params_first(number_bytes(uc), b3);
    lemma_params_first(number_bytes(sc), b2);
    lemma_params_first(number_bytes(vk), b1);
    assert(params(body)[2] == number_bytes(uc));
    assert(params(body)[3] == number_bytes(kd));
    let s = key_record(vk, sc, uc, kd, cs, rc);
    assert(s.subrange(2, s.len() - 1) == body);
    assert forall|i: int| 0 <= i < body.len() implies !final_byte(#[trigger] body[i]) by {}
    lemma_csi_end(s, 2);
    assert forall|k: int| 2 <= k < s.len() - 1 implies !final_byte(#[trigger] s[k]) by {
        assert(s[k] == body[k - 2]);
    }
    assert(final_byte(s[s.len() - 1]));
    assert(first_key_len(s) == Some(s.len() as int));
    assert(s.take(s.len() as int) == s);
    assert(s.skip(s.len() as int) == Seq::<u8>::empty());
    assert(decoded(Seq::<u8>::empty()).keys == Seq::<KeyPress>::empty());
    assert(decoded(s).keys == seq![key_press(s)]);
}

/// A key record: the virtual key, the scan code, the character, whether the key went down, the
/// control keys, and the repeat count.
pub struct KeyRecord {
    pub vk: u32,
    pub sc: u32,
    pub uc: u32,
    pub kd: u32,
    pub cs: u32,
    pub rc: u32,
}

impl KeyRecord {
    /// The record as win32-input-mode sends it.
    pub open spec fn bytes(self) -> Seq<u8> {
        key_record(self.vk, self.sc, self.uc, self.kd, self.cs, self.rc)
    }

    /// The key that the record stands for.
    pub open spec fn press(self) -> KeyPress {
        KeyPress {
            ch: if self.kd == 1 && 1 <= self.uc <= 0xff {
                Some(self.uc as u8)
            } else {
                None
            },
            raw: self.bytes(),
        }
    }
}

/// A row of key records as win32-input-mode sends it.
pub open spec fn records_bytes(records: Seq<KeyRecord>) -> Seq<u8>
    decreases records.len(),
{
    if records.len() == 0 {
        Seq::empty()
    } else {
        records.first().bytes() + records_bytes(records.drop_first())
    }
}

/// The keys that a row of key records stands for.
pub open spec fn record_presses(records: Seq<KeyRecord>) -> Seq<KeyPress> {
    Seq::new(records.len(), |i: int| records[i].press())
}

/// A row of key records is decoded as one key for each of them.
pub proof fn law_rows_of_key_records_are_recognised(records: Seq<KeyRecord>)
    ensures
        decoded(records_bytes(records)) == (Decoded {
            keys: record_presses(records),
            rest: Seq::empty(),
        }),
    decreases records.len(),
{
    if records.len() == 0 {
        assert(record_presses(records) == Seq::<KeyPress>::empty());
    } else {
        let r = records.first();
        let rest = records_bytes(records.drop_first());
        law_key_records_are_recognised(r.vk, r.sc, r.uc, r.kd, r.cs, r.rc);
        law_rows_of_key_records_are_recognised(records.drop_first());
        law_reads_may_be_split_anywhere(r.bytes(), rest);
        assert(Seq::<u8>::empty() + rest == rest);
        assert(seq![r.press()] + record_presses(records.drop_first()) == record_presses(records));
    }
}

/// Every byte but an escape is a key of its own, whatever follows: it carries the byte as its
/// character, and came as that byte.
pub proof fn law_a_plain_byte_is_a_key(b: u8, rest: Seq<u8>)
    requires
        b != 0x1b,
    ensures
        decoded(seq![b]) == (Decoded {
            keys: seq![KeyPress { ch: Some(b), raw: seq![b] }],
            rest: Seq::empty(),
        }),
        decoded(seq![b] + rest).keys == seq![KeyPress { ch: Some(b), raw: seq![b] }] + decoded(
            rest,
        ).keys,
        decoded(seq![b] + rest).rest == decoded(rest).rest,
{
    let s = seq![b] + rest;
    assert(s.take(1) == seq![b]);
    assert(s.skip(1) == rest);
    assert(seq![b].take(1) == seq![b]);
    assert(seq![b].skip(1) == Seq::<u8>::empty());
    assert(decoded(Seq::<u8>::empty()).keys == Seq::<KeyPress>::empty());
    assert(decoded(seq![b]).keys == seq![KeyPress { ch: Some(b), raw: seq![b] }]);
}

/// A stream without escapes is read as its bytes, one key for each, and nothing waits.
pub proof fn law_typing_is_read_byte_by_byte(s: Seq<u8>)
    requires
        forall|i: int| 0 <= i < s.len() ==> #[trigger] s[i] != 0x1b,
    ensures
        decoded(s).keys == Seq::new(
            s.len(),
            |i: int| KeyPress { ch: Some(s[i]), raw: seq![s[i]] },
        ),
        decoded(s).rest == Seq::<u8>::empty(),
    decreases s.len(),
{
    if s.len() > 0 {
        let tail = s.skip(1);
        assert forall|i: int| 0 <= i < tail.len() implies #[trigger] tail[i] != 0x1b by {
            assert(s[i + 1] != 0x1b);
        }
        assert(s[0] != 0x1b);
        law_typing_is_read_byte_by_byte(tail);
        law_a_plain_byte_is_a_key(s[0], tail);
        assert(s == seq![s[0]] + tail);
        assert(decoded(s).keys == Seq::new(
            s.len(),
            |i: int| KeyPress { ch: Some(s[i]), raw: seq![s[i]] },
        ));
    }
}

/// An escape and a byte that opens no control sequence are one key without a character, whatever
/// follows. An escape alone waits for what comes behind it.
pub proof fn law_an_escape_takes_the_next_byte_with_it(b: u8, rest: Seq<u8>)
    requires
        b != 0x5b,
    ensures
        decoded(seq![0x1bu8, b] + rest).keys == seq![
            KeyPress { ch: None, raw: seq![0x1bu8, b] },
        ] + decoded(rest).keys,
        decoded(seq![0x1bu8, b] + rest).rest == decoded(rest).rest,
        decoded(seq![0x1bu8]) == (Decoded { keys: Seq::empty(), rest: seq![0x1bu8] }),
{
    let s = seq![0x1bu8, b] + rest;
    assert(s.take(2) == seq![0x1bu8, b]);
    assert(s.skip(2) == rest);
}

/// A control sequence ends with the first byte from 0x40 to 0x7e, and is one key that keeps its
/// bytes; unless it ends in `_`, it carries no character: cursor keys, function keys, focus events.
/// Without such a byte it waits.
pub proof fn law_control_sequences_are_keys_without_characters(
    body: Seq<u8>,
    last: u8,
    rest: Seq<u8>,
)
    requires
        forall|i: int| 0 <= i < body.len() ==> #[trigger] body[i] < 0x40 || body[i] > 0x7e,
        0x40 <= last <= 0x7e,
    ensures
        ({
            let raw = seq![0x1bu8, 0x5bu8] + body + seq![last];
            let read = decoded(raw + rest);
            &&& read.keys.len() == 1 + decoded(rest).keys.len()
            &&& read.keys[0].raw == raw
            &&& last != 0x5f ==> read.keys[0].ch is None
            &&& read.keys.skip(1) == decoded(rest).keys
            &&& read.rest == decoded(rest).rest
        }),
        decoded(seq![0x1bu8, 0x5bu8] + body) == (Decoded {
            keys: Seq::empty(),
            rest: seq![0x1bu8, 0x5bu8] + body,
        }),
{
    let open = seq![0x1bu8, 0x5bu8] + body;
    let raw = open + seq![last];
    let s = raw + rest;
    lemma_csi_end(open, 2);
    lemma_csi_end(s, 2);
    assert forall|k: int| 2 <= k < open.len() implies !final_byte(#[trigger] open[k]) by {
        assert(open[k] == body[k - 2]);
    }
    assert forall|k: int| 2 <= k < open.len() implies !final_byte(#[trigger] s[k]) by {
        assert(s[k] == body[k - 2]);
    }
    assert(s[open.len() as int] == last);
    assert(final_byte(s[open.len() as int]));
    assert(csi_end(s, 2) == Some(open.len() as int));
    assert(s.take(raw.len() as int) == raw);
    assert(s.skip(raw.len() as int) == rest);
    assert(raw.last() == last);
    assert(decoded(s).keys.skip(1) == decoded(rest).keys);
}

/// Two keys came as the same bytes only where they are the same key: what a key stands for is
/// decided by its bytes alone, wherever in the stream they come.
pub proof fn law_a_key_is_its_bytes(before: Seq<u8>, s: Seq<u8>)
    requires
        decoded(before).rest.len() == 0,
    ensures
        decoded(before + s).keys == decoded(before).keys + decoded(s).keys,
        decoded(before + s).rest == decoded(s).rest,
{
    law_reads_may_be_split_anywhere(before, s);
    assert(decoded(before).rest + s == s);
}

/// A record as it goes over the wire: `ESC [`, six numbers in decimal with semicolons between them,
/// and `_`.
pub proof fn law_a_record_on_the_wire(record: KeyRecord)
    ensures
        ({
            let n = |x: u32| encode_utf8(text::decimal_text(x as nat));
            let sep = seq![0x3bu8];
            record.bytes() == seq![0x1bu8, 0x5bu8] + n(record.vk) + sep + n(record.sc) + sep + n(
                record.uc,
            ) + sep + n(record.kd) + sep + n(record.cs) + sep + n(record.rc) + seq![0x5fu8]
        }),
{
    let n = |x: u32| encode_utf8(text::decimal_text(x as nat));
    let sep = seq![0x3bu8];
    let whole = seq![0x1bu8, 0x5bu8] + n(record.vk) + sep + n(record.sc) + sep + n(record.uc) + sep
        + n(record.kd) + sep + n(record.cs) + sep + n(record.rc) + seq![0x5fu8];
    assert(record.bytes() == whole);
}

/// The parameters of a sequence are what stands between the semicolons, in order, also where that
/// is nothing.
pub proof fn law_semicolons_part_the_parameters(a: Seq<u8>, b: Seq<u8>)
    requires
        forall|i: int| 0 <= i < a.len() ==> #[trigger] a[i] != 0x3b,
    ensures
        params(a) == seq![a],
        params(a + seq![0x3bu8] + b) == seq![a] + params(b),
    decreases b.len(),
{
    lemma_no_separator(a);
    let whole = a + seq![0x3bu8] + b;
    if b.len() == 0 {
        assert(whole.drop_last() == a);
        assert(whole.last() == 0x3b);
        assert(b == Seq::<u8>::empty());
        assert(seq![a].push(Seq::<u8>::empty()) == seq![a] + seq![Seq::<u8>::empty()]);
    } else {
        let rest = b.drop_last();
        law_semicolons_part_the_parameters(a, rest);
        lemma_params_nonempty(rest);
        assert(whole.drop_last() == a + seq![0x3bu8] + rest);
        assert(whole.last() == b.last());
        let front = params(rest);
        if b.last() == 0x3b {
            assert((seq![a] + front).push(Seq::<u8>::empty()) == seq![a] + front.push(
                Seq::<u8>::empty(),
            ));
        } else {
            let c = front.last().push(b.last());
            assert((seq![a] + front).last() == front.last());
            assert((seq![a] + front).drop_last().push(c) == seq![a] + front.drop_last().push(c));
        }
    }
}

proof fn lemma_no_separator(a: Seq<u8>)
    requires
        forall|i: int| 0 <= i < a.len() ==> #[trigger] a[i] != 0x3b,
    ensures
        params(a) == seq![a],
    decreases a.len(),
{
    if a.len() == 0 {
        assert(a == Seq::<u8>::empty());
    } else {
        let front = a.drop_last();
        assert forall|i: int| 0 <= i < front.len() implies #[trigger] front[i] != 0x3b by {
            assert(a[i] != 0x3b);
        }
        lemma_no_separator(front);
        assert(a[a.len() - 1] != 0x3b);
        assert(front.push(a.last()) == a);
    }
}

/// A number counts with white space around it and with a plus in front of it; what is no number
/// counts as zero, and so does nothing.
pub proof fn law_parameters_are_numbers_or_zero(
    a: Seq<char>,
    n: u32,
    b: Seq<char>,
    broken: Seq<u8>,
)
    requires
        forall|i: int| 0 <= i < a.len() ==> text::white_space(#[trigger] a[i]),
        forall|i: int| 0 <= i < b.len() ==> text::white_space(#[trigger] b[i]),
        !valid_utf8(broken),
    ensures
        param_value(encode_utf8(a + text::decimal_text(n as nat) + b)) == n,
        param_value(encode_utf8(seq!['+'] + text::decimal_text(n as nat))) == n,
        param_value(encode_utf8(seq!['-'] + text::decimal_text(n as nat))) == 0,
        param_value(Seq::empty()) == 0,
        param_value(broken) == 0,
{
    let digits = text::decimal_text(n as nat);
    text::lemma_decimal_text(n as nat);
    text::law_decimal_reads_back(n);
    assert(text::decimal_digit(digits.first()) && text::decimal_digit(digits.last()));
    text::law_white_space_around_is_trimmed(a, digits, b);
    let spaced = a + digits + b;
    encode_utf8_valid_utf8(spaced);
    encode_utf8_decode_utf8(spaced);
    let plus = seq!['+'] + digits;
    encode_utf8_valid_utf8(plus);
    encode_utf8_decode_utf8(plus);
    text::lemma_trimmed_same(plus);
    text::law_only_numbers_are_read(plus, n);
    let minus = seq!['-'] + digits;
    encode_utf8_valid_utf8(minus);
    encode_utf8_decode_utf8(minus);
    text::lemma_trimmed_same(minus);
    text::law_only_numbers_are_read(minus, n);
    if text::parsed_u32(minus) is Some {
        assert('0' <= minus[0] <= '9' || (0 == 0 && minus[0] == '+'));
    }
    let none = Seq::<char>::empty();
    text::law_only_numbers_are_read(none, n);
    if valid_utf8(Seq::<u8>::empty()) {
        assert(decode_utf8(Seq::<u8>::empty()) == none);
        assert(text::trimmed(none) == none);
    }
}

/// Whatever stands in a sequence that ends in `_`: it carries a character exactly where its fourth
/// parameter is one and its third is a number from 1 to 255, and that is the number. With fewer than
/// four parameters it carries none.
pub proof fn law_two_parameters_decide(body: Seq<u8>, rest: Seq<u8>)
    requires
        forall|i: int| 0 <= i < body.len() ==> #[trigger] body[i] < 0x40 || body[i] > 0x7e,
    ensures
        ({
            let all = params(body);
            let raw = seq![0x1bu8, 0x5bu8] + body + seq![0x5fu8];
            let key = decoded(raw + rest).keys[0];
            &&& key.raw == raw
            &&& all.len() < 4 ==> key.ch is None
            &&& all.len() >= 4 && param_value(all[3]) == 1 && 1 <= param_value(all[2]) <= 255
                ==> key.ch == Some(param_value(all[2]) as u8)
            &&& all.len() >= 4 && param_value(all[3]) != 1 ==> key.ch is None
            &&& all.len() >= 4 && (param_value(all[2]) == 0 || param_value(all[2]) > 255)
                ==> key.ch is None
        }),
{
    let open = seq![0x1bu8, 0x5bu8] + body;
    let raw = open + seq![0x5fu8];
    let s = raw + rest;
    lemma_csi_end(s, 2);
    assert forall|k: int| 2 <= k < open.len() implies !final_byte(#[trigger] s[k]) by {
        assert(s[k] == body[k - 2]);
    }
    assert(s[open.len() as int] == 0x5f);
    assert(final_byte(s[open.len() as int]));
    assert(csi_end(s, 2) == Some(open.len() as int));
    assert(s.take(raw.len() as int) == raw);
    assert(raw.subrange(2, raw.len() - 1) == body);
    assert(raw.last() == 0x5f);
    assert(decoded(s).keys[0] == key_press(raw));
}

/// Keys are made of what they came as, and a parser that has seen nothing waits for nothing.
pub proof fn law_keys_are_made_of_bytes(
    byte: u8,
    raw: &[u8],
    plain: Key,
    opaque: Key,
    parser: InputParser,
)
    requires
        call_ensures(Key::plain, (byte,), plain),
        call_ensures(Key::opaque, (raw,), opaque),
        call_ensures(InputParser::new, (), parser),
    ensures
        plain@.ch == Some(byte),
        plain@.raw == seq![byte],
        opaque@.ch is None,
        opaque@.raw == raw@,
        parser.pending().len() == 0,
        plain.ch == plain@.ch && plain.raw@ == plain@.raw,
        presses(seq![plain, opaque]) == seq![plain@, opaque@],
{
}

/// A parser reads plain bytes as keys of their own, at once, and keeps an escape for later.
pub proof fn law_a_parser_reads_what_it_is_fed(
    parser: &mut InputParser,
    bytes: &[u8],
    keys: Vec<Key>,
    i: int,
)
    requires
        old(parser).pending().len() == 0,
        call_ensures(InputParser::feed, (parser, bytes), keys),
    ensures
        (forall|k: int| 0 <= k < bytes@.len() ==> #[trigger] bytes@[k] != 0x1b) ==> keys@.len()
            == bytes@.len() && final(parser).pending().len() == 0 && (0 <= i < keys@.len()
            ==> keys@[i].ch == Some(bytes@[i]) && keys@[i].raw@ == seq![bytes@[i]]),
        bytes@ == seq![0x1bu8] ==> keys@.len() == 0 && final(parser).pending() == bytes@,
        raw_bytes(presses(keys@)) + final(parser).pending() == bytes@,
{
    assert(old(parser).pending() + bytes@ == bytes@);
    law_decoding_keeps_every_byte(bytes@);
    assert(presses(keys@).len() == keys@.len());
    if forall|k: int| 0 <= k < bytes@.len() ==> #[trigger] bytes@[k] != 0x1b {
        law_typing_is_read_byte_by_byte(bytes@);
        if 0 <= i < keys@.len() {
            assert(presses(keys@)[i] == keys@[i]@);
        }
    }
    law_an_escape_takes_the_next_byte_with_it(0, Seq::empty());
}

/// What a parser kept goes in front of what it is fed next, so that nothing is lost in between.
pub proof fn law_a_parser_goes_on_where_it_was(
    parser: &mut InputParser,
    bytes: &[u8],
    keys: Vec<Key>,
)
    requires
        call_ensures(InputParser::feed, (parser, bytes), keys),
    ensures
        raw_bytes(presses(keys@)) + final(parser).pending() == old(parser).pending() + bytes@,
        presses(keys@) == decoded(old(parser).pending() + bytes@).keys,
{
    law_decoding_keeps_every_byte(old(parser).pending() + bytes@);
}

} // verus!
