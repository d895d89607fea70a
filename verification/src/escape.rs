//! How terminal output is read.
//!
//! Output is text with escape sequences in between. What a byte does depends on where in them it
//! comes: `K` is a letter, or the end of a sequence that erases a line. This module follows the
//! stream byte by byte, as the `vte` parser below the `vt100` crate does, and tells what the next
//! byte does to the screen.

use vstd::prelude::*;

verus! {

/// A character, as the bytes of its UTF-8 form: the first `len` of four.
#[derive(Debug, Clone, Copy, PartialEq, Eq, Structural)]
pub struct Glyph {
    pub len: u8,
    pub a: u8,
    pub b: u8,
    pub c: u8,
    pub d: u8,
}

impl Glyph {
    /// The bytes.
    pub open spec fn bytes(self) -> Seq<u8> {
        if self.len <= 1 {
            seq![self.a]
        } else if self.len == 2 {
            seq![self.a, self.b]
        } else if self.len == 3 {
            seq![self.a, self.b, self.c]
        } else {
            seq![self.a, self.b, self.c, self.d]
        }
    }

    /// The bytes.
    pub fn to_vec(&self) -> (bytes: Vec<u8>)
        ensures
            bytes@ == self.bytes(),
    {
        let mut bytes: Vec<u8> = Vec::new();
        bytes.push(self.a);
        if self.len >= 2 {
            bytes.push(self.b);
        }
        if self.len >= 3 {
            bytes.push(self.c);
        }
        if self.len >= 4 {
            bytes.push(self.d);
        }
        assert(bytes@ == self.bytes());
        bytes
    }
}

/// How far the part of a sequence before its last byte has come.
#[derive(Debug, Clone, Copy, PartialEq, Eq, Structural)]
pub enum Header {
    /// Nothing has come.
    Entry,
    /// Parameters.
    Param,
    /// Intermediate bytes, behind which there are no parameters.
    Intermediate,
    /// Something that makes no sense. The sequence will be ignored.
    Ignore,
}

/// Where in the stream the next byte comes.
#[derive(Debug, Clone, Copy, PartialEq, Eq, Structural)]
pub enum Reading {
    /// In text, in front of a character.
    Text,
    /// Inside a character, of which this has come.
    Char(Glyph),
    /// Right behind an escape.
    Escape,
    /// In an escape sequence with intermediate bytes.
    Designation,
    /// In a control sequence, behind `ESC [`.
    Control {
        header: Header,
        /// The first byte that is no parameter, or zero.
        mark: u8,
        /// The first parameter so far.
        first: u16,
        /// Whether the first parameter may go on.
        open: bool,
    },
    /// In a device control string, behind `ESC P`, before its last byte.
    Device(Header),
    /// In a string that ends with an escape or a string terminator.
    Quoted,
    /// In a system command, behind `ESC ]`, which a bell ends as well.
    Title,
}

/// What a byte does, as far as it touches cells by where the cursor is.
#[derive(Debug, Clone, Copy, PartialEq, Eq, Structural)]
pub enum Effect {
    /// None of the other things: it may move the cursor, scroll, or clear the screen as a whole.
    Still,
    /// Moves the cursor to the next tab stop.
    Tab,
    /// Draws a character.
    Draw(Glyph),
    /// Erases from the cursor to the end of the row.
    EraseForward,
    /// Erases from the start of the row to the cursor.
    EraseBackward,
    /// Erases the row.
    EraseRow,
    /// Erases cells from the cursor on.
    EraseCells(u16),
    /// Deletes cells from the cursor on.
    DeleteCells(u16),
    /// Inserts cells at the cursor.
    InsertCells,
    /// Inserts lines at the cursor.
    InsertLines,
    /// Deletes lines at the cursor.
    DeleteLines,
}

/// What is drawn where bytes are no character.
pub open spec fn replacement() -> Glyph {
    Glyph { len: 3, a: 0xef, b: 0xbf, c: 0xbd, d: 0 }
}

/// How many bytes a character has that starts with this one.
pub open spec fn glyph_len(first: u8) -> int {
    if first < 0xe0 {
        2
    } else if first < 0xf0 {
        3
    } else {
        4
    }
}

/// Whether a byte may come next in a character.
pub open spec fn continues(so_far: Glyph, byte: u8) -> bool {
    if so_far.len == 1 && so_far.a == 0xe0 {
        0xa0 <= byte <= 0xbf
    } else if so_far.len == 1 && so_far.a == 0xed {
        0x80 <= byte <= 0x9f
    } else if so_far.len == 1 && so_far.a == 0xf0 {
        0x90 <= byte <= 0xbf
    } else if so_far.len == 1 && so_far.a == 0xf4 {
        0x80 <= byte <= 0x8f
    } else {
        0x80 <= byte <= 0xbf
    }
}

/// A character with one more byte.
pub open spec fn extended(so_far: Glyph, byte: u8) -> Glyph {
    if so_far.len == 1 {
        Glyph { len: 2, b: byte, ..so_far }
    } else if so_far.len == 2 {
        Glyph { len: 3, c: byte, ..so_far }
    } else {
        Glyph { len: 4, d: byte, ..so_far }
    }
}

/// Whether a character is a control character, of which nothing is drawn.
pub open spec fn invisible(glyph: Glyph) -> bool {
    glyph.len == 2 && glyph.a == 0xc2 && glyph.b < 0xa0
}

/// A byte inside a character.
pub open spec fn char_step(so_far: Glyph, byte: u8) -> (Reading, Effect) {
    let glyph = extended(so_far, byte);
    if !continues(so_far, byte) {
        (Reading::Text, Effect::Draw(replacement()))
    } else if glyph.len < glyph_len(glyph.a) {
        (Reading::Char(glyph), Effect::Still)
    } else if invisible(glyph) {
        (Reading::Text, Effect::Still)
    } else {
        (Reading::Text, Effect::Draw(glyph))
    }
}

/// A byte from 0x20 to 0x3f before the last byte of a sequence.
pub open spec fn header_step(header: Header, byte: u8) -> Header {
    match header {
        Header::Entry => if byte < 0x30 {
            Header::Intermediate
        } else {
            Header::Param
        },
        Header::Param => if byte < 0x30 {
            Header::Intermediate
        } else if byte < 0x3c {
            Header::Param
        } else {
            Header::Ignore
        },
        Header::Intermediate => if byte < 0x30 {
            Header::Intermediate
        } else {
            Header::Ignore
        },
        Header::Ignore => Header::Ignore,
    }
}

/// A parameter with one more digit. It stays at the largest that there is.
pub open spec fn with_digit(param: u16, byte: u8) -> u16 {
    let value = param * 10 + (byte - 0x30);
    if value > 0xffff {
        0xffff
    } else {
        value as u16
    }
}

/// A byte from 0x20 to 0x3f in a control sequence.
pub open spec fn control_step(header: Header, mark: u8, first: u16, open: bool, byte: u8) -> Reading {
    let next = header_step(header, byte);
    // Bytes are collected as parameters or as marks until the sequence makes no sense.
    let param = next == Header::Param && byte < 0x3c;
    let marks = next != Header::Ignore && !param && mark == 0;
    Reading::Control {
        header: next,
        mark: if marks {
            byte
        } else {
            mark
        },
        first: if param && open && byte <= 0x39 {
            with_digit(first, byte)
        } else {
            first
        },
        open: open && !(param && byte > 0x39),
    }
}

/// What the last byte of a control sequence makes it do.
pub open spec fn control_effect(header: Header, mark: u8, first: u16, byte: u8) -> Effect {
    let count: u16 = if first == 0 {
        1
    } else {
        first
    };
    if header == Header::Ignore || (mark != 0 && mark != 0x3f) {
        Effect::Still
    } else if byte == 0x4a && first == 0 {
        Effect::EraseForward
    } else if byte == 0x4a && first == 1 {
        Effect::EraseBackward
    } else if byte == 0x4b && first == 0 {
        Effect::EraseForward
    } else if byte == 0x4b && first == 1 {
        Effect::EraseBackward
    } else if byte == 0x4b && first == 2 {
        Effect::EraseRow
    } else if mark != 0 {
        Effect::Still
    } else if byte == 0x40 {
        Effect::InsertCells
    } else if byte == 0x4c {
        Effect::InsertLines
    } else if byte == 0x4d {
        Effect::DeleteLines
    } else if byte == 0x50 {
        Effect::DeleteCells(count)
    } else if byte == 0x58 {
        Effect::EraseCells(count)
    } else {
        Effect::Still
    }
}

/// A byte right behind an escape that is neither a control character nor beyond 0x7e.
pub open spec fn escape_step(byte: u8) -> Reading {
    if byte < 0x30 {
        Reading::Designation
    } else if byte == 0x5b {
        Reading::Control { header: Header::Entry, mark: 0, first: 0, open: true }
    } else if byte == 0x5d {
        Reading::Title
    } else if byte == 0x50 {
        Reading::Device(Header::Entry)
    } else if byte == 0x58 || byte == 0x5e || byte == 0x5f {
        Reading::Quoted
    } else {
        Reading::Text
    }
}

/// What a control character does that is executed.
pub open spec fn executed(byte: u8) -> Effect {
    if byte == 9 {
        Effect::Tab
    } else {
        Effect::Still
    }
}

/// Where the stream is behind a byte, and what the byte does.
pub open spec fn step(reading: Reading, byte: u8) -> (Reading, Effect) {
    match reading {
        Reading::Char(so_far) => char_step(so_far, byte),
        _ => if byte == 0x1b {
            (Reading::Escape, Effect::Still)
        } else if byte == 0x18 || byte == 0x1a {
            (Reading::Text, Effect::Still)
        } else {
            match reading {
                Reading::Text => if byte < 0x20 {
                    (Reading::Text, executed(byte))
                } else if byte < 0x7f {
                    (
                        Reading::Text,
                        Effect::Draw(Glyph { len: 1, a: byte, b: 0, c: 0, d: 0 }),
                    )
                } else if 0xc2 <= byte <= 0xf4 {
                    (Reading::Char(Glyph { len: 1, a: byte, b: 0, c: 0, d: 0 }), Effect::Still)
                } else {
                    (Reading::Text, Effect::Still)
                },
                Reading::Escape => if byte < 0x20 {
                    (reading, executed(byte))
                } else if byte < 0x7f {
                    (escape_step(byte), Effect::Still)
                } else {
                    (reading, Effect::Still)
                },
                Reading::Designation => if byte < 0x20 {
                    (reading, executed(byte))
                } else if 0x30 <= byte < 0x7f {
                    (Reading::Text, Effect::Still)
                } else {
                    (reading, Effect::Still)
                },
                Reading::Control { header, mark, first, open } => if byte < 0x20 {
                    (reading, executed(byte))
                } else if byte < 0x40 {
                    (control_step(header, mark, first, open, byte), Effect::Still)
                } else if byte < 0x7f {
                    (Reading::Text, control_effect(header, mark, first, byte))
                } else {
                    (reading, Effect::Still)
                },
                Reading::Device(header) => if 0x20 <= byte < 0x40 {
                    (
                        match header_step(header, byte) {
                            Header::Ignore => Reading::Quoted,
                            next => Reading::Device(next),
                        },
                        Effect::Still,
                    )
                } else if 0x40 <= byte < 0x7f {
                    (Reading::Quoted, Effect::Still)
                } else {
                    (reading, Effect::Still)
                },
                Reading::Quoted => if byte == 0x9c {
                    (Reading::Text, Effect::Still)
                } else {
                    (reading, Effect::Still)
                },
                Reading::Title => if byte == 7 {
                    (Reading::Text, Effect::Still)
                } else {
                    (reading, Effect::Still)
                },
                Reading::Char(_) => (reading, Effect::Still),
            }
        },
    }
}

/// Where a stream is behind these bytes.
pub open spec fn reading(bytes: Seq<u8>) -> Reading
    decreases bytes.len(),
{
    if bytes.len() == 0 {
        Reading::Text
    } else {
        step(reading(bytes.drop_last()), bytes.last()).0
    }
}

/// Reads a byte inside a character.
fn read_char_byte(so_far: Glyph, byte: u8) -> (read: (Reading, Effect))
    ensures
        read == char_step(so_far, byte),
{
    let goes_on: bool = if so_far.len == 1 && so_far.a == 0xe0 {
        0xa0 <= byte && byte <= 0xbf
    } else if so_far.len == 1 && so_far.a == 0xed {
        0x80 <= byte && byte <= 0x9f
    } else if so_far.len == 1 && so_far.a == 0xf0 {
        0x90 <= byte && byte <= 0xbf
    } else if so_far.len == 1 && so_far.a == 0xf4 {
        0x80 <= byte && byte <= 0x8f
    } else {
        0x80 <= byte && byte <= 0xbf
    };
    if !goes_on {
        let unknown: Glyph = Glyph { len: 3, a: 0xef, b: 0xbf, c: 0xbd, d: 0 };
        return (Reading::Text, Effect::Draw(unknown));
    }
    let glyph: Glyph = if so_far.len == 1 {
        Glyph { len: 2, a: so_far.a, b: byte, c: so_far.c, d: so_far.d }
    } else if so_far.len == 2 {
        Glyph { len: 3, a: so_far.a, b: so_far.b, c: byte, d: so_far.d }
    } else {
        Glyph { len: 4, a: so_far.a, b: so_far.b, c: so_far.c, d: byte }
    };
    let whole: u8 = if glyph.a < 0xe0 {
        2
    } else if glyph.a < 0xf0 {
        3
    } else {
        4
    };
    if glyph.len < whole {
        (Reading::Char(glyph), Effect::Still)
    } else if glyph.len == 2 && glyph.a == 0xc2 && glyph.b < 0xa0 {
        (Reading::Text, Effect::Still)
    } else {
        (Reading::Text, Effect::Draw(glyph))
    }
}

/// Reads a byte from 0x20 to 0x3f before the last byte of a sequence.
fn read_header_byte(header: Header, byte: u8) -> (next: Header)
    ensures
        next == header_step(header, byte),
{
    match header {
        Header::Entry => if byte < 0x30 {
            Header::Intermediate
        } else {
            Header::Param
        },
        Header::Param => if byte < 0x30 {
            Header::Intermediate
        } else if byte < 0x3c {
            Header::Param
        } else {
            Header::Ignore
        },
        Header::Intermediate => if byte < 0x30 {
            Header::Intermediate
        } else {
            Header::Ignore
        },
        Header::Ignore => Header::Ignore,
    }
}

/// Reads a byte from 0x20 to 0x3f in a control sequence.
fn read_control_byte(header: Header, mark: u8, first: u16, open: bool, byte: u8) -> (next: Reading)
    requires
        0x20 <= byte < 0x40,
    ensures
        next == control_step(header, mark, first, open, byte),
{
    let next: Header = read_header_byte(header, byte);
    let param: bool = next == Header::Param && byte < 0x3c;
    if !param {
        let mark: u8 = if next != Header::Ignore && mark == 0 {
            byte
        } else {
            mark
        };
        return Reading::Control { header: next, mark, first, open };
    }
    if byte > 0x39 {
        return Reading::Control { header: next, mark, first, open: false };
    }
    let first: u16 = if open {
        let value: u32 = first as u32 * 10 + (byte - 0x30) as u32;
        if value > 0xffff {
            0xffff
        } else {
            value as u16
        }
    } else {
        first
    };
    Reading::Control { header: next, mark, first, open }
}

/// Tells what the last byte of a control sequence makes it do.
fn end_control(header: Header, mark: u8, first: u16, byte: u8) -> (effect: Effect)
    ensures
        effect == control_effect(header, mark, first, byte),
{
    let count: u16 = if first == 0 {
        1
    } else {
        first
    };
    if header == Header::Ignore || (mark != 0 && mark != 0x3f) {
        Effect::Still
    } else if (byte == 0x4a || byte == 0x4b) && first == 0 {
        Effect::EraseForward
    } else if (byte == 0x4a || byte == 0x4b) && first == 1 {
        Effect::EraseBackward
    } else if byte == 0x4b && first == 2 {
        Effect::EraseRow
    } else if mark != 0 {
        Effect::Still
    } else if byte == 0x40 {
        Effect::InsertCells
    } else if byte == 0x4c {
        Effect::InsertLines
    } else if byte == 0x4d {
        Effect::DeleteLines
    } else if byte == 0x50 {
        Effect::DeleteCells(count)
    } else if byte == 0x58 {
        Effect::EraseCells(count)
    } else {
        Effect::Still
    }
}

/// Reads a byte right behind an escape.
fn read_escape_byte(byte: u8) -> (next: Reading)
    ensures
        next == escape_step(byte),
{
    if byte < 0x30 {
        Reading::Designation
    } else if byte == 0x5b {
        Reading::Control { header: Header::Entry, mark: 0, first: 0, open: true }
    } else if byte == 0x5d {
        Reading::Title
    } else if byte == 0x50 {
        Reading::Device(Header::Entry)
    } else if byte == 0x58 || byte == 0x5e || byte == 0x5f {
        Reading::Quoted
    } else {
        Reading::Text
    }
}

/// Reads a byte: tells where the stream is behind it, and what it does.
pub fn read_byte(reading: Reading, byte: u8) -> (read: (Reading, Effect))
    ensures
        read == step(reading, byte),
{
    if let Reading::Char(so_far) = reading {
        return read_char_byte(so_far, byte);
    }
    if byte == 0x1b {
        return (Reading::Escape, Effect::Still);
    }
    if byte == 0x18 || byte == 0x1a {
        return (Reading::Text, Effect::Still);
    }
    let control: Effect = if byte == 9 {
        Effect::Tab
    } else {
        Effect::Still
    };
    match reading {
        Reading::Text => if byte < 0x20 {
            (Reading::Text, control)
        } else if byte < 0x7f {
            (Reading::Text, Effect::Draw(Glyph { len: 1, a: byte, b: 0, c: 0, d: 0 }))
        } else if 0xc2 <= byte && byte <= 0xf4 {
            (Reading::Char(Glyph { len: 1, a: byte, b: 0, c: 0, d: 0 }), Effect::Still)
        } else {
            (Reading::Text, Effect::Still)
        },
        Reading::Escape => if byte < 0x20 {
            (reading, control)
        } else if byte < 0x7f {
            (read_escape_byte(byte), Effect::Still)
        } else {
            (reading, Effect::Still)
        },
        Reading::Designation => if byte < 0x20 {
            (reading, control)
        } else if 0x30 <= byte && byte < 0x7f {
            (Reading::Text, Effect::Still)
        } else {
            (reading, Effect::Still)
        },
        Reading::Control { header, mark, first, open } => if byte < 0x20 {
            (reading, control)
        } else if byte < 0x40 {
            (read_control_byte(header, mark, first, open, byte), Effect::Still)
        } else if byte < 0x7f {
            (Reading::Text, end_control(header, mark, first, byte))
        } else {
            (reading, Effect::Still)
        },
        Reading::Device(header) => if 0x20 <= byte && byte < 0x40 {
            let next: Header = read_header_byte(header, byte);
            if next == Header::Ignore {
                (Reading::Quoted, Effect::Still)
            } else {
                (Reading::Device(next), Effect::Still)
            }
        } else if 0x40 <= byte && byte < 0x7f {
            (Reading::Quoted, Effect::Still)
        } else {
            (reading, Effect::Still)
        },
        Reading::Quoted => if byte == 0x9c {
            (Reading::Text, Effect::Still)
        } else {
            (reading, Effect::Still)
        },
        Reading::Title => if byte == 7 {
            (Reading::Text, Effect::Still)
        } else {
            (reading, Effect::Still)
        },
        Reading::Char(_) => (reading, Effect::Still),
    }
}

/// Where bytes stand that belong to no sequence, each printed character of ASCII draws itself, and
/// the text goes on.
pub proof fn law_letters_are_drawn(b: u8)
    requires
        0x20 <= b <= 0x7e,
    ensures
        step(Reading::Text, b).0 == Reading::Text,
        step(Reading::Text, b).1 matches Effect::Draw(glyph) && glyph.bytes() == seq![b],
{
}

/// A character of two bytes is drawn when its second byte comes, as those two bytes; one of three
/// or four, likewise. Before that nothing is drawn.
pub proof fn law_characters_are_drawn_whole(a: u8, b: u8, c: u8, d: u8)
    requires
        0x80 <= b <= 0xbf,
        0x80 <= c <= 0xbf,
        0x80 <= d <= 0xbf,
    ensures
        0xc3 <= a <= 0xdf ==> {
            let first = step(Reading::Text, a);
            let second = step(first.0, b);
            &&& first.1 == Effect::Still
            &&& second.0 == Reading::Text
            &&& second.1 matches Effect::Draw(glyph) && glyph.bytes() == seq![a, b]
        },
        0xe0 <= a <= 0xef && (a == 0xe0 ==> b >= 0xa0) && (a == 0xed ==> b < 0xa0) ==> {
            let first = step(Reading::Text, a);
            let second = step(first.0, b);
            let third = step(second.0, c);
            &&& first.1 == Effect::Still && second.1 == Effect::Still
            &&& third.0 == Reading::Text
            &&& third.1 matches Effect::Draw(glyph) && glyph.bytes() == seq![a, b, c]
        },
        0xf0 <= a <= 0xf4 && (a == 0xf0 ==> b >= 0x90) && (a == 0xf4 ==> b < 0x90) ==> {
            let first = step(Reading::Text, a);
            let second = step(first.0, b);
            let third = step(second.0, c);
            let fourth = step(third.0, d);
            &&& first.1 == Effect::Still && second.1 == Effect::Still && third.1 == Effect::Still
            &&& fourth.0 == Reading::Text
            &&& fourth.1 matches Effect::Draw(glyph) && glyph.bytes() == seq![a, b, c, d]
        },
{
}

/// A control sequence draws nothing, and ends with its last byte: whatever digits and semicolons
/// stand in it, behind that the text goes on.
pub proof fn law_control_sequences_draw_nothing(params: Seq<u8>, last: u8, before: Seq<u8>)
    requires
        !(reading(before) is Char),
        forall|i: int| 0 <= i < params.len() ==> 0x30 <= #[trigger] params[i] <= 0x3b,
        0x40 <= last <= 0x7e,
    ensures
        ({
            let inside = before + seq![0x1bu8, 0x5bu8] + params;
            &&& reading(inside) is Control
            &&& step(reading(inside), last).0 == Reading::Text
            &&& !(step(reading(inside), last).1 is Draw)
            &&& reading(inside.push(last)) == Reading::Text
        }),
    decreases params.len(),
{
    let open = before + seq![0x1bu8, 0x5bu8];
    lemma_params_keep_control(before, params);
    let inside = open + params;
    assert(inside.push(last).drop_last() == inside);
}

proof fn lemma_params_keep_control(before: Seq<u8>, params: Seq<u8>)
    requires
        !(reading(before) is Char),
        forall|i: int| 0 <= i < params.len() ==> 0x30 <= #[trigger] params[i] <= 0x3b,
    ensures
        reading(before + seq![0x1bu8, 0x5bu8] + params) is Control,
        reading(before + seq![0x1bu8, 0x5bu8] + params)->header == Header::Entry || reading(
            before + seq![0x1bu8, 0x5bu8] + params,
        )->header == Header::Param,
    decreases params.len(),
{
    let open = before + seq![0x1bu8, 0x5bu8];
    if params.len() == 0 {
        assert(open + params == open);
        assert(open.last() == 0x5b);
        assert(open.drop_last() == before + seq![0x1bu8]);
        assert((before + seq![0x1bu8]).drop_last() == before);
        assert((before + seq![0x1bu8]).last() == 0x1b);
        assert(reading(before + seq![0x1bu8]) == Reading::Escape);
        assert(reading(open) == step(Reading::Escape, 0x5b).0);
    } else {
        let front = params.drop_last();
        assert forall|i: int| 0 <= i < front.len() implies 0x30 <= #[trigger] front[i] <= 0x3b by {
            assert(params[i] == front[i]);
        }
        lemma_params_keep_control(before, front);
        let last = params[params.len() - 1];
        assert((open + params).drop_last() == open + front);
        assert((open + params).last() == last);
        assert(reading(open + params) == step(reading(open + front), last).0);
    }
}

/// The title of a window is not drawn: whatever is in it, up to the bell, and behind that the text
/// goes on.
pub proof fn law_titles_are_not_drawn(before: Seq<u8>, title: Seq<u8>, b: u8)
    requires
        !(reading(before) is Char),
        forall|i: int|
            0 <= i < title.len() ==> (#[trigger] title[i]) != 7 && title[i] != 0x18 && title[i]
                != 0x1a && title[i] != 0x1b,
    ensures
        ({
            let inside = before + seq![0x1bu8, 0x5du8] + title;
            &&& reading(inside) == Reading::Title
            &&& step(reading(inside), b).1 == Effect::Still
            &&& reading(inside.push(7)) == Reading::Text
        }),
    decreases title.len(),
{
    let open = before + seq![0x1bu8, 0x5du8];
    let inside = open + title;
    assert(inside.push(7).drop_last() == inside);
    assert(inside.push(7).last() == 7);
    if title.len() == 0 {
        assert(inside == open);
        assert(open.last() == 0x5d);
        assert(open.drop_last() == before + seq![0x1bu8]);
        assert((before + seq![0x1bu8]).drop_last() == before);
        assert((before + seq![0x1bu8]).last() == 0x1b);
        assert(reading(before + seq![0x1bu8]) == Reading::Escape);
        assert(reading(open) == Reading::Title);
    } else {
        let front = title.drop_last();
        assert forall|i: int| 0 <= i < front.len() implies (#[trigger] front[i]) != 7 && front[i]
            != 0x18 && front[i] != 0x1a && front[i] != 0x1b by {
            assert(title[i] == front[i]);
        }
        law_titles_are_not_drawn(before, front, b);
        assert(inside.drop_last() == open + front);
        assert(inside.last() == title[title.len() - 1]);
        assert(reading(inside) == Reading::Title);
    }
}

/// A control character draws nothing where no character is half read, and an escape starts a
/// sequence wherever it comes.
pub proof fn law_control_characters_draw_nothing(r: Reading, b: u8)
    requires
        !(r is Char),
        b < 0x20,
    ensures
        !(step(r, b).1 is Draw),
        b != 9 ==> step(r, b).1 == Effect::Still,
        step(r, 0x1b).0 == Reading::Escape,
        step(r, 0x18).0 == Reading::Text,
        r == Reading::Text && b != 0x1b ==> step(r, b).0 == Reading::Text,
{
}

/// What a control sequence with a number does: the number counts in the sequences that erase and
/// delete cells, none or zero counts as one, and without one, lines are erased from the cursor on.
pub proof fn law_numbers_count(digit: u8, last: u8)
    requires
        0x30 <= digit <= 0x39,
    ensures
        ({
            let open = step(Reading::Escape, 0x5b).0;
            let one = step(open, digit).0;
            let n = if digit == 0x30 {
                1u16
            } else {
                (digit - 0x30) as u16
            };
            &&& step(open, 0x58).1 == Effect::EraseCells(1)
            &&& step(open, 0x50).1 == Effect::DeleteCells(1)
            &&& step(open, 0x4a).1 == Effect::EraseForward
            &&& step(open, 0x4b).1 == Effect::EraseForward
            &&& step(one, 0x58).1 == Effect::EraseCells(n)
            &&& step(one, 0x50).1 == Effect::DeleteCells(n)
            &&& step(one, 0x4c).1 == Effect::InsertLines
            &&& step(one, 0x4d).1 == Effect::DeleteLines
            &&& step(one, 0x40).1 == Effect::InsertCells
            &&& digit == 0x32 ==> step(one, 0x4b).1 == Effect::EraseRow && step(one, 0x4a).1
                == Effect::Still
            &&& digit == 0x31 ==> step(one, 0x4b).1 == Effect::EraseBackward && step(one, 0x4a).1
                == Effect::EraseBackward
        }),
{
}

/// A character that breaks off draws the replacement character, once, and the text goes on behind
/// the byte that broke it; and a byte that starts nothing draws nothing.
pub proof fn law_broken_characters_are_replaced(a: u8, b: u8)
    ensures
        0xc2 <= a <= 0xf4 && !(0x80 <= b <= 0xbf) ==> {
            let first = step(Reading::Text, a);
            let second = step(first.0, b);
            &&& first.1 == Effect::Still
            &&& second.0 == Reading::Text
            &&& second.1 matches Effect::Draw(glyph) && glyph.bytes() == seq![
                0xefu8,
                0xbfu8,
                0xbdu8,
            ]
        },
        0x7f <= a < 0xc2 || a > 0xf4 ==> step(Reading::Text, a) == (Reading::Text, Effect::Still),
        0x80 <= b < 0xa0 ==> step(step(Reading::Text, 0xc2).0, b) == (
            Reading::Text,
            Effect::Still,
        ),
        0xa0 <= b <= 0xbf ==> (step(step(Reading::Text, 0xc2).0, b).1 matches Effect::Draw(glyph)
            && glyph.bytes() == seq![0xc2u8, b]),
{
}

/// Overlong forms, halves of pairs and what is beyond the last code point are no characters.
pub proof fn law_only_characters_are_read(a: u8, b: u8)
    requires
        0x80 <= b <= 0xbf,
    ensures
        ({
            let second = step(step(Reading::Text, a).0, b);
            let broken = second.0 == Reading::Text && second.1 is Draw;
            let goes_on = second.0 is Char && second.1 == Effect::Still;
            &&& a == 0xe0 ==> if b < 0xa0 {
                broken
            } else {
                goes_on
            }
            &&& a == 0xed ==> if b >= 0xa0 {
                broken
            } else {
                goes_on
            }
            &&& a == 0xf0 ==> if b < 0x90 {
                broken
            } else {
                goes_on
            }
            &&& a == 0xf4 ==> if b >= 0x90 {
                broken
            } else {
                goes_on
            }
        }),
{
}

/// The first number of a sequence is read as it is written: one more digit makes it ten times as
/// large and adds the digit, up to the largest, and what follows a semicolon does not change it.
pub proof fn law_numbers_are_decimal(first: u16, digit: u8, rest: u8)
    requires
        0x30 <= digit <= 0x39,
        0x30 <= rest <= 0x3b,
    ensures
        ({
            let so_far = Reading::Control { header: Header::Param, mark: 0, first, open: true };
            let more = step(so_far, digit).0;
            let behind = step(step(so_far, 0x3b).0, rest).0;
            &&& more is Control
            &&& first * 10 + (digit - 0x30) <= 65535 ==> more->first == first * 10 + (digit - 0x30)
            &&& first * 10 + (digit - 0x30) > 65535 ==> more->first == 65535
            &&& more->open
            &&& behind is Control && behind->first == first
        }),
{
}

/// Sequences that are marked as private do what the plain ones do where they erase, and nothing
/// where they insert, delete or count cells.
pub proof fn law_private_sequences_only_erase(digit: u8)
    requires
        0x30 <= digit <= 0x32,
    ensures
        ({
            let plain = step(step(Reading::Escape, 0x5b).0, digit).0;
            let private = step(step(step(Reading::Escape, 0x5b).0, 0x3f).0, digit).0;
            &&& step(private, 0x4b).1 == step(plain, 0x4b).1
            &&& step(private, 0x4a).1 == step(plain, 0x4a).1
            &&& step(private, 0x40).1 == Effect::Still
            &&& step(private, 0x4c).1 == Effect::Still
            &&& step(private, 0x4d).1 == Effect::Still
            &&& step(private, 0x50).1 == Effect::Still
            &&& step(private, 0x58).1 == Effect::Still
            &&& step(step(step(Reading::Escape, 0x5b).0, 0x3e).0, 0x4b).1 == Effect::Still
        }),
{
}

/// An escape sequence of two bytes ends with the second, and draws nothing; one with bytes from 0x20
/// to 0x2f in it goes on to the first byte from 0x30.
pub proof fn law_escape_sequences_are_short(b: u8, c: u8)
    ensures
        0x30 <= b <= 0x7e && b != 0x5b && b != 0x5d && b != 0x50 && b != 0x58 && b != 0x5e && b
            != 0x5f ==> step(Reading::Escape, b) == (Reading::Text, Effect::Still),
        0x20 <= b <= 0x2f && 0x30 <= c <= 0x7e ==> step(Reading::Escape, b).1 == Effect::Still
            && step(step(Reading::Escape, b).0, c) == (Reading::Text, Effect::Still),
        0x20 <= b <= 0x2f && 0x20 <= c <= 0x2f ==> step(step(Reading::Escape, b).0, c).0 == step(
            Reading::Escape,
            b,
        ).0,
        b >= 0x7f ==> step(Reading::Escape, b) == (Reading::Escape, Effect::Still),
        c != 0x1b && c != 0x18 && c != 0x1a && c < 0x20 ==> step(Reading::Escape, c).0
            == Reading::Escape,
{
}

/// Strings are not drawn: in a device control string, in one that is quoted and in a title no byte
/// does anything, and each ends as it should.
pub proof fn law_strings_are_not_drawn(header: Header, b: u8)
    ensures
        step(Reading::Device(header), b).1 == Effect::Still,
        step(Reading::Quoted, b).1 == Effect::Still,
        step(Reading::Title, b).1 == Effect::Still,
        step(Reading::Escape, 0x50).0 == Reading::Device(Header::Entry),
        step(Reading::Escape, 0x58).0 == Reading::Quoted,
        step(Reading::Escape, 0x5e).0 == Reading::Quoted,
        step(Reading::Escape, 0x5f).0 == Reading::Quoted,
        step(Reading::Escape, 0x5d).0 == Reading::Title,
        0x40 <= b <= 0x7e ==> step(Reading::Device(header), b).0 == Reading::Quoted,
        step(Reading::Quoted, 0x9c).0 == Reading::Text,
        b != 0x1b && b != 0x18 && b != 0x1a && b != 0x9c ==> step(Reading::Quoted, b).0
            == Reading::Quoted,
        b != 0x1b && b != 0x18 && b != 0x1a && b != 7 ==> step(Reading::Title, b).0
            == Reading::Title,
        step(Reading::Device(header), 0x1b).0 == Reading::Escape,
        step(Reading::Device(header), 0x18).0 == Reading::Text,
        step(Reading::Title, 0x1a).0 == Reading::Text,
        0x30 <= b <= 0x3b ==> step(Reading::Device(Header::Entry), b).0 == Reading::Device(
            Header::Param,
        ),
        0x3c <= b <= 0x3f ==> step(Reading::Device(Header::Param), b).0 == Reading::Quoted,
{
}

/// A control sequence with a byte from 0x20 to 0x2f in it does nothing, nor does one in which a
/// parameter follows such a byte or a mark follows a parameter. Control characters inside a sequence
/// do what they do, and the sequence goes on.
pub proof fn law_odd_sequences_do_nothing(mark: u8, odd: u8, last: u8)
    requires
        0x20 <= mark <= 0x2f,
        0x3c <= odd <= 0x3f,
        0x40 <= last <= 0x7e,
    ensures
        ({
            let open = step(Reading::Escape, 0x5b).0;
            &&& step(step(open, mark).0, last) == (Reading::Text, Effect::Still)
            &&& step(step(step(open, 0x31).0, mark).0, last) == (Reading::Text, Effect::Still)
            &&& step(step(step(open, 0x31).0, odd).0, last) == (Reading::Text, Effect::Still)
            &&& step(step(step(open, mark).0, 0x31).0, last) == (Reading::Text, Effect::Still)
            &&& odd != 0x3f ==> step(step(open, odd).0, last) == (Reading::Text, Effect::Still)
            &&& step(open, 9) == (open, Effect::Tab)
            &&& step(open, 0x0d) == (open, Effect::Still)
            &&& step(open, 0x7f) == (open, Effect::Still)
        }),
{
}

/// Of the control characters only the tab touches more than the position and the screen as a whole.
pub proof fn law_only_the_tab_counts(r: Reading)
    ensures
        r == Reading::Text || r == Reading::Escape || r == Reading::Designation || r is Control
            ==> step(r, 9) == (r, Effect::Tab),
        r == Reading::Text ==> step(r, 8).1 == Effect::Still && step(r, 10).1 == Effect::Still
            && step(r, 13).1 == Effect::Still && step(r, 7).1 == Effect::Still,
{
}

/// Where a stream is behind some bytes: each takes it one step further.
pub proof fn law_a_stream_is_read_byte_by_byte(bytes: Seq<u8>, b: u8, read: (Reading, Effect))
    requires
        call_ensures(read_byte, (reading(bytes), b), read),
    ensures
        reading(Seq::empty()) == Reading::Text,
        reading(bytes.push(b)) == read.0,
        step(reading(bytes), b) == read,
{
    assert(bytes.push(b).drop_last() == bytes);
}

/// What the number of a sequence decides, whatever it is: how many cells are erased or deleted, none
/// counting as one; and which part of the row or the screen is erased, nothing from three on, and
/// from two on nothing cell by cell of the screen.
pub proof fn law_the_number_decides(first: u16, open: bool, last: u8)
    requires
        0x40 <= last <= 0x7e,
    ensures
        ({
            let does = step(
                Reading::Control { header: Header::Param, mark: 0, first, open },
                last,
            ).1;
            let n = if first == 0 {
                1u16
            } else {
                first
            };
            &&& last == 0x58 ==> does == Effect::EraseCells(n)
            &&& last == 0x50 ==> does == Effect::DeleteCells(n)
            &&& last == 0x40 ==> does == Effect::InsertCells
            &&& last == 0x4c ==> does == Effect::InsertLines
            &&& last == 0x4d ==> does == Effect::DeleteLines
            &&& (last == 0x4a || last == 0x4b) && first == 0 ==> does == Effect::EraseForward
            &&& (last == 0x4a || last == 0x4b) && first == 1 ==> does == Effect::EraseBackward
            &&& last == 0x4b && first == 2 ==> does == Effect::EraseRow
            &&& last == 0x4a && first >= 2 ==> does == Effect::Still
            &&& last == 0x4b && first >= 3 ==> does == Effect::Still
            &&& last != 0x58 && last != 0x50 && last != 0x40 && last != 0x4c && last != 0x4d && last
                != 0x4a && last != 0x4b ==> does == Effect::Still
        }),
{
}

/// A character that breaks off behind its second or third byte is replaced as well.
pub proof fn law_late_breaks_are_replaced(a: u8, b: u8, c: u8, bad: u8)
    requires
        0x80 <= b <= 0xbf,
        0x80 <= c <= 0xbf,
        !(0x80 <= bad <= 0xbf),
    ensures
        ({
            let second = step(step(Reading::Text, a).0, b).0;
            let third = step(second, c).0;
            let unknown = seq![0xefu8, 0xbfu8, 0xbdu8];
            &&& 0xe1 <= a <= 0xec || 0xf1 <= a <= 0xf3 ==> step(second, bad).0 == Reading::Text && (
            step(second, bad).1 matches Effect::Draw(glyph) && glyph.bytes() == unknown)
            &&& 0xf1 <= a <= 0xf3 ==> step(third, bad).0 == Reading::Text && (step(
                third,
                bad,
            ).1 matches Effect::Draw(glyph) && glyph.bytes() == unknown)
        }),
{
}

} // verus!
