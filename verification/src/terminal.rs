//! The terminal model of a session.
//!
//! A pty hands out a *stream*. Once bytes have gone past there is no way to ask the system what the
//! screen currently looks like, which is exactly what a client attaching ten minutes later needs.
//! So everything the pty emits is replayed into a terminal model, and the model is serialised back
//! into escape sequences for each new client.
//!
//! The emulation itself is that of the `vt100` crate. What its screen shows is a function of what
//! it was fed: of the sizes it has had, and of the bytes that came at each of them. The model is
//! spoken of by that history.

use vstd::prelude::*;

use crate::escape;
use crate::escape::{Effect, Glyph, Reading};

verus! {

/// How much scrollback the model retains, in lines.
pub const SCROLLBACK_LINES: usize = 10_000;

/// The emulator: a parser of terminal output together with the screen that it draws.
#[verifier::external_type_specification]
#[verifier::external_body]
pub struct ExParser(vt100::Parser);

/// What an emulator was fed: for each size that it has had, in order, the rows, the columns, and
/// the bytes that it processed at that size.
pub uninterp spec fn parser_history(parser: vt100::Parser) -> Seq<(u16, u16, Seq<u8>)>;

/// How many lines of scrollback an emulator was made with.
pub uninterp spec fn parser_scrollback(parser: vt100::Parser) -> nat;

/// Where `Screen::cursor_position` says that the cursor of an emulator with this scrollback and
/// history is: the row, and the column.
pub uninterp spec fn screen_cursor(
    scrollback: nat,
    history: Seq<(u16, u16, Seq<u8>)>,
) -> (u16, u16);

/// Whether `Screen::cell` gives a cell there, and `Cell::is_wide` says that it starts a wide
/// character, on the screen of an emulator with this scrollback and history.
pub uninterp spec fn wide_cell(
    scrollback: nat,
    history: Seq<(u16, u16, Seq<u8>)>,
    row: u16,
    col: u16,
) -> bool;

/// Whether `Screen::cell` gives a cell there, and `Cell::is_wide_continuation` says that it is the
/// second half of a wide character, on the screen of an emulator with this scrollback and history.
pub uninterp spec fn continued_cell(
    scrollback: nat,
    history: Seq<(u16, u16, Seq<u8>)>,
    row: u16,
    col: u16,
) -> bool;

/// The escape sequences that `Screen::contents_formatted` gives for the screen of an emulator with
/// this scrollback and history.
pub uninterp spec fn formatted_screen(
    scrollback: nat,
    history: Seq<(u16, u16, Seq<u8>)>,
) -> Seq<u8>;

/// The text that `Screen::contents` gives for the screen of an emulator with this scrollback and
/// history.
pub uninterp spec fn plain_screen(
    scrollback: nat,
    history: Seq<(u16, u16, Seq<u8>)>,
) -> Seq<char>;

/// A history with more bytes at the size that the terminal has now.
pub open spec fn fed(history: Seq<(u16, u16, Seq<u8>)>, bytes: Seq<u8>) -> Seq<
    (u16, u16, Seq<u8>),
> {
    let (rows, cols, seen) = history.last();
    history.drop_last().push((rows, cols, seen + bytes))
}

/// A history with a new size.
pub open spec fn resized(history: Seq<(u16, u16, Seq<u8>)>, rows: u16, cols: u16) -> Seq<
    (u16, u16, Seq<u8>),
> {
    history.push((rows, cols, Seq::empty()))
}

/// Makes an emulator with `vt100::Parser::new`: of that size and scrollback, and fed with nothing.
///
/// A dimension of zero is left out, because the crate computes with the last row and column.
#[verifier::external_body]
fn new_parser(rows: u16, cols: u16, scrollback: usize) -> (parser: vt100::Parser)
    requires
        rows >= 1,
        cols >= 1,
    ensures
        parser_history(parser) == seq![(rows, cols, Seq::<u8>::empty())],
        parser_scrollback(parser) == scrollback,
{
    vt100::Parser::new(rows, cols, scrollback)
}

/// All bytes of a history, in order.
pub open spec fn flat(history: Seq<(u16, u16, Seq<u8>)>) -> Seq<u8>
    decreases history.len(),
{
    if history.len() == 0 {
        Seq::empty()
    } else {
        flat(history.drop_last()) + history.last().2
    }
}

/// What a byte does that comes behind a history.
pub open spec fn effect(history: Seq<(u16, u16, Seq<u8>)>, byte: u8) -> Effect {
    escape::step(escape::reading(flat(history)), byte).1
}

/// Whether a cell starts a wide character.
pub open spec fn wide(scrollback: nat, history: Seq<(u16, u16, Seq<u8>)>, r: int, c: int) -> bool {
    wide_cell(scrollback, history, r as u16, c as u16)
}

/// Whether a cell is the second half of a wide character.
pub open spec fn continued(
    scrollback: nat,
    history: Seq<(u16, u16, Seq<u8>)>,
    r: int,
    c: int,
) -> bool {
    continued_cell(scrollback, history, r as u16, c as u16)
}

/// Whether a cell starts a wide character when its turn comes, where the cells of a row are cleared
/// from `start` on: to clear a wide character clears the cell behind it as well.
pub open spec fn still_wide(
    scrollback: nat,
    history: Seq<(u16, u16, Seq<u8>)>,
    r: int,
    start: int,
    c: int,
) -> bool
    decreases c - start,
{
    wide(scrollback, history, r, c) && !(c > start && still_wide(
        scrollback,
        history,
        r,
        start,
        c - 1,
    ))
}

/// Whether the cells from `start` to before `end` can be erased one by one. With a wide character
/// goes the cell behind it, and with a second half the cell before it; both are there.
pub open spec fn erasable(
    scrollback: nat,
    history: Seq<(u16, u16, Seq<u8>)>,
    r: int,
    start: int,
    end: int,
) -> bool {
    let cols = history.last().1;
    start < end ==> {
        &&& !(start == 0 && continued(scrollback, history, r, 0))
        &&& !(end == cols && still_wide(scrollback, history, r, start, cols - 1))
    }
}

/// Whether the cell that comes to stand at `start` can be deleted, when those between it and `c`
/// have been.
pub open spec fn deletable(
    scrollback: nat,
    history: Seq<(u16, u16, Seq<u8>)>,
    r: int,
    start: int,
    c: int,
) -> bool {
    let cols = history.last().1;
    &&& !(c == cols - 1 && still_wide(scrollback, history, r, start, c))
    &&& !(start == 0 && continued(scrollback, history, r, c) && !(c > 0 && still_wide(
        scrollback,
        history,
        r,
        0,
        c - 1,
    )))
}

/// Whether a character of one column or more can be put into a cell: halves of wide characters
/// that it meets have their other half in the row.
pub open spec fn fits_cell(
    scrollback: nat,
    history: Seq<(u16, u16, Seq<u8>)>,
    r: int,
    c: int,
    columns: int,
) -> bool {
    let cols = history.last().1;
    &&& !(c == 0 && continued(scrollback, history, r, 0))
    &&& wide(scrollback, history, r, c) ==> c + 1 < cols
    &&& columns >= 2 && !wide(scrollback, history, r, c) && wide(scrollback, history, r, c + 1)
        ==> c + 2 < cols
}

/// Whether a character of so many columns can be drawn at the cursor.
///
/// One that goes beyond the row wraps: the line is there, and a next one to scroll to; it may be
/// the one below, or, at the bottom, this one. One without columns goes to the character before it.
pub open spec fn drawable(
    scrollback: nat,
    history: Seq<(u16, u16, Seq<u8>)>,
    columns: int,
) -> bool {
    let (rows, cols, _) = history.last();
    let (row, col) = screen_cursor(scrollback, history);
    &&& columns <= cols
    &&& if col + columns > cols {
        let next = if row + 1 < rows {
            row + 1
        } else {
            row as int
        };
        &&& row < rows
        &&& rows >= 2
        &&& columns > 0 ==> fits_cell(scrollback, history, next, 0, columns)
        &&& columns == 0 && cols == 1 ==> !continued(scrollback, history, row as int, 0)
            && !continued(scrollback, history, next - 1, 0)
    } else if columns > 0 {
        row < rows && fits_cell(scrollback, history, row as int, col as int, columns)
    } else if col > 0 {
        row < rows && !(col == 1 && continued(scrollback, history, row as int, 0))
    } else {
        row == 0 || (row <= rows && !(cols == 1 && continued(scrollback, history, row - 1, 0)))
    }
}

/// Whether a row has no half of a wide character at an end, whose other half would be beyond it.
pub open spec fn whole_ends(scrollback: nat, history: Seq<(u16, u16, Seq<u8>)>, r: int) -> bool {
    &&& !continued(scrollback, history, r, 0)
    &&& !wide(scrollback, history, r, history.last().1 - 1)
}

/// Whether there is room at the cursor for a character, whatever its columns.
pub open spec fn roomy(scrollback: nat, history: Seq<(u16, u16, Seq<u8>)>) -> bool {
    let (rows, cols, _) = history.last();
    let (row, col) = screen_cursor(scrollback, history);
    &&& rows >= 2
    &&& cols >= 3
    &&& row < rows
    &&& whole_ends(scrollback, history, row as int)
    &&& row + 1 < rows ==> whole_ends(scrollback, history, row + 1)
}

/// Whether a byte does nothing but draw a character for which there is room, or does not touch
/// cells at all.
pub open spec fn easy(scrollback: nat, history: Seq<(u16, u16, Seq<u8>)>, byte: u8) -> bool {
    match effect(history, byte) {
        Effect::Still => true,
        Effect::Draw(_) => roomy(scrollback, history),
        _ => false,
    }
}

/// A character drawn twice on a small empty screen, as far as the first `i` bytes.
pub open spec fn trial(glyph: Glyph, i: int) -> Seq<(u16, u16, Seq<u8>)> {
    seq![(2u16, 4u16, (glyph.bytes() + glyph.bytes()).take(i))]
}

/// Whether it can be drawn there.
pub open spec fn measurable(scrollback: nat, glyph: Glyph) -> bool {
    let twice = glyph.bytes() + glyph.bytes();
    forall|i: int|
        0 <= i < twice.len() ==> easy(scrollback, #[trigger] trial(glyph, i), twice[i])
}

/// How many columns a character takes: of four columns, two characters of one fill the first two,
/// and two of two fill all; the second of three goes to the next row.
pub open spec fn columns(scrollback: nat, glyph: Glyph) -> int {
    let (row, col) = screen_cursor(
        scrollback,
        trial(glyph, (glyph.bytes() + glyph.bytes()).len() as int),
    );
    if row > 0 {
        3
    } else {
        col as int / 2
    }
}

/// Whether an emulator takes a byte: where what the byte does touches cells, they are there.
///
/// The cursor may be off the screen, where it was saved before the window got smaller; then only
/// what leaves the cells around it alone is taken. Of a wide character, a smaller window may have
/// left one half; then what looks for the other half beyond the row is not taken.
///
/// The crate does not show the scroll region. Where a line wraps into a row that begins with half
/// of a wide character, in a window of one or two columns, that row counts as the one that is drawn
/// in, though the region may make it a new one; and in one column, a row that is such a half counts
/// as wrapped.
pub open spec fn takes_byte(
    scrollback: nat,
    history: Seq<(u16, u16, Seq<u8>)>,
    byte: u8,
) -> bool {
    let (rows, cols, _) = history.last();
    let (row, col) = screen_cursor(scrollback, history);
    match effect(history, byte) {
        Effect::Still => true,
        Effect::Tab => col < 65528,
        Effect::Draw(glyph) => roomy(scrollback, history) || (measurable(scrollback, glyph)
            && drawable(scrollback, history, columns(scrollback, glyph))),
        Effect::EraseForward => row < rows && erasable(
            scrollback,
            history,
            row as int,
            col as int,
            cols as int,
        ),
        Effect::EraseBackward => row < rows && erasable(
            scrollback,
            history,
            row as int,
            0,
            (if col < cols {
                col + 1
            } else {
                cols as int
            }),
        ),
        Effect::EraseRow => row < rows,
        Effect::EraseCells(n) => row < rows && erasable(
            scrollback,
            history,
            row as int,
            col as int,
            (if col + n < cols {
                col + n
            } else {
                cols as int
            }),
        ),
        Effect::DeleteCells(n) => row < rows && col <= cols && forall|c: int|
            col <= c < col + n && c < cols ==> #[trigger] deletable(
                scrollback,
                history,
                row as int,
                col as int,
                c,
            ),
        Effect::InsertCells => row < rows && col <= cols,
        Effect::InsertLines => row < rows,
        Effect::DeleteLines => row <= rows,
    }
}

/// Whether the screen of an emulator can be serialised.
///
/// A cursor right behind a row is put there by drawing the end of that row again, or of one above
/// it: the row is there, and the end of none of them is the second half of a character without the
/// first.
pub open spec fn paintable(scrollback: nat, history: Seq<(u16, u16, Seq<u8>)>) -> bool {
    let (rows, cols, _) = history.last();
    let (row, col) = screen_cursor(scrollback, history);
    col < cols || (row < rows && (cols >= 2 || forall|r: int|
        0 <= r <= row ==> !#[trigger] continued_cell(scrollback, history, r as u16, 0)))
}

/// Feeds an emulator one byte with `vt100::Parser::process`: it comes behind those that it was fed
/// at its present size.
///
/// The crate indexes cells by where the cursor is and by where the other half of a wide character
/// should be, and counts rows and columns in 16 bits. Bytes for which that would go wrong are left
/// out. What a byte does follows the state table of the `vte` crate, by which the emulator reads.
#[verifier::external_body]
fn feed_byte(parser: &mut vt100::Parser, byte: u8)
    requires
        takes_byte(parser_scrollback(*old(parser)), parser_history(*old(parser)), byte),
    ensures
        parser_history(*final(parser)) == fed(parser_history(*old(parser)), seq![byte]),
        parser_scrollback(*final(parser)) == parser_scrollback(*old(parser)),
{
    parser.process(&[byte]);
}

/// Asks for the cursor with `vt100::Screen::cursor_position`. The result is named, and depends on
/// nothing but the scrollback and the history.
#[verifier::external_body]
fn read_cursor(parser: &vt100::Parser) -> (cursor: (u16, u16))
    ensures
        cursor == screen_cursor(parser_scrollback(*parser), parser_history(*parser)),
{
    parser.screen().cursor_position()
}

/// Asks for a cell with `vt100::Screen::cell`, and whether it starts a wide character with
/// `vt100::Cell::is_wide`. Where there is no cell, it does not.
#[verifier::external_body]
fn is_wide(parser: &vt100::Parser, row: u16, col: u16) -> (wide: bool)
    ensures
        wide == wide_cell(parser_scrollback(*parser), parser_history(*parser), row, col),
{
    match parser.screen().cell(row, col) {
        Some(cell) => cell.is_wide(),
        None => false,
    }
}

/// Asks for a cell with `vt100::Screen::cell`, and whether it is the second half of a wide
/// character with `vt100::Cell::is_wide_continuation`. Where there is no cell, it is not.
#[verifier::external_body]
fn is_continued(parser: &vt100::Parser, row: u16, col: u16) -> (continued: bool)
    ensures
        continued == continued_cell(parser_scrollback(*parser), parser_history(*parser), row, col),
{
    match parser.screen().cell(row, col) {
        Some(cell) => cell.is_wide_continuation(),
        None => false,
    }
}

/// Gives an emulator a new size with `vt100::Parser::set_size`.
///
/// A dimension of zero is left out, because the crate computes with the last row and column.
#[verifier::external_body]
fn resize_parser(parser: &mut vt100::Parser, rows: u16, cols: u16)
    requires
        rows >= 1,
        cols >= 1,
    ensures
        parser_history(*final(parser)) == resized(parser_history(*old(parser)), rows, cols),
        parser_scrollback(*final(parser)) == parser_scrollback(*old(parser)),
{
    parser.set_size(rows, cols);
}

/// Serialises the screen of an emulator with `vt100::Screen::contents_formatted`. The result is
/// named, and depends on nothing but the scrollback and the history.
///
/// Where the crate would draw the end of a row that is not there, the call is left out.
#[verifier::external_body]
fn format_screen(parser: &vt100::Parser) -> (bytes: Vec<u8>)
    requires
        paintable(parser_scrollback(*parser), parser_history(*parser)),
    ensures
        bytes@ == formatted_screen(parser_scrollback(*parser), parser_history(*parser)),
{
    parser.screen().contents_formatted()
}

/// Reads the screen of an emulator with `vt100::Screen::contents`. The result is named, and
/// depends on nothing but the scrollback and the history.
#[verifier::external_body]
fn read_screen(parser: &vt100::Parser) -> (text: String)
    ensures
        text@ == plain_screen(parser_scrollback(*parser), parser_history(*parser)),
{
    parser.screen().contents()
}

/// The escape sequences that reproduce what a terminal with this history shows.
pub open spec fn shown(history: Seq<(u16, u16, Seq<u8>)>) -> Seq<u8> {
    formatted_screen(SCROLLBACK_LINES as nat, history)
}

/// Whether there are such escape sequences.
pub open spec fn showable(history: Seq<(u16, u16, Seq<u8>)>) -> bool {
    paintable(SCROLLBACK_LINES as nat, history)
}

/// What a terminal with this history shows, as plain text.
pub open spec fn shown_text(history: Seq<(u16, u16, Seq<u8>)>) -> Seq<char> {
    plain_screen(SCROLLBACK_LINES as nat, history)
}

/// How many bytes a terminal with this history takes, one after the other.
pub open spec fn taken(history: Seq<(u16, u16, Seq<u8>)>, bytes: Seq<u8>) -> nat
    decreases bytes.len(),
{
    if bytes.len() > 0 && takes_byte(SCROLLBACK_LINES as nat, history, bytes[0]) {
        1 + taken(fed(history, seq![bytes[0]]), bytes.skip(1))
    } else {
        0
    }
}

/// Whether a terminal with this history takes all of these bytes.
pub open spec fn takes_all(history: Seq<(u16, u16, Seq<u8>)>, bytes: Seq<u8>) -> bool {
    taken(history, bytes) == bytes.len()
}

/// A terminal model.
pub struct Terminal {
    parser: vt100::Parser,
    rows: u16,
    cols: u16,
    reading: Reading,
}

impl Terminal {
    /// What the terminal was fed.
    pub closed spec fn history(&self) -> Seq<(u16, u16, Seq<u8>)> {
        parser_history(self.parser)
    }

    /// Every terminal keeps the same number of lines, and knows its size and where in the stream
    /// it is.
    pub closed spec fn wf(&self) -> bool {
        &&& parser_scrollback(self.parser) == SCROLLBACK_LINES
        &&& self.history().len() > 0
        &&& self.history().last().0 == self.rows
        &&& self.history().last().1 == self.cols
        &&& self.rows >= 1
        &&& self.cols >= 1
        &&& self.reading == escape::reading(flat(self.history()))
    }

    /// A terminal with an empty screen.
    pub fn new(rows: u16, cols: u16) -> (terminal: Terminal)
        requires
            rows >= 1,
            cols >= 1,
        ensures
            terminal.wf(),
            terminal.history() == seq![(rows, cols, Seq::<u8>::empty())],
    {
        let terminal: Terminal = Terminal {
            parser: new_parser(rows, cols, SCROLLBACK_LINES),
            rows,
            cols,
            reading: Reading::Text,
        };
        proof {
            let history = terminal.history();
            assert(history.drop_last() == Seq::<(u16, u16, Seq<u8>)>::empty());
            reveal_with_fuel(flat, 2);
            assert(flat(history) == Seq::<u8>::empty());
        }
        terminal
    }

    /// Whether the cells of a row can be erased from `start` to before `end`.
    fn can_erase(&self, r: u16, start: u16, end: u16) -> (yes: bool)
        requires
            self.wf(),
            end <= self.cols,
        ensures
            yes == erasable(
                SCROLLBACK_LINES as nat,
                self.history(),
                r as int,
                start as int,
                end as int,
            ),
    {
        if start >= end {
            return true;
        }
        if start == 0 && is_continued(&self.parser, r, 0) {
            return false;
        }
        if end < self.cols {
            return true;
        }
        let ghost lines = SCROLLBACK_LINES as nat;
        let ghost history = self.history();
        let mut c: u16 = start;
        let mut before: bool = false;
        while c < self.cols - 1
            invariant
                self.wf(),
                lines == SCROLLBACK_LINES,
                history == self.history(),
                start <= c <= self.cols - 1,
                before == (c > start && still_wide(lines, history, r as int, start as int, c - 1)),
            decreases self.cols - c,
        {
            before = is_wide(&self.parser, r, c) && !before;
            c += 1;
        }
        !(is_wide(&self.parser, r, c) && !before)
    }

    /// Whether `n` cells of a row can be deleted at `start`.
    fn can_delete(&self, r: u16, start: u16, n: u16) -> (yes: bool)
        requires
            self.wf(),
        ensures
            yes == (forall|c: int|
                start <= c < start + n && c < self.history().last().1 ==> #[trigger] deletable(
                    SCROLLBACK_LINES as nat,
                    self.history(),
                    r as int,
                    start as int,
                    c,
                )),
    {
        let ghost lines = SCROLLBACK_LINES as nat;
        let ghost history = self.history();
        let mut c: u16 = start;
        let mut before: bool = false;
        while c < self.cols && c - start < n
            invariant
                self.wf(),
                lines == SCROLLBACK_LINES,
                history == self.history(),
                start <= c <= start + n,
                c <= self.cols || c == start,
                before == (c > start && still_wide(lines, history, r as int, start as int, c - 1)),
                forall|k: int|
                    start <= k < c ==> #[trigger] deletable(
                        lines,
                        history,
                        r as int,
                        start as int,
                        k,
                    ),
            decreases self.cols - c,
        {
            let wide: bool = is_wide(&self.parser, r, c) && !before;
            if (wide && c == self.cols - 1) || (start == 0 && !before && is_continued(
                &self.parser,
                r,
                c,
            )) {
                assert(!deletable(lines, history, r as int, start as int, c as int));
                return false;
            }
            before = wide;
            c += 1;
        }
        true
    }

    /// Whether a character can be put into a cell.
    fn can_fit(&self, r: u16, c: u16, columns: u16) -> (yes: bool)
        requires
            self.wf(),
            c < self.cols,
            columns >= 2 ==> c + 1 < self.cols,
        ensures
            yes == fits_cell(
                SCROLLBACK_LINES as nat,
                self.history(),
                r as int,
                c as int,
                columns as int,
            ),
    {
        if c == 0 && is_continued(&self.parser, r, 0) {
            return false;
        }
        if is_wide(&self.parser, r, c) {
            return c + 1 < self.cols;
        }
        !(columns >= 2 && is_wide(&self.parser, r, c + 1)) || c as u32 + 2 < self.cols as u32
    }

    /// Whether a character of so many columns can be drawn at the cursor.
    fn can_draw(&self, columns: u16) -> (yes: bool)
        requires
            self.wf(),
        ensures
            yes == drawable(SCROLLBACK_LINES as nat, self.history(), columns as int),
    {
        let (row, col): (u16, u16) = read_cursor(&self.parser);
        if columns > self.cols {
            return false;
        }
        if col as u32 + columns as u32 > self.cols as u32 {
            if row >= self.rows || self.rows < 2 {
                return false;
            }
            let next: u16 = if row + 1 < self.rows {
                row + 1
            } else {
                row
            };
            if columns > 0 {
                return self.can_fit(next, 0, columns);
            }
            return self.cols > 1 || (!is_continued(&self.parser, row, 0) && !is_continued(
                &self.parser,
                next - 1,
                0,
            ));
        }
        if columns > 0 {
            return row < self.rows && self.can_fit(row, col, columns);
        }
        if col > 0 {
            return row < self.rows && !(col == 1 && is_continued(&self.parser, row, 0));
        }
        row == 0 || (row <= self.rows && !(self.cols == 1 && is_continued(
            &self.parser,
            row - 1,
            0,
        )))
    }

    /// Whether a row has no half of a wide character at an end.
    fn has_whole_ends(&self, r: u16) -> (yes: bool)
        requires
            self.wf(),
        ensures
            yes == whole_ends(SCROLLBACK_LINES as nat, self.history(), r as int),
    {
        !is_continued(&self.parser, r, 0) && !is_wide(&self.parser, r, self.cols - 1)
    }

    /// Whether there is room at the cursor for a character, whatever its columns.
    fn is_roomy(&self) -> (yes: bool)
        requires
            self.wf(),
        ensures
            yes == roomy(SCROLLBACK_LINES as nat, self.history()),
    {
        let (row, _): (u16, u16) = read_cursor(&self.parser);
        self.rows >= 2 && self.cols >= 3 && row < self.rows && self.has_whole_ends(row) && (row
            + 1 >= self.rows || self.has_whole_ends(row + 1))
    }

    /// Takes a byte.
    fn take(&mut self, byte: u8)
        requires
            old(self).wf(),
            takes_byte(SCROLLBACK_LINES as nat, old(self).history(), byte),
        ensures
            final(self).wf(),
            final(self).history() == fed(old(self).history(), seq![byte]),
    {
        proof {
            lemma_reading_on(self.history(), byte);
        }
        feed_byte(&mut self.parser, byte);
        let (next, _): (Reading, Effect) = escape::read_byte(self.reading, byte);
        self.reading = next;
    }

    /// Measures a character: draws it twice on a small empty screen.
    fn measure(glyph: Glyph) -> (width: Option<u16>)
        ensures
            width is Some <==> measurable(SCROLLBACK_LINES as nat, glyph),
            width matches Some(n) ==> n == columns(SCROLLBACK_LINES as nat, glyph),
    {
        let ghost lines = SCROLLBACK_LINES as nat;
        let mut twice: Vec<u8> = glyph.to_vec();
        let mut again: Vec<u8> = glyph.to_vec();
        twice.append(&mut again);
        assert(twice@ == glyph.bytes() + glyph.bytes());
        let mut screen: Terminal = Terminal::new(2, 4);
        assert(twice@.take(0) == Seq::<u8>::empty());
        let mut i: usize = 0;
        while i < twice.len()
            invariant
                lines == SCROLLBACK_LINES,
                twice@ == glyph.bytes() + glyph.bytes(),
                i <= twice.len(),
                screen.wf(),
                screen.history() == trial(glyph, i as int),
                forall|k: int|
                    0 <= k < i ==> easy(lines, #[trigger] trial(glyph, k), twice@[k]),
            decreases twice.len() - i,
        {
            let byte: u8 = twice[i];
            let (_, effect): (Reading, Effect) = escape::read_byte(screen.reading, byte);
            let harmless: bool = match effect {
                Effect::Still => true,
                Effect::Draw(_) => screen.is_roomy(),
                _ => false,
            };
            if !harmless {
                assert(!easy(lines, trial(glyph, i as int), twice@[i as int]));
                return None;
            }
            screen.take(byte);
            proof {
                assert(twice@.take(i as int) + seq![byte] == twice@.take(i + 1));
                assert(trial(glyph, i as int).drop_last().push(
                    (2u16, 4u16, twice@.take(i + 1)),
                ) == trial(glyph, i + 1));
            }
            i += 1;
        }
        let (row, col): (u16, u16) = read_cursor(&screen.parser);
        if row > 0 {
            Some(3)
        } else {
            Some(col / 2)
        }
    }

    /// Whether the terminal takes a byte.
    pub fn takes(&self, byte: u8) -> (yes: bool)
        requires
            self.wf(),
        ensures
            yes == takes_byte(SCROLLBACK_LINES as nat, self.history(), byte),
    {
        let (row, col): (u16, u16) = read_cursor(&self.parser);
        let (_, effect): (Reading, Effect) = escape::read_byte(self.reading, byte);
        match effect {
            Effect::Still => true,
            Effect::Tab => col < 65528,
            Effect::Draw(glyph) => self.is_roomy() || match Terminal::measure(glyph) {
                Some(columns) => self.can_draw(columns),
                None => false,
            },
            Effect::EraseForward => row < self.rows && self.can_erase(row, col, self.cols),
            Effect::EraseBackward => {
                let end: u16 = if col < self.cols {
                    col + 1
                } else {
                    self.cols
                };
                row < self.rows && self.can_erase(row, 0, end)
            },
            Effect::EraseRow => row < self.rows,
            Effect::EraseCells(n) => {
                let end: u16 = if (col as u32 + n as u32) < self.cols as u32 {
                    col + n
                } else {
                    self.cols
                };
                row < self.rows && self.can_erase(row, col, end)
            },
            Effect::DeleteCells(n) => row < self.rows && col <= self.cols && self.can_delete(
                row,
                col,
                n,
            ),
            Effect::InsertCells => row < self.rows && col <= self.cols,
            Effect::InsertLines => row < self.rows,
            Effect::DeleteLines => row <= self.rows,
        }
    }

    /// Replays output into the terminal, byte by byte, as long as it takes them. Returns how many
    /// it took.
    pub fn process(&mut self, bytes: &[u8]) -> (n: usize)
        requires
            old(self).wf(),
        ensures
            final(self).wf(),
            n == taken(old(self).history(), bytes@),
            n <= bytes@.len(),
            final(self).history() == fed(old(self).history(), bytes@.take(n as int)),
    {
        let ghost before = self.history();
        let mut n: usize = 0;
        proof {
            lemma_fed_nothing(before);
            assert(bytes@.take(0) == Seq::<u8>::empty());
            assert(bytes@.skip(0) == bytes@);
        }
        while n < bytes.len() && self.takes(bytes[n])
            invariant
                self.wf(),
                n <= bytes.len(),
                before.len() > 0,
                self.history() == fed(before, bytes@.take(n as int)),
                taken(before, bytes@) == n + taken(self.history(), bytes@.skip(n as int)),
            decreases bytes.len() - n,
        {
            let ghost rest = bytes@.skip(n as int);
            self.take(bytes[n]);
            proof {
                assert(rest.skip(1) == bytes@.skip(n + 1));
                law_output_may_come_in_chunks(before, bytes@.take(n as int), seq![bytes@[n as int]]);
                assert(bytes@.take(n as int) + seq![bytes@[n as int]] == bytes@.take(n + 1));
            }
            n += 1;
        }
        n
    }

    /// Gives the terminal a new size.
    pub fn set_size(&mut self, rows: u16, cols: u16)
        requires
            old(self).wf(),
            rows >= 1,
            cols >= 1,
        ensures
            final(self).wf(),
            final(self).history() == resized(old(self).history(), rows, cols),
    {
        proof {
            let before = self.history();
            assert(resized(before, rows, cols).drop_last() == before);
            assert(flat(resized(before, rows, cols)) == flat(before));
        }
        resize_parser(&mut self.parser, rows, cols);
        self.rows = rows;
        self.cols = cols;
    }

    /// Whether the current screen can be serialised.
    fn is_showable(&self) -> (yes: bool)
        requires
            self.wf(),
        ensures
            yes == showable(self.history()),
    {
        let (row, col): (u16, u16) = read_cursor(&self.parser);
        if col < self.cols {
            return true;
        }
        if row >= self.rows {
            return false;
        }
        if self.cols >= 2 {
            return true;
        }
        let mut r: u16 = 0;
        while r < row
            invariant
                self.wf(),
                (row, col) == screen_cursor(SCROLLBACK_LINES as nat, self.history()),
                col >= self.cols,
                self.cols < 2,
                r <= row,
                forall|k: int|
                    0 <= k < r ==> !#[trigger] continued_cell(
                        SCROLLBACK_LINES as nat,
                        self.history(),
                        k as u16,
                        0,
                    ),
            decreases row - r,
        {
            if is_continued(&self.parser, r, 0) {
                assert(continued_cell(SCROLLBACK_LINES as nat, self.history(), (r as int) as u16, 0));
                return false;
            }
            r += 1;
        }
        if is_continued(&self.parser, row, 0) {
            assert(continued_cell(SCROLLBACK_LINES as nat, self.history(), (row as int) as u16, 0));
            return false;
        }
        true
    }

    /// The escape sequences that reproduce the current screen, where it can be serialised.
    pub fn repaint(&self) -> (screen: Option<Vec<u8>>)
        requires
            self.wf(),
        ensures
            screen is Some <==> showable(self.history()),
            screen matches Some(bytes) ==> bytes@ == shown(self.history()),
    {
        if self.is_showable() {
            Some(format_screen(&self.parser))
        } else {
            None
        }
    }

    /// The visible screen as plain text.
    pub fn text(&self) -> (text: String)
        requires
            self.wf(),
        ensures
            text@ == shown_text(self.history()),
    {
        read_screen(&self.parser)
    }
}

/// The stream goes on with the byte that a history is fed.
proof fn lemma_reading_on(history: Seq<(u16, u16, Seq<u8>)>, byte: u8)
    requires
        history.len() > 0,
    ensures
        escape::reading(flat(fed(history, seq![byte]))) == escape::step(
            escape::reading(flat(history)),
            byte,
        ).0,
{
    let after = fed(history, seq![byte]);
    assert(after.drop_last() == history.drop_last());
    assert(flat(after) == flat(history).push(byte));
    assert(flat(history).push(byte).drop_last() == flat(history));
}

/// A terminal that is fed nothing stays as it is.
pub proof fn lemma_fed_nothing(history: Seq<(u16, u16, Seq<u8>)>)
    requires
        history.len() > 0,
    ensures
        fed(history, Seq::empty()) == history,
{
    let seen = history.last().2;
    assert(seen + Seq::<u8>::empty() == seen);
    assert(history.drop_last().push(history.last()) == history);
}

/// It makes no difference how output is cut into chunks on its way into the terminal.
pub proof fn law_output_may_come_in_chunks(
    history: Seq<(u16, u16, Seq<u8>)>,
    a: Seq<u8>,
    b: Seq<u8>,
)
    requires
        history.len() > 0,
    ensures
        fed(fed(history, a), b) == fed(history, a + b),
{
    let seen = history.last().2;
    assert((seen + a) + b == seen + (a + b));
    assert(fed(history, a).drop_last() == history.drop_last());
}

/// Nor does it make a difference to what is taken: the terminal takes a chunk and then another
/// exactly where it takes both at once.
pub proof fn law_chunks_are_taken_alike(
    history: Seq<(u16, u16, Seq<u8>)>,
    a: Seq<u8>,
    b: Seq<u8>,
)
    requires
        history.len() > 0,
    ensures
        takes_all(history, a + b) <==> takes_all(history, a) && takes_all(fed(history, a), b),
    decreases a.len(),
{
    lemma_taken_bound(history, a + b);
    lemma_taken_bound(history, a);
    if a.len() == 0 {
        lemma_fed_nothing(history);
        assert(a == Seq::<u8>::empty());
        assert(a + b == b);
    } else {
        let next = fed(history, seq![a[0]]);
        assert((a + b)[0] == a[0]);
        assert((a + b).skip(1) == a.skip(1) + b);
        if takes_byte(SCROLLBACK_LINES as nat, history, a[0]) {
            law_chunks_are_taken_alike(next, a.skip(1), b);
            law_output_may_come_in_chunks(history, seq![a[0]], a.skip(1));
            assert(seq![a[0]] + a.skip(1) == a);
        }
    }
}

/// Wherever the cursor is, output can bring it back: a carriage return, a line feed and `ESC [ H`
/// are taken, unless they come in the midst of a character.
pub proof fn law_the_cursor_can_be_brought_back(history: Seq<(u16, u16, Seq<u8>)>)
    requires
        history.len() > 0,
        !(escape::reading(flat(history)) is Char),
    ensures
        takes_all(history, seq![0x0du8]),
        takes_all(history, seq![0x0au8]),
        takes_all(history, seq![0x1bu8, 0x5bu8, 0x48u8]),
{
    reveal_with_fuel(taken, 4);
    let home = seq![0x1bu8, 0x5bu8, 0x48u8];
    let escaped = fed(history, seq![0x1bu8]);
    let opened = fed(escaped, seq![0x5bu8]);
    lemma_reading_on(history, 0x1b);
    lemma_reading_on(escaped, 0x5b);
    assert(home.skip(1)[0] == 0x5b);
    assert(home.skip(1).skip(1)[0] == 0x48);
    assert(home.skip(1).skip(1).skip(1).len() == 0);
    assert(seq![0x0du8].skip(1).len() == 0);
    assert(seq![0x0au8].skip(1).len() == 0);
    assert(takes_byte(SCROLLBACK_LINES as nat, opened, 0x48));
}

/// No more bytes are taken than there are.
pub proof fn lemma_taken_bound(history: Seq<(u16, u16, Seq<u8>)>, bytes: Seq<u8>)
    ensures
        taken(history, bytes) <= bytes.len(),
    decreases bytes.len(),
{
    if bytes.len() > 0 {
        lemma_taken_bound(fed(history, seq![bytes[0]]), bytes.skip(1));
    }
}

/// In a window of at least two rows and three columns, and fewer than 65528, with the cursor on the
/// screen and every wide character whole, every byte is taken, whatever sequence it belongs to.
pub proof fn law_an_ordinary_window_takes_every_byte(
    history: Seq<(u16, u16, Seq<u8>)>,
    byte: u8,
)
    requires
        history.len() > 0,
        2 <= history.last().0,
        3 <= history.last().1 < 65528,
        screen_cursor(SCROLLBACK_LINES as nat, history).0 < history.last().0,
        screen_cursor(SCROLLBACK_LINES as nat, history).1 <= history.last().1,
        forall|r: u16, c: u16|
            r < history.last().0 && c < history.last().1 && #[trigger] wide_cell(
                SCROLLBACK_LINES as nat,
                history,
                r,
                c,
            ) ==> c + 1 < history.last().1 && continued_cell(
                SCROLLBACK_LINES as nat,
                history,
                r,
                (c + 1) as u16,
            ) && !wide_cell(SCROLLBACK_LINES as nat, history, r, (c + 1) as u16),
        forall|r: u16, c: u16|
            r < history.last().0 && c < history.last().1 && #[trigger] continued_cell(
                SCROLLBACK_LINES as nat,
                history,
                r,
                c,
            ) ==> c > 0 && wide_cell(SCROLLBACK_LINES as nat, history, r, (c - 1) as u16),
    ensures
        takes_byte(SCROLLBACK_LINES as nat, history, byte),
        takes_all(history, seq![byte]),
{
    let lines = SCROLLBACK_LINES as nat;
    let (rows, cols, _) = history.last();
    let (row, col) = screen_cursor(lines, history);
    if effect(history, byte) is Draw {
        assert(!continued_cell(lines, history, row, 0));
        assert(!wide_cell(lines, history, row, (cols - 1) as u16));
        if row + 1 < rows {
            assert(!continued_cell(lines, history, (row + 1) as u16, 0));
            assert(!wide_cell(lines, history, (row + 1) as u16, (cols - 1) as u16));
        }
    } else {
        law_a_whole_row_can_be_edited(history, byte);
    }
    assert(seq![byte].skip(1).len() == 0);
    reveal_with_fuel(taken, 2);
}

/// In a window of any size, as long as the cursor is on the screen and every wide character of its
/// row is whole, all that is no character is taken: lines and cells are inserted, deleted and
/// erased, and the cursor moves.
pub proof fn law_a_whole_row_can_be_edited(history: Seq<(u16, u16, Seq<u8>)>, byte: u8)
    requires
        history.len() > 0,
        1 <= history.last().1 < 65528,
        screen_cursor(SCROLLBACK_LINES as nat, history).0 < history.last().0,
        screen_cursor(SCROLLBACK_LINES as nat, history).1 <= history.last().1,
        !(effect(history, byte) is Draw),
        forall|c: u16|
            c < history.last().1 && #[trigger] wide_cell(
                SCROLLBACK_LINES as nat,
                history,
                screen_cursor(SCROLLBACK_LINES as nat, history).0,
                c,
            ) ==> c + 1 < history.last().1 && continued_cell(
                SCROLLBACK_LINES as nat,
                history,
                screen_cursor(SCROLLBACK_LINES as nat, history).0,
                (c + 1) as u16,
            ) && !wide_cell(
                SCROLLBACK_LINES as nat,
                history,
                screen_cursor(SCROLLBACK_LINES as nat, history).0,
                (c + 1) as u16,
            ),
        forall|c: u16|
            c < history.last().1 && #[trigger] continued_cell(
                SCROLLBACK_LINES as nat,
                history,
                screen_cursor(SCROLLBACK_LINES as nat, history).0,
                c,
            ) ==> c > 0 && wide_cell(
                SCROLLBACK_LINES as nat,
                history,
                screen_cursor(SCROLLBACK_LINES as nat, history).0,
                (c - 1) as u16,
            ),
    ensures
        takes_byte(SCROLLBACK_LINES as nat, history, byte),
{
    let lines = SCROLLBACK_LINES as nat;
    let (rows, cols, _) = history.last();
    let (row, col) = screen_cursor(lines, history);
    assert(!continued_cell(lines, history, row, 0));
    assert(!wide_cell(lines, history, row, (cols - 1) as u16));
    if let Effect::DeleteCells(n) = effect(history, byte) {
        assert forall|c: int| col <= c < col + n && c < cols implies #[trigger] deletable(
            lines,
            history,
            row as int,
            col as int,
            c,
        ) by {
            if col == 0 && c > 0 && continued_cell(lines, history, row, c as u16) {
                let at: u16 = c as u16;
                assert(wide_cell(lines, history, row, (at - 1) as u16));
                if c > 1 && wide_cell(lines, history, row, (at - 2) as u16) {
                    let before: u16 = (at - 2) as u16;
                    assert(!wide_cell(lines, history, row, (before + 1) as u16));
                }
                reveal_with_fuel(still_wide, 2);
                assert(still_wide(lines, history, row as int, 0, c - 1));
            }
        }
    }
}

/// A character that has its columns left in the row is drawn, also in a window of one row or one
/// column; and where there is a next row, one that does not wraps.
pub proof fn law_a_character_with_room_is_taken(
    history: Seq<(u16, u16, Seq<u8>)>,
    byte: u8,
    glyph: Glyph,
    row: u16,
    col: u16,
)
    requires
        effect(history, byte) == Effect::Draw(glyph),
        measurable(SCROLLBACK_LINES as nat, glyph),
        1 <= columns(SCROLLBACK_LINES as nat, glyph) <= history.last().1,
        screen_cursor(SCROLLBACK_LINES as nat, history) == (row, col),
        row < history.last().0,
        col + columns(SCROLLBACK_LINES as nat, glyph) <= history.last().1 || history.last().0 >= 2,
        forall|r: u16|
            !#[trigger] wide_cell(
                SCROLLBACK_LINES as nat,
                history,
                r,
                (history.last().1 - 1) as u16,
            ),
        forall|r: u16| !#[trigger] continued_cell(SCROLLBACK_LINES as nat, history, r, 0),
    ensures
        takes_byte(SCROLLBACK_LINES as nat, history, byte),
{
    let lines = SCROLLBACK_LINES as nat;
    let cols = history.last().1;
    let w = columns(lines, glyph);
    let next = if row + 1 < history.last().0 {
        (row + 1) as u16
    } else {
        row
    };
    assert(!continued_cell(lines, history, next, 0));
    assert(!continued_cell(lines, history, row, 0));
    assert(!wide_cell(lines, history, next, (cols - 1) as u16));
    assert(!wide_cell(lines, history, row, (cols - 1) as u16));
}

/// Behind anything but half a character, a control sequence that touches no cell by where the
/// cursor is comes through wherever the cursor is; and those that edit the lines and the row come
/// through where it is on the screen when the sequence ends: `L`, `M` and `2 K`.
pub proof fn law_sequences_come_through(history: Seq<(u16, u16, Seq<u8>)>, last: u8)
    requires
        history.len() > 0,
        !(escape::reading(flat(history)) is Char),
        0x40 <= last <= 0x7e,
    ensures
        ({
            let open = fed(fed(history, seq![0x1bu8]), seq![0x5bu8]);
            let two = fed(open, seq![0x32u8]);
            let on = |h: Seq<(u16, u16, Seq<u8>)>|
                screen_cursor(SCROLLBACK_LINES as nat, h).0 < h.last().0;
            &&& last != 0x40 && last != 0x4a && last != 0x4b && last != 0x4c && last != 0x4d
                && last != 0x50 && last != 0x58 ==> takes_all(
                history,
                seq![0x1bu8, 0x5bu8, last],
            )
            &&& on(open) ==> takes_all(history, seq![0x1bu8, 0x5bu8, 0x4cu8])
            &&& on(open) ==> takes_all(history, seq![0x1bu8, 0x5bu8, 0x4du8])
            &&& on(two) ==> takes_all(history, seq![0x1bu8, 0x5bu8, 0x32u8, 0x4bu8])
            &&& takes_all(history, seq![0x1bu8, 0x5bu8, 0x32u8, 0x4au8])
        }),
{
    let lines = SCROLLBACK_LINES as nat;
    let escaped = fed(history, seq![0x1bu8]);
    let open = fed(escaped, seq![0x5bu8]);
    let two = fed(open, seq![0x32u8]);
    lemma_reading_on(history, 0x1b);
    lemma_reading_on(escaped, 0x5b);
    lemma_reading_on(open, 0x32);
    assert(takes_byte(lines, history, 0x1b));
    assert(takes_byte(lines, escaped, 0x5b));
    assert(takes_byte(lines, open, 0x32));
    lemma_taken_step(history, seq![0x1bu8, 0x5bu8, last]);
    lemma_taken_step(escaped, seq![0x5bu8, last]);
    lemma_taken_step(open, seq![last]);
    lemma_taken_step(history, seq![0x1bu8, 0x5bu8, 0x4cu8]);
    lemma_taken_step(escaped, seq![0x5bu8, 0x4cu8]);
    lemma_taken_step(open, seq![0x4cu8]);
    lemma_taken_step(history, seq![0x1bu8, 0x5bu8, 0x4du8]);
    lemma_taken_step(escaped, seq![0x5bu8, 0x4du8]);
    lemma_taken_step(open, seq![0x4du8]);
    lemma_taken_step(history, seq![0x1bu8, 0x5bu8, 0x32u8, 0x4bu8]);
    lemma_taken_step(escaped, seq![0x5bu8, 0x32u8, 0x4bu8]);
    lemma_taken_step(open, seq![0x32u8, 0x4bu8]);
    lemma_taken_step(two, seq![0x4bu8]);
    lemma_taken_step(history, seq![0x1bu8, 0x5bu8, 0x32u8, 0x4au8]);
    lemma_taken_step(escaped, seq![0x5bu8, 0x32u8, 0x4au8]);
    lemma_taken_step(open, seq![0x32u8, 0x4au8]);
    lemma_taken_step(two, seq![0x4au8]);
    assert(seq![0x1bu8, 0x5bu8, last].skip(1) == seq![0x5bu8, last]);
    assert(seq![0x5bu8, last].skip(1) == seq![last]);
    assert(seq![0x1bu8, 0x5bu8, 0x4cu8].skip(1) == seq![0x5bu8, 0x4cu8]);
    assert(seq![0x5bu8, 0x4cu8].skip(1) == seq![0x4cu8]);
    assert(seq![0x1bu8, 0x5bu8, 0x4du8].skip(1) == seq![0x5bu8, 0x4du8]);
    assert(seq![0x5bu8, 0x4du8].skip(1) == seq![0x4du8]);
    assert(seq![0x1bu8, 0x5bu8, 0x32u8, 0x4bu8].skip(1) == seq![0x5bu8, 0x32u8, 0x4bu8]);
    assert(seq![0x5bu8, 0x32u8, 0x4bu8].skip(1) == seq![0x32u8, 0x4bu8]);
    assert(seq![0x32u8, 0x4bu8].skip(1) == seq![0x4bu8]);
    assert(seq![0x1bu8, 0x5bu8, 0x32u8, 0x4au8].skip(1) == seq![0x5bu8, 0x32u8, 0x4au8]);
    assert(seq![0x5bu8, 0x32u8, 0x4au8].skip(1) == seq![0x32u8, 0x4au8]);
    assert(seq![0x32u8, 0x4au8].skip(1) == seq![0x4au8]);
}

/// The first byte is taken, and then the rest.
proof fn lemma_taken_step(history: Seq<(u16, u16, Seq<u8>)>, bytes: Seq<u8>)
    requires
        bytes.len() > 0,
    ensures
        takes_byte(SCROLLBACK_LINES as nat, history, bytes[0]) ==> taken(history, bytes) == 1
            + taken(fed(history, seq![bytes[0]]), bytes.skip(1)),
        bytes.len() == 1 && takes_byte(SCROLLBACK_LINES as nat, history, bytes[0]) ==> takes_all(
            history,
            bytes,
        ),
{
    if bytes.len() == 1 {
        assert(bytes.skip(1).len() == 0);
        reveal_with_fuel(taken, 2);
    }
}

/// Taking is byte by byte: all of a stream is taken exactly where its first byte is, and then the
/// rest behind it; and nothing is always taken.
pub proof fn law_a_stream_is_taken_byte_by_byte(
    history: Seq<(u16, u16, Seq<u8>)>,
    byte: u8,
    rest: Seq<u8>,
)
    ensures
        takes_all(history, Seq::empty()),
        takes_all(history, seq![byte] + rest) <==> takes_byte(
            SCROLLBACK_LINES as nat,
            history,
            byte,
        ) && takes_all(fed(history, seq![byte]), rest),
{
    let s = seq![byte] + rest;
    assert(s[0] == byte);
    assert(s.skip(1) == rest);
}

/// A cursor inside the row is put back by moving there, so that the screen can always be
/// serialised.
pub proof fn law_an_ordinary_screen_can_be_shown(history: Seq<(u16, u16, Seq<u8>)>)
    requires
        screen_cursor(SCROLLBACK_LINES as nat, history).1 < history.last().1 || (screen_cursor(
            SCROLLBACK_LINES as nat,
            history,
        ).0 < history.last().0 && history.last().1 >= 2),
    ensures
        showable(history),
{
}

/// Nothing is taken that the emulator has no cells for: below the screen only what moves the cursor
/// is, beyond the edge of the row nothing is inserted or deleted, and where cells are erased or
/// deleted up to an edge, no half of a wide character is left over there.
pub proof fn law_what_is_taken_finds_its_cells(
    history: Seq<(u16, u16, Seq<u8>)>,
    byte: u8,
    row: u16,
    col: u16,
)
    requires
        takes_byte(SCROLLBACK_LINES as nat, history, byte),
        screen_cursor(SCROLLBACK_LINES as nat, history) == (row, col),
        history.last().1 >= 1,
        history.last().0 >= 1,
    ensures
        ({
            let (rows, cols, _) = history.last();
            let effect = effect(history, byte);
            let half = |c: int|
                continued_cell(SCROLLBACK_LINES as nat, history, row, c as u16);
            let whole = |c: int| wide_cell(SCROLLBACK_LINES as nat, history, row, c as u16);
            let to_the_edge = whole(cols - 1) ==> col < cols - 1 && whole(cols - 2);
            &&& row > rows ==> effect is Still || effect is Tab
            &&& row == rows ==> effect is Still || effect is Tab || effect is DeleteLines
                || effect is Draw
            &&& effect is Tab ==> col < 65528
            &&& effect is EraseBackward ==> !half(0)
            &&& effect is EraseForward && col == 0 ==> !half(0)
            &&& effect is EraseForward && col < cols ==> to_the_edge
            &&& effect is EraseBackward && col + 1 >= cols && cols >= 2 ==> (whole(cols - 1)
                ==> whole(cols - 2))
            &&& effect is InsertCells || effect is DeleteCells ==> col <= cols
            &&& (effect matches Effect::EraseCells(n) && n > 0 && col == 0 ==> !half(0))
            &&& (effect matches Effect::EraseCells(n) && col < cols && col + n >= cols
                ==> to_the_edge)
            &&& (effect matches Effect::DeleteCells(n) && col < cols && col + n >= cols
                ==> to_the_edge)
            &&& (effect matches Effect::DeleteCells(n) ==> col == 0 ==> forall|c: int|
                0 <= c < n && c < cols && #[trigger] half(c) ==> c > 0 && whole(c - 1))
        }),
{
    let lines = SCROLLBACK_LINES as nat;
    let (rows, cols, _) = history.last();
    if cols >= 2 {
        reveal_with_fuel(still_wide, 3);
    }
    if let Effect::DeleteCells(n) = effect(history, byte) {
        if col < cols && col + n >= cols {
            assert(deletable(lines, history, row as int, col as int, cols - 1));
        }
        if col == 0 {
            assert forall|c: int|
                0 <= c < n && c < cols && #[trigger] continued_cell(
                    lines,
                    history,
                    row,
                    c as u16,
                ) implies c > 0 && wide_cell(lines, history, row, (c - 1) as u16) by {
                assert(deletable(lines, history, row as int, 0, c));
            }
        }
    }
}

/// A character is drawn only where it has its place: one that is wider than the window is not, nor
/// one that would have to wrap in a window of one row; below the screen none is that has columns;
/// and one of which it cannot be told how wide it is only in a window that has room for every one.
pub proof fn law_a_character_is_drawn_in_its_place(
    history: Seq<(u16, u16, Seq<u8>)>,
    byte: u8,
    glyph: Glyph,
    row: u16,
    col: u16,
)
    requires
        takes_byte(SCROLLBACK_LINES as nat, history, byte),
        effect(history, byte) == Effect::Draw(glyph),
        screen_cursor(SCROLLBACK_LINES as nat, history) == (row, col),
        history.last().0 >= 1,
        history.last().1 >= 1,
    ensures
        ({
            let (rows, cols, _) = history.last();
            let width = columns(SCROLLBACK_LINES as nat, glyph);
            let known = measurable(SCROLLBACK_LINES as nat, glyph);
            let half = |r: int, c: int|
                continued_cell(SCROLLBACK_LINES as nat, history, r as u16, c as u16);
            let whole = |r: int, c: int|
                wide_cell(SCROLLBACK_LINES as nat, history, r as u16, c as u16);
            let narrow = rows < 2 || cols < 3;
            &&& narrow ==> known && width <= cols
            &&& rows < 2 ==> col + width <= cols
            &&& width > 0 || !known ==> row < rows
            &&& row <= rows
            &&& !known ==> !half(row as int, 0) && !whole(row as int, cols - 1)
            &&& !known && row + 1 < rows ==> !half(row + 1, 0) && !whole(row + 1, cols - 1)
            &&& width > 0 && col == 0 && width <= cols ==> !half(row as int, 0)
            &&& width > 0 && col + width <= cols && col == cols - 1 ==> !whole(row as int, cols - 1)
            &&& width == 2 && col + 2 == cols && whole(row as int, cols - 1) ==> whole(
                row as int,
                cols - 2,
            )
            &&& width > 0 && col + width > cols && row + 1 < rows ==> !half(row + 1, 0)
            &&& width > 0 && col + width > cols && row + 1 == rows ==> !half(row as int, 0)
            &&& width == 0 && col == 1 && cols >= 1 ==> !half(row as int, 0)
        }),
{
}

/// How wide a character is: that much further is the cursor, twice, behind the character twice at
/// the start of a wide row.
pub proof fn law_columns_are_what_the_cursor_moves(glyph: Glyph, col: u16)
    requires
        screen_cursor(
            SCROLLBACK_LINES as nat,
            seq![(2u16, 4u16, glyph.bytes() + glyph.bytes())],
        ) == (0u16, col),
    ensures
        columns(SCROLLBACK_LINES as nat, glyph) * 2 <= col < columns(
            SCROLLBACK_LINES as nat,
            glyph,
        ) * 2 + 2,
{
    let twice = glyph.bytes() + glyph.bytes();
    assert(twice.take(twice.len() as int) == twice);
}

/// A character that takes more than a row of four columns when it comes twice counts as too wide for
/// any narrow window.
pub proof fn law_too_wide_to_measure(glyph: Glyph, row: u16, col: u16)
    requires
        screen_cursor(
            SCROLLBACK_LINES as nat,
            seq![(2u16, 4u16, glyph.bytes() + glyph.bytes())],
        ) == (row, col),
        row > 0,
    ensures
        columns(SCROLLBACK_LINES as nat, glyph) == 3,
{
    let twice = glyph.bytes() + glyph.bytes();
    assert(twice.take(twice.len() as int) == twice);
}

/// Measuring a character goes wrong nowhere: every byte of it is drawn in a window of two rows and
/// four columns with the cursor on the screen and no half of a character at the edges of its row,
/// or touches no cell at all.
pub proof fn law_measuring_is_safe(glyph: Glyph, i: int, row: u16, col: u16)
    requires
        measurable(SCROLLBACK_LINES as nat, glyph),
        0 <= i < (glyph.bytes() + glyph.bytes()).len(),
        screen_cursor(
            SCROLLBACK_LINES as nat,
            seq![(2u16, 4u16, (glyph.bytes() + glyph.bytes()).take(i))],
        ) == (row, col),
    ensures
        ({
            let twice = glyph.bytes() + glyph.bytes();
            let window = seq![(2u16, 4u16, twice.take(i))];
            let does = effect(window, twice[i]);
            does is Still || (does is Draw && row < 2 && !continued_cell(
                SCROLLBACK_LINES as nat,
                window,
                row,
                0,
            ) && !wide_cell(SCROLLBACK_LINES as nat, window, row, 3))
        }),
{
    let twice = glyph.bytes() + glyph.bytes();
    assert(easy(SCROLLBACK_LINES as nat, trial(glyph, i), twice[i]));
}

/// A screen is not shown where the cursor cannot be brought back: with it beyond the edge of the row
/// and below the screen, or beyond the edge of a single column that holds a half of a character in
/// its row or above.
pub proof fn law_some_screens_cannot_be_shown(
    history: Seq<(u16, u16, Seq<u8>)>,
    row: u16,
    col: u16,
    r: u16,
)
    requires
        screen_cursor(SCROLLBACK_LINES as nat, history) == (row, col),
        col >= history.last().1,
        row >= history.last().0 || (history.last().1 < 2 && r <= row && continued_cell(
            SCROLLBACK_LINES as nat,
            history,
            r,
            0,
        )),
    ensures
        !showable(history),
{
    if row < history.last().0 {
        assert(continued_cell(SCROLLBACK_LINES as nat, history, (r as int) as u16, 0));
    }
}

/// What is shown is what the emulator makes of the whole history, with ten thousand lines of
/// scrollback.
pub proof fn law_the_screen_is_that_of_the_emulator(history: Seq<(u16, u16, Seq<u8>)>)
    ensures
        shown(history) == formatted_screen(10_000, history),
        shown_text(history) == plain_screen(10_000, history),
        SCROLLBACK_LINES == 10_000,
{
}

/// Where in a stream a terminal is depends on the bytes alone, whatever the sizes were in between.
pub proof fn law_sizes_do_not_cut_sequences(
    history: Seq<(u16, u16, Seq<u8>)>,
    bytes: Seq<u8>,
    rows: u16,
    cols: u16,
)
    requires
        history.len() > 0,
    ensures
        flat(fed(history, bytes)) == flat(history) + bytes,
        flat(resized(history, rows, cols)) == flat(history),
        fed(history, bytes).last().0 == history.last().0,
        fed(history, bytes).last().1 == history.last().1,
        resized(history, rows, cols).last() == (rows, cols, Seq::<u8>::empty()),
        resized(history, rows, cols).drop_last() == history,
{
    let after = fed(history, bytes);
    assert(after.drop_last() == history.drop_last());
    assert(flat(history.drop_last()) + (history.last().2 + bytes) == flat(history) + bytes);
    let other = resized(history, rows, cols);
    assert(other.drop_last() == history);
    assert(flat(history) + Seq::<u8>::empty() == flat(history));
}

/// What stands before a byte that is refused is taken, and nothing behind it.
pub proof fn lemma_taken_up_to(
    history: Seq<(u16, u16, Seq<u8>)>,
    front: Seq<u8>,
    byte: u8,
    back: Seq<u8>,
)
    requires
        history.len() > 0,
        takes_all(history, front),
        !takes_byte(SCROLLBACK_LINES as nat, fed(history, front), byte),
    ensures
        taken(history, front + seq![byte] + back) == front.len(),
    decreases front.len(),
{
    let bytes = front + seq![byte] + back;
    if front.len() == 0 {
        lemma_fed_nothing(history);
        assert(front == Seq::<u8>::empty());
        assert(bytes[0] == byte);
    } else {
        let next = fed(history, seq![front[0]]);
        let rest = front.skip(1);
        assert(bytes[0] == front[0]);
        assert(bytes.skip(1) == rest + seq![byte] + back);
        assert(seq![front[0]] + rest == front);
        assert(next.drop_last() == history.drop_last());
        assert(history.last().2 + seq![front[0]] + rest == history.last().2 + front);
        assert(fed(next, rest) == fed(history, front));
        lemma_taken_up_to(next, rest, byte, back);
    }
}

/// What depends on the row alone is taken wherever in the row the cursor is, also beyond its edge:
/// erasing the row and inserting lines on the screen, and deleting lines also right below it. What
/// would start beyond the edge erases nothing and is taken as well.
pub proof fn law_beyond_the_edge(
    history: Seq<(u16, u16, Seq<u8>)>,
    byte: u8,
    row: u16,
    col: u16,
)
    requires
        screen_cursor(SCROLLBACK_LINES as nat, history) == (row, col),
    ensures
        ({
            let (rows, cols, _) = history.last();
            let does = effect(history, byte);
            let taken = takes_byte(SCROLLBACK_LINES as nat, history, byte);
            &&& does is Still ==> taken
            &&& does is Tab && col < 65528 ==> taken
            &&& does is EraseRow && row < rows ==> taken
            &&& does is InsertLines && row < rows ==> taken
            &&& does is DeleteLines && row <= rows ==> taken
            &&& does is EraseForward && row < rows && col >= cols ==> taken
            &&& does is EraseCells && row < rows && col >= cols ==> taken
            &&& does is InsertCells && row < rows && col <= cols ==> taken
            &&& does is DeleteCells && row < rows && col == cols ==> taken
        }),
{
}

/// What does not reach the edges of a row is taken, whatever stands at them.
pub proof fn law_the_middle_of_a_row(
    history: Seq<(u16, u16, Seq<u8>)>,
    byte: u8,
    row: u16,
    col: u16,
)
    requires
        screen_cursor(SCROLLBACK_LINES as nat, history) == (row, col),
        row < history.last().0,
    ensures
        ({
            let (rows, cols, _) = history.last();
            let does = effect(history, byte);
            let taken = takes_byte(SCROLLBACK_LINES as nat, history, byte);
            let half = continued_cell(SCROLLBACK_LINES as nat, history, row, 0);
            &&& does is EraseBackward && !half && col + 1 < cols ==> taken
            &&& (does matches Effect::EraseCells(n) ==> col > 0 && col + n < cols ==> taken)
            &&& (does matches Effect::EraseCells(n) ==> !half && col + n < cols ==> taken)
            &&& (does matches Effect::DeleteCells(n) ==> col > 0 && col + n < cols ==> taken)
        }),
{
}

/// A character is drawn wherever its cells can be cleared: where it has its columns left, the halves
/// that it meets have their other half in the row, whatever stands elsewhere.
pub proof fn law_a_character_finds_its_cells(
    history: Seq<(u16, u16, Seq<u8>)>,
    byte: u8,
    glyph: Glyph,
    row: u16,
    col: u16,
)
    requires
        effect(history, byte) == Effect::Draw(glyph),
        measurable(SCROLLBACK_LINES as nat, glyph),
        screen_cursor(SCROLLBACK_LINES as nat, history) == (row, col),
    ensures
        ({
            let (rows, cols, _) = history.last();
            let width = columns(SCROLLBACK_LINES as nat, glyph);
            let half = |r: int, c: int|
                continued_cell(SCROLLBACK_LINES as nat, history, r as u16, c as u16);
            let whole = |r: int, c: int|
                wide_cell(SCROLLBACK_LINES as nat, history, r as u16, c as u16);
            let taken = takes_byte(SCROLLBACK_LINES as nat, history, byte);
            let next = if row + 1 < rows {
                row + 1
            } else {
                row as int
            };
            &&& width == 1 && row < rows && 0 < col && col + 1 < cols ==> taken
            &&& width == 1 && row < rows && 0 < col && col + 1 == cols && !whole(
                row as int,
                col as int,
            ) ==> taken
            &&& width == 1 && row < rows && col == 0 && col + 1 < cols && !half(row as int, 0)
                ==> taken
            &&& width == 2 && row < rows && 0 < col && col + 2 < cols ==> taken
            &&& width == 2 && row < rows && 0 < col && col + 2 == cols && !whole(
                row as int,
                cols - 1,
            ) ==> taken
            &&& width == 2 && row < rows && 0 < col && col + 2 == cols && whole(
                row as int,
                col as int,
            ) ==> taken
            &&& 1 <= width <= 2 && row < rows && rows >= 2 && cols >= 3 && col + width > cols
                && !half(next, 0) ==> taken
            &&& width == 0 && row < rows && 1 < col <= cols ==> taken
            &&& width == 0 && row < rows && col == 1 && 1 <= cols && !half(row as int, 0) ==> taken
            &&& width == 0 && row == 0 && col == 0 && rows >= 1 ==> taken
            &&& width == 0 && row <= rows && col == 0 && cols >= 2 ==> taken
        }),
{
}

/// A terminal takes output to its end where every byte is taken, and has then seen all of it.
pub proof fn law_a_terminal_takes_its_output(terminal: &mut Terminal, bytes: &[u8], n: usize)
    requires
        old(terminal).wf(),
        takes_all(old(terminal).history(), bytes@),
        call_ensures(Terminal::process, (terminal, bytes), n),
    ensures
        n == bytes@.len(),
        final(terminal).history().last().2 == old(terminal).history().last().2 + bytes@,
        final(terminal).history().drop_last() == old(terminal).history().drop_last(),
        final(terminal).wf(),
{
    assert(bytes@.take(n as int) == bytes@);
    let after = fed(old(terminal).history(), bytes@);
    assert(after.drop_last() == old(terminal).history().drop_last());
}

/// A terminal that is given a size has it, from then on, and has seen what it had seen.
pub proof fn law_a_terminal_takes_its_size(terminal: &mut Terminal, rows: u16, cols: u16)
    requires
        rows >= 1,
        cols >= 1,
        call_ensures(Terminal::set_size, (terminal, rows, cols), ()),
    ensures
        final(terminal).history() == old(terminal).history().push((rows, cols, Seq::<u8>::empty())),
        flat(final(terminal).history()) == flat(old(terminal).history()),
{
    let before = old(terminal).history();
    let after = before.push((rows, cols, Seq::<u8>::empty()));
    assert(after.drop_last() == before);
    assert(flat(before) + Seq::<u8>::empty() == flat(before));
}

/// What a terminal says of itself is what there is to say.
pub proof fn law_a_terminal_says_what_it_does(
    terminal: &Terminal,
    byte: u8,
    yes: bool,
    screen: Option<Vec<u8>>,
    text: String,
    rows: u16,
    cols: u16,
    fresh: Terminal,
)
    requires
        rows >= 1,
        cols >= 1,
        call_ensures(Terminal::takes, (terminal, byte), yes),
        call_ensures(Terminal::repaint, (terminal,), screen),
        call_ensures(Terminal::text, (terminal,), text),
        call_ensures(Terminal::new, (rows, cols), fresh),
    ensures
        yes == takes_byte(10_000, terminal.history(), byte),
        screen is Some <==> paintable(10_000, terminal.history()),
        screen matches Some(bytes) ==> bytes@ == formatted_screen(10_000, terminal.history()),
        text@ == plain_screen(10_000, terminal.history()),
        fresh.history() == seq![(rows, cols, Seq::<u8>::empty())],
{
}

} // verus!
