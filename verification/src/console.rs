//! Console setup for the attaching client.
//!
//! A client is a plain console application: it reads keystrokes from stdin, forwards them to the
//! session server, and writes whatever comes back to stdout. For that to work the console has to
//! stop helping.
//!
//! On input, line buffering, echo, and Ctrl-C handling go, so that keys reach the remote shell as
//! raw bytes, and VT input comes, so that arrow keys and friends arrive as escape sequences.
//!
//! On output, VT processing comes, so that the escape sequences of the remote pty are interpreted
//! rather than printed literally.

use vstd::prelude::*;

verus! {

/// The console handles Ctrl-C itself.
pub const ENABLE_PROCESSED_INPUT: u32 = 0x0001;

/// The console buffers input until the line is complete.
pub const ENABLE_LINE_INPUT: u32 = 0x0002;

/// The console echoes what is typed.
pub const ENABLE_ECHO_INPUT: u32 = 0x0004;

/// Keys arrive as VT sequences.
pub const ENABLE_VIRTUAL_TERMINAL_INPUT: u32 = 0x0200;

/// The console acts on control characters in the output.
pub const ENABLE_PROCESSED_OUTPUT: u32 = 0x0001;

/// The console acts on VT sequences in the output.
pub const ENABLE_VIRTUAL_TERMINAL_PROCESSING: u32 = 0x0004;

/// A line feed moves down only, and the right margin adds no carriage return.
pub const DISABLE_NEWLINE_AUTO_RETURN: u32 = 0x0008;

/// Terminal dimensions in character cells.
#[derive(Debug, Clone, Copy, PartialEq, Eq, Structural)]
pub struct Size {
    pub cols: u16,
    pub rows: u16,
}

/// A dimension that is at least one cell.
pub open spec fn at_least_one(n: u16) -> u16 {
    if n == 0 {
        1
    } else {
        n
    }
}

impl Size {
    /// The size without degenerate dimensions.
    pub open spec fn clamped(self) -> Size {
        Size { cols: at_least_one(self.cols), rows: at_least_one(self.rows) }
    }

    /// Clamps degenerate sizes. A zero dimension makes the pty unhappy, and a minimized or hidden
    /// window can legitimately report one.
    pub fn sanitized(self) -> (size: Size)
        ensures
            size == self.clamped(),
    {
        Size {
            cols: if self.cols == 0 {
                1
            } else {
                self.cols
            },
            rows: if self.rows == 0 {
                1
            } else {
                self.rows
            },
        }
    }
}

impl Default for Size {
    fn default() -> (size: Size)
        ensures
            size == (Size { cols: 80, rows: 24 }),
    {
        Size { cols: 80, rows: 24 }
    }
}

/// The edges of a console window, in cells of its buffer.
#[derive(Debug, Clone, Copy, PartialEq, Eq, Structural)]
pub struct Window {
    pub left: i16,
    pub top: i16,
    pub right: i16,
    pub bottom: i16,
}

/// How many cells lie from edge to edge, both of them counted.
pub open spec fn cells(first: i16, last: i16) -> int {
    last - first + 1
}

/// The same, but at least one.
pub open spec fn extent(first: i16, last: i16) -> int {
    if cells(first, last) < 1 {
        1
    } else {
        cells(first, last)
    }
}

impl Window {
    /// Whether the distances between the edges can be computed in 16 bits.
    pub open spec fn measurable(self) -> bool {
        &&& i16::MIN <= self.right - self.left
        &&& cells(self.left, self.right) <= i16::MAX
        &&& i16::MIN <= self.bottom - self.top
        &&& cells(self.top, self.bottom) <= i16::MAX
    }
}

/// A distance as a dimension of at least one cell.
fn dimension(first: i16, last: i16) -> (n: u16)
    requires
        i16::MIN <= last - first,
        cells(first, last) <= i16::MAX,
    ensures
        n == extent(first, last),
{
    let n: i16 = last - first + 1;
    if n < 1 {
        1
    } else {
        n as u16
    }
}

/// The size of a window with these edges.
pub open spec fn shown_size(window: Option<Window>) -> Size {
    match window {
        Some(w) => Size {
            cols: extent(w.left, w.right) as u16,
            rows: extent(w.top, w.bottom) as u16,
        },
        None => Size { cols: 80, rows: 24 },
    }
}

/// Current size of the console window (not the scrollback buffer), given its edges. Without a
/// console there is no window, and the size is that of a classic terminal.
pub fn console_size(window: Option<Window>) -> (size: Size)
    requires
        window matches Some(w) ==> w.measurable(),
    ensures
        size == shown_size(window),
        size.cols >= 1,
        size.rows >= 1,
{
    match window {
        Some(w) => Size {
            cols: dimension(w.left, w.right),
            rows: dimension(w.top, w.bottom),
        }.sanitized(),
        None => Size::default(),
    }
}

/// The input mode while attached: no line discipline, VT input on top of what was there.
pub open spec fn raw_input(previous: u32) -> u32 {
    (previous & !(ENABLE_LINE_INPUT | ENABLE_ECHO_INPUT | ENABLE_PROCESSED_INPUT))
        | ENABLE_VIRTUAL_TERMINAL_INPUT
}

/// The output mode while attached: VT processing on top of what was there.
///
/// Without `DISABLE_NEWLINE_AUTO_RETURN` the console would insert its own carriage return at the
/// right margin and the redraw would drift.
pub open spec fn raw_output(previous: u32) -> u32 {
    previous | ENABLE_PROCESSED_OUTPUT | ENABLE_VIRTUAL_TERMINAL_PROCESSING
        | DISABLE_NEWLINE_AUTO_RETURN
}

/// The two sides of a console.
#[derive(Debug, Clone, Copy, PartialEq, Eq, Structural)]
pub enum Stream {
    Input,
    Output,
}

/// A call to the console that the client is about to make.
#[derive(Debug, Clone, Copy, PartialEq, Eq, Structural)]
pub enum ConsoleCall {
    /// Ask for the mode of a stream.
    GetMode(Stream),
    /// Set the mode of a stream.
    SetMode(Stream, u32),
}

/// Why the console could not be put into raw mode.
#[derive(Debug, Clone, Copy, PartialEq, Eq, Structural)]
pub enum EnterError {
    NoConsoleInput,
    NoConsoleOutput,
    InputMode,
    OutputMode,
}

impl EnterError {
    /// What to tell the user, in front of the system's own words.
    pub open spec fn message_text(self) -> Seq<char> {
        match self {
            EnterError::NoConsoleInput => "wmux attach needs a real console on stdin"@,
            EnterError::NoConsoleOutput => "wmux attach needs a real console on stdout"@,
            EnterError::InputMode => "failed to put the console into raw input mode"@,
            EnterError::OutputMode => "failed to enable VT output processing"@,
        }
    }

    /// What to tell the user, in front of the system's own words.
    pub fn message(self) -> (message: String)
        ensures
            message@ == self.message_text(),
    {
        match self {
            EnterError::NoConsoleInput => "wmux attach needs a real console on stdin".to_owned(),
            EnterError::NoConsoleOutput => "wmux attach needs a real console on stdout".to_owned(),
            EnterError::InputMode => "failed to put the console into raw input mode".to_owned(),
            EnterError::OutputMode => "failed to enable VT output processing".to_owned(),
        }
    }
}

/// The console modes that were in effect before the client started.
///
/// Held for the lifetime of an attach and restored at its end, also when the attach ends in an
/// error, so a detach never leaves the user's shell with echo turned off.
#[derive(Debug, Clone, Copy, PartialEq, Eq, Structural)]
pub struct RawMode {
    pub previous_input: u32,
    pub previous_output: u32,
}

/// How far the way into raw mode has come.
#[derive(Debug, Clone, Copy, PartialEq, Eq, Structural)]
pub enum Entering {
    AskInput,
    AskOutput { previous_input: u32 },
    SetInput(RawMode),
    SetOutput(RawMode),
    /// The output refused, so the input gets its mode back.
    RestoreInput(RawMode),
    Entered(RawMode),
    Failed(EnterError),
}

impl Entering {
    /// The call that this stage makes.
    pub open spec fn call(self) -> Option<ConsoleCall> {
        match self {
            Entering::AskInput => Some(ConsoleCall::GetMode(Stream::Input)),
            Entering::AskOutput { .. } => Some(ConsoleCall::GetMode(Stream::Output)),
            Entering::SetInput(m) => Some(
                ConsoleCall::SetMode(Stream::Input, raw_input(m.previous_input)),
            ),
            Entering::SetOutput(m) => Some(
                ConsoleCall::SetMode(Stream::Output, raw_output(m.previous_output)),
            ),
            Entering::RestoreInput(m) => Some(
                ConsoleCall::SetMode(Stream::Input, m.previous_input),
            ),
            Entering::Entered(_) => None,
            Entering::Failed(_) => None,
        }
    }

    /// The stage after the console has answered: with a mode, or with a failure.
    pub open spec fn after(self, answer: Option<u32>) -> Entering {
        match (self, answer) {
            (Entering::AskInput, Some(mode)) => Entering::AskOutput { previous_input: mode },
            (Entering::AskInput, None) => Entering::Failed(EnterError::NoConsoleInput),
            (Entering::AskOutput { previous_input }, Some(mode)) => Entering::SetInput(
                RawMode { previous_input, previous_output: mode },
            ),
            (Entering::AskOutput { .. }, None) => Entering::Failed(EnterError::NoConsoleOutput),
            (Entering::SetInput(m), Some(_)) => Entering::SetOutput(m),
            (Entering::SetInput(_), None) => Entering::Failed(EnterError::InputMode),
            (Entering::SetOutput(m), Some(_)) => Entering::Entered(m),
            (Entering::SetOutput(m), None) => Entering::RestoreInput(m),
            (Entering::RestoreInput(_), _) => Entering::Failed(EnterError::OutputMode),
            (Entering::Entered(m), _) => Entering::Entered(m),
            (Entering::Failed(e), _) => Entering::Failed(e),
        }
    }

    /// The next call to make, if the way has not come to its end.
    pub fn next_call(self) -> (call: Option<ConsoleCall>)
        ensures
            call == self.call(),
    {
        match self {
            Entering::AskInput => Some(ConsoleCall::GetMode(Stream::Input)),
            Entering::AskOutput { .. } => Some(ConsoleCall::GetMode(Stream::Output)),
            Entering::SetInput(m) => {
                let mode: u32 = (m.previous_input & !(ENABLE_LINE_INPUT | ENABLE_ECHO_INPUT
                    | ENABLE_PROCESSED_INPUT)) | ENABLE_VIRTUAL_TERMINAL_INPUT;
                Some(ConsoleCall::SetMode(Stream::Input, mode))
            },
            Entering::SetOutput(m) => {
                let mode: u32 = m.previous_output | ENABLE_PROCESSED_OUTPUT
                    | ENABLE_VIRTUAL_TERMINAL_PROCESSING | DISABLE_NEWLINE_AUTO_RETURN;
                Some(ConsoleCall::SetMode(Stream::Output, mode))
            },
            Entering::RestoreInput(m) => Some(
                ConsoleCall::SetMode(Stream::Input, m.previous_input),
            ),
            Entering::Entered(_) => None,
            Entering::Failed(_) => None,
        }
    }

    /// Takes in what the console answered: a mode (of a call that sets one, any), or a failure.
    pub fn answered(self, answer: Option<u32>) -> (next: Entering)
        ensures
            next == self.after(answer),
    {
        match (self, answer) {
            (Entering::AskInput, Some(mode)) => Entering::AskOutput { previous_input: mode },
            (Entering::AskInput, None) => Entering::Failed(EnterError::NoConsoleInput),
            (Entering::AskOutput { previous_input }, Some(mode)) => Entering::SetInput(
                RawMode { previous_input, previous_output: mode },
            ),
            (Entering::AskOutput { .. }, None) => Entering::Failed(EnterError::NoConsoleOutput),
            (Entering::SetInput(m), Some(_)) => Entering::SetOutput(m),
            (Entering::SetInput(_), None) => Entering::Failed(EnterError::InputMode),
            (Entering::SetOutput(m), Some(_)) => Entering::Entered(m),
            (Entering::SetOutput(m), None) => Entering::RestoreInput(m),
            (Entering::RestoreInput(_), _) => Entering::Failed(EnterError::OutputMode),
            (Entering::Entered(m), _) => Entering::Entered(m),
            (Entering::Failed(e), _) => Entering::Failed(e),
        }
    }
}

impl RawMode {
    /// Starts the way into raw mode.
    pub fn enter() -> (start: Entering)
        ensures
            start == Entering::AskInput,
    {
        Entering::AskInput
    }

    /// The calls that restore the console, in order.
    pub fn leave(self) -> (calls: (ConsoleCall, ConsoleCall))
        ensures
            calls.0 == ConsoleCall::SetMode(Stream::Input, self.previous_input),
            calls.1 == ConsoleCall::SetMode(Stream::Output, self.previous_output),
    {
        (
            ConsoleCall::SetMode(Stream::Input, self.previous_input),
            ConsoleCall::SetMode(Stream::Output, self.previous_output),
        )
    }
}

/// The modes of the two streams of a console.
pub struct Modes {
    pub input: u32,
    pub output: u32,
}

impl Modes {
    /// The modes after a call that succeeded.
    pub open spec fn after(self, call: ConsoleCall) -> Modes {
        match call {
            ConsoleCall::GetMode(_) => self,
            ConsoleCall::SetMode(Stream::Input, mode) => Modes { input: mode, ..self },
            ConsoleCall::SetMode(Stream::Output, mode) => Modes { output: mode, ..self },
        }
    }

    /// What a call answers that succeeds.
    pub open spec fn answer(self, call: ConsoleCall) -> u32 {
        match call {
            ConsoleCall::GetMode(Stream::Input) => self.input,
            ConsoleCall::GetMode(Stream::Output) => self.output,
            ConsoleCall::SetMode(_, mode) => mode,
        }
    }
}

/// Where a console and the way into raw mode end up, when the calls succeed or fail as `ok` says.
pub open spec fn driven(console: Modes, stage: Entering, ok: Seq<bool>) -> (Modes, Entering)
    decreases ok.len(),
{
    if ok.len() == 0 {
        (console, stage)
    } else {
        match stage.call() {
            None => (console, stage),
            Some(call) => if ok.first() {
                driven(
                    console.after(call),
                    stage.after(Some(console.answer(call))),
                    ok.drop_first(),
                )
            } else {
                driven(console, stage.after(None), ok.drop_first())
            },
        }
    }
}

/// However the calls of an attach turn out, the console is not left changed: where raw mode was
/// entered, leaving it brings both modes back, and where it was not, both are as they were. (The
/// fifth call is the one that gives the input its mode back, and it succeeds.)
pub proof fn law_console_modes_come_back(console: Modes, ok: Seq<bool>)
    requires
        ok.len() == 5,
        ok[4],
    ensures
        ({
            let (now, end) = driven(console, Entering::AskInput, ok);
            match end {
                Entering::Entered(m) => {
                    &&& now == (Modes {
                        input: raw_input(console.input),
                        output: raw_output(console.output),
                    })
                    &&& now.after(
                        ConsoleCall::SetMode(Stream::Input, m.previous_input),
                    ).after(ConsoleCall::SetMode(Stream::Output, m.previous_output)) == console
                },
                Entering::Failed(_) => now == console,
                _ => false,
            }
        }),
        driven(console, Entering::AskInput, ok).1 is Entered <==> ok[0] && ok[1] && ok[2] && ok[3],
{
    reveal_with_fuel(driven, 6);
    let r1 = ok.drop_first();
    let r2 = r1.drop_first();
    let r3 = r2.drop_first();
    let r4 = r3.drop_first();
    let r5 = r4.drop_first();
    assert(r1.first() == ok[1] && r2.first() == ok[2] && r3.first() == ok[3] && r4.first()
        == ok[4] && r5.len() == 0);
}

/// Raw input mode has no line buffering, echo or Ctrl-C handling, has VT input, and keeps every
/// other setting.
pub proof fn law_raw_input_bits(previous: u32)
    ensures
        raw_input(previous) & ENABLE_LINE_INPUT == 0,
        raw_input(previous) & ENABLE_ECHO_INPUT == 0,
        raw_input(previous) & ENABLE_PROCESSED_INPUT == 0,
        raw_input(previous) & ENABLE_VIRTUAL_TERMINAL_INPUT == ENABLE_VIRTUAL_TERMINAL_INPUT,
        raw_input(previous) & !0x207u32 == previous & !0x207u32,
{
    assert(((previous & !(2u32 | 4u32 | 1u32)) | 0x200u32) & 2u32 == 0) by (bit_vector);
    assert(((previous & !(2u32 | 4u32 | 1u32)) | 0x200u32) & 4u32 == 0) by (bit_vector);
    assert(((previous & !(2u32 | 4u32 | 1u32)) | 0x200u32) & 1u32 == 0) by (bit_vector);
    assert(((previous & !(2u32 | 4u32 | 1u32)) | 0x200u32) & 0x200u32 == 0x200u32)
        by (bit_vector);
    assert(((previous & !(2u32 | 4u32 | 1u32)) | 0x200u32) & !0x207u32 == previous & !0x207u32)
        by (bit_vector);
}

/// Raw output mode has VT processing, no automatic carriage return, and keeps every other setting.
pub proof fn law_raw_output_bits(previous: u32)
    ensures
        raw_output(previous) & ENABLE_PROCESSED_OUTPUT == ENABLE_PROCESSED_OUTPUT,
        raw_output(previous) & ENABLE_VIRTUAL_TERMINAL_PROCESSING
            == ENABLE_VIRTUAL_TERMINAL_PROCESSING,
        raw_output(previous) & DISABLE_NEWLINE_AUTO_RETURN == DISABLE_NEWLINE_AUTO_RETURN,
        raw_output(previous) & !0xdu32 == previous & !0xdu32,
{
    assert((previous | 1u32 | 4u32 | 8u32) & 1u32 == 1u32) by (bit_vector);
    assert((previous | 1u32 | 4u32 | 8u32) & 4u32 == 4u32) by (bit_vector);
    assert((previous | 1u32 | 4u32 | 8u32) & 8u32 == 8u32) by (bit_vector);
    assert((previous | 1u32 | 4u32 | 8u32) & !0xdu32 == previous & !0xdu32) by (bit_vector);
}

/// No dimension is zero, and one that is not stays as it is.
pub proof fn law_sizes_have_a_cell_each_way(size: Size, sane: Size)
    requires
        call_ensures(Size::sanitized, (size,), sane),
    ensures
        sane.cols >= 1,
        sane.rows >= 1,
        size.cols >= 1 ==> sane.cols == size.cols,
        size.rows >= 1 ==> sane.rows == size.rows,
        size.cols == 0 ==> sane.cols == 1,
        size.rows == 0 ==> sane.rows == 1,
        sane == size.clamped(),
        sane.clamped() == sane,
{
}

/// The size of a window is what lies from edge to edge, both counted, and never nothing; without a
/// window it is that of a classic terminal.
pub proof fn law_a_window_has_its_size(w: Window, size: Size, without: Size)
    requires
        w.measurable(),
        call_ensures(console_size, (Some(w),), size),
        call_ensures(console_size, (None,), without),
    ensures
        w.right >= w.left ==> size.cols == w.right - w.left + 1,
        w.right < w.left ==> size.cols == 1,
        w.bottom >= w.top ==> size.rows == w.bottom - w.top + 1,
        w.bottom < w.top ==> size.rows == 1,
        without.cols == 80 && without.rows == 24,
{
}

/// Every window has a size whose width and height are each less than 32768 cells.
pub proof fn law_ordinary_windows_have_a_size(w: Window)
    ensures
        w.measurable() <==> -32768 <= w.right - w.left < 32767 && -32768 <= w.bottom - w.top
            < 32767,
{
}

/// The modes while attached, bit by bit: three bits of the input go and one comes, three bits of
/// the output come, and nothing else changes.
pub proof fn law_raw_modes_bit_by_bit(previous: u32)
    ensures
        raw_input(previous) == (previous & 0xffff_fff8) | 0x200,
        raw_output(previous) == previous | 0xd,
{
    assert((previous & !(2u32 | 4u32 | 1u32)) | 0x200u32 == (previous & 0xffff_fff8u32) | 0x200u32)
        by (bit_vector);
    assert(previous | 1u32 | 4u32 | 8u32 == previous | 0xdu32) by (bit_vector);
}

/// Which call fails decides what is wrong: the first two ask whether there is a console, the next
/// two put it into raw mode. (The fifth is the one that gives the input its mode back.)
pub proof fn law_why_raw_mode_was_not_entered(console: Modes, ok: Seq<bool>, start: Entering)
    requires
        ok.len() == 5,
        call_ensures(RawMode::enter, (), start),
    ensures
        ({
            let end = driven(console, start, ok).1;
            &&& end == Entering::Failed(EnterError::NoConsoleInput) <==> !ok[0]
            &&& end == Entering::Failed(EnterError::NoConsoleOutput) <==> ok[0] && !ok[1]
            &&& end == Entering::Failed(EnterError::InputMode) <==> ok[0] && ok[1] && !ok[2]
            &&& end == Entering::Failed(EnterError::OutputMode) <==> ok[0] && ok[1] && ok[2]
                && !ok[3]
            &&& end == Entering::Entered(
                RawMode { previous_input: console.input, previous_output: console.output },
            ) <==> ok[0] && ok[1] && ok[2] && ok[3]
        }),
{
    reveal_with_fuel(driven, 6);
    let r1 = ok.drop_first();
    let r2 = r1.drop_first();
    let r3 = r2.drop_first();
    let r4 = r3.drop_first();
    let r5 = r4.drop_first();
    assert(r1.first() == ok[1] && r2.first() == ok[2] && r3.first() == ok[3] && r4.first()
        == ok[4] && r5.len() == 0);
}

/// The calls of an attach that goes well, in order: both modes are asked for, and then both are
/// set; where the last of these fails, the input gets the mode back that it had.
pub proof fn law_the_calls_of_an_attach(input: u32, output: u32, any: u32)
    ensures
        ({
            let ask_output = Entering::AskInput.after(Some(input));
            let set_input = ask_output.after(Some(output));
            let set_output = set_input.after(Some(any));
            &&& Entering::AskInput.call() == Some(ConsoleCall::GetMode(Stream::Input))
            &&& ask_output.call() == Some(ConsoleCall::GetMode(Stream::Output))
            &&& set_input.call() == Some(
                ConsoleCall::SetMode(Stream::Input, (input & 0xffff_fff8) | 0x200),
            )
            &&& set_output.call() == Some(ConsoleCall::SetMode(Stream::Output, output | 0xd))
            &&& set_output.after(None).call() == Some(ConsoleCall::SetMode(Stream::Input, input))
            &&& set_output.after(Some(any)).call() is None
        }),
{
    law_raw_modes_bit_by_bit(input);
    law_raw_modes_bit_by_bit(output);
}

/// Leaving sets both modes to what they were.
pub proof fn law_leaving_restores_both_modes(
    mode: RawMode,
    calls: (ConsoleCall, ConsoleCall),
    now: Modes,
)
    requires
        call_ensures(RawMode::leave, (mode,), calls),
    ensures
        now.after(calls.0).after(calls.1).input == mode.previous_input,
        now.after(calls.0).after(calls.1).output == mode.previous_output,
        calls.0 == ConsoleCall::SetMode(Stream::Input, mode.previous_input),
        calls.1 == ConsoleCall::SetMode(Stream::Output, mode.previous_output),
{
}

/// What is said of a console that cannot be used.
pub proof fn law_unusable_consoles_are_explained()
    ensures
        EnterError::NoConsoleInput.message_text() == "wmux attach needs a real console on stdin"@,
        EnterError::NoConsoleOutput.message_text() == "wmux attach needs a real console on stdout"@,
        EnterError::InputMode.message_text() == "failed to put the console into raw input mode"@,
        EnterError::OutputMode.message_text() == "failed to enable VT output processing"@,
{
}

/// The way into raw mode goes on by the calls as it does by its stages, and errors are told in their
/// words. A size that nobody gave is that of a classic terminal.
pub proof fn law_the_calls_on_the_way(
    stage: Entering,
    call: Option<ConsoleCall>,
    answer: Option<u32>,
    next: Entering,
    error: EnterError,
    message: String,
    size: Size,
)
    requires
        call_ensures(Entering::next_call, (stage,), call),
        call_ensures(Entering::answered, (stage, answer), next),
        call_ensures(EnterError::message, (error,), message),
        call_ensures(<Size as Default>::default, (), size),
    ensures
        call == stage.call(),
        call is None <==> stage is Entered || stage is Failed,
        next == stage.after(answer),
        message@ == error.message_text(),
        size.cols == 80 && size.rows == 24,
{
}

} // verus!
