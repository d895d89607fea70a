use wmux::console::{
    console_size, ConsoleCall, EnterError, Entering, RawMode, Size, Stream, Window,
};

#[test]
fn zero_dimensions_are_clamped_to_one() {
    let s = Size { cols: 0, rows: 0 }.sanitized();
    assert_eq!(s, Size { cols: 1, rows: 1 });
}

#[test]
fn ordinary_dimensions_survive_sanitizing() {
    let s = Size {
        cols: 120,
        rows: 30,
    };
    assert_eq!(s.sanitized(), s);
}

#[test]
fn default_size_is_a_classic_terminal() {
    assert_eq!(Size::default(), Size { cols: 80, rows: 24 });
}

fn answers(ok: [bool; 5]) -> (Entering, u32, u32) {
    let (mut input, mut output) = (0x1f7, 0x3);
    let mut stage = RawMode::enter();
    for ok in ok {
        let Some(call) = stage.next_call() else { break };
        let mut answer = None;
        if ok {
            answer = Some(match call {
                ConsoleCall::GetMode(Stream::Input) => input,
                ConsoleCall::GetMode(Stream::Output) => output,
                ConsoleCall::SetMode(Stream::Input, mode) => {
                    input = mode;
                    mode
                }
                ConsoleCall::SetMode(Stream::Output, mode) => {
                    output = mode;
                    mode
                }
            });
        }
        stage = stage.answered(answer);
    }
    (stage, input, output)
}

#[test]
fn raw_mode_is_entered_and_left() {
    let (stage, input, output) = answers([true; 5]);
    let Entering::Entered(mode) = stage else {
        panic!("expected raw mode, got {stage:?}");
    };
    assert_eq!((input, output), (0x3f0, 0xf));
    assert_eq!(
        mode.leave(),
        (
            ConsoleCall::SetMode(Stream::Input, 0x1f7),
            ConsoleCall::SetMode(Stream::Output, 0x3)
        )
    );
}

#[test]
fn a_failed_attempt_leaves_the_console_as_it_was() {
    for (at, error, text) in [
        (0, EnterError::NoConsoleInput, "wmux attach needs a real console on stdin"),
        (1, EnterError::NoConsoleOutput, "wmux attach needs a real console on stdout"),
        (2, EnterError::InputMode, "failed to put the console into raw input mode"),
        (3, EnterError::OutputMode, "failed to enable VT output processing"),
    ] {
        let mut ok = [true; 5];
        ok[at] = false;
        assert_eq!(answers(ok), (Entering::Failed(error), 0x1f7, 0x3));
        assert_eq!(error.message(), text);
    }
}

#[test]
fn the_window_is_measured_edge_to_edge() {
    let window = Window { left: 0, top: 10, right: 119, bottom: 39 };
    assert_eq!(console_size(Some(window)), Size { cols: 120, rows: 30 });
    let hidden = Window { left: 5, top: 5, right: 0, bottom: 0 };
    assert_eq!(console_size(Some(hidden)), Size { cols: 1, rows: 1 });
    assert_eq!(console_size(None), Size { cols: 80, rows: 24 });
}
