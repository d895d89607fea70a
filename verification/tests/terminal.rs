use wmux::terminal::Terminal;

fn screen(rows: u16, cols: u16, bytes: &[u8]) -> Terminal {
    let mut terminal = Terminal::new(rows, cols);
    assert_eq!(terminal.process(bytes), bytes.len());
    terminal
}

#[test]
fn ordinary_output_is_taken_whole() {
    let text = "\x1b[2J\x1b[H\x1b[1;32mPS C:\\>\x1b[0m d\u{e9}j\u{e0} vu \u{65e5}\u{672c}\r\n\tok\x1b[K\r\n";
    let terminal = screen(24, 80, text.as_bytes());
    let mut model = vt100::Parser::new(24, 80, 10_000);
    model.process(text.as_bytes());
    assert_eq!(terminal.text(), model.screen().contents());
    assert_eq!(terminal.repaint(), Some(model.screen().contents_formatted()));
}

#[test]
fn a_wide_character_that_the_edge_cuts_is_left_alone() {
    let mut terminal = screen(2, 4, "ab\u{65e5}\x1b[1;1H".as_bytes());
    terminal.set_size(2, 3);
    // The letters are text, and go next to it.
    assert_eq!(terminal.process(b"KJ"), 2);
    assert_eq!(terminal.text(), "KJ\u{65e5}");
    // Over it goes nothing, and nothing erases it alone.
    assert_eq!(terminal.process(b"x"), 0);
    assert_eq!(terminal.process(b"\x1b[K"), 2);
    assert_eq!(terminal.process(b"X"), 0);
    assert_eq!(terminal.text(), "KJ\u{65e5}");
    // The cursor can go away, and the row be cleared as a whole.
    assert_eq!(terminal.process(b"\r\x1b[1X\x1b[1K\x1b[1;3H\x1b[2K\x1b[Kx"), 23);
    assert_eq!(terminal.text(), "  x");
}

#[test]
fn what_goes_over_a_cut_character_at_the_edge_is_not_taken() {
    let mut terminal = screen(2, 4, "ab\u{65e5}".as_bytes());
    terminal.set_size(2, 3);
    assert!(!terminal.takes(b'x'));
    assert!(terminal.takes(b'\r'));
    assert!(terminal.takes(b'\n'));
    assert_eq!(terminal.process(b"\x1b[H"), 3);
    assert!(terminal.takes(b'x'));
    assert_eq!(terminal.process(b"\x1b[3X"), 3);
    assert_eq!(terminal.process("\x18\u{672c}".as_bytes()), 4);
    assert_eq!(terminal.process("\x1b[1;2H\u{672c}".as_bytes()), 8);
}

#[test]
fn nothing_is_drawn_below_the_screen() {
    let mut terminal = screen(10, 10, b"\x1b[10;10H\x1b7");
    terminal.set_size(5, 20);
    assert_eq!(terminal.process(b"\x1b8x"), 2);
    assert!(terminal.repaint().is_some());
    for sequence in ["K", "1J", "X", "P", "@", "L", "M"] {
        let mut terminal = screen(10, 10, b"\x1b[10;10H\x1b7");
        terminal.set_size(5, 20);
        let bytes = format!("\x1b8\x1b[{sequence}");
        assert_eq!(terminal.process(bytes.as_bytes()), bytes.len() - 1, "{sequence}");
    }

    let mut terminal = screen(10, 10, b"\x1b[10;10H\x1b7");
    terminal.set_size(5, 4);
    assert_eq!(terminal.process(b"\x1b8x"), 2);
    assert_eq!(terminal.repaint(), None);
}

#[test]
fn a_cursor_below_the_screen_can_be_brought_back() {
    // A full-screen program starts in a tall window, and ends in a lower one.
    for back in ["\r\nx", "\x1b[Hx", "\x1b[2J\x1b[1;1Hx", "\x1b[Ax", "\x1b]0;title\x07\x1b[5;1Hx"] {
        let mut terminal = screen(50, 80, b"\x1b[50;1Htop\x1b[?1049hfull screen");
        terminal.set_size(24, 80);
        let mut bytes = b"\x1b[?1049l".to_vec();
        bytes.extend_from_slice(back.as_bytes());
        let n = terminal.process(&bytes);
        // One row up is still off the screen.
        let whole = bytes.len() - if back == "\x1b[Ax" { 1 } else { 0 };
        assert_eq!(n, whole, "{back:?}");
    }
}

#[test]
fn a_cursor_beyond_the_last_column_wraps() {
    for (bytes, taken) in [("x", 1), ("\x1b[K", 3), ("\x1b[X", 3), ("\x1b[1K", 4), ("\x1b[@", 2), ("\x1b[P", 2)] {
        let mut terminal = screen(5, 80, b"\x1b[2;80H\x1b7");
        terminal.set_size(5, 40);
        assert_eq!(terminal.process(b"\x1b8"), 2);
        assert_eq!(terminal.process(bytes.as_bytes()), taken, "{bytes:?}");
    }
}

#[test]
fn one_row_does_not_wrap() {
    let mut terminal = screen(1, 4, b"abcd");
    assert!(!terminal.takes(b'e'));
    assert_eq!(terminal.process(b"e"), 0);
    assert_eq!(terminal.text(), "abcd");
    assert_eq!(terminal.process(b"\x08\x1b[K\r\nef\x1b[1;4H\xe2\x94\x80"), 17);
    assert_eq!(terminal.text(), "ef \u{2500}");
    assert!(screen(2, 4, b"abcd").takes(b'e'));
}

#[test]
fn a_character_needs_its_columns() {
    for (cols, text, taken) in [
        (1, "\u{65e5}", 2),
        (1, "\u{17d8}", 2),
        (1, "\u{e9}\u{2500}\u{301}ab", 9),
        (2, "\u{65e5}\u{672c}", 6),
        (2, "\u{17d8}", 2),
        (3, "\u{17d8}", 3),
        (2, "\u{1f600}", 4),
        (1, "\u{1f600}", 3),
    ] {
        assert_eq!(Terminal::new(5, cols).process(text.as_bytes()), taken, "{text} in {cols}");
    }
    // What is no character takes one column.
    assert_eq!(Terminal::new(5, 1).process(b"\xe6\x97x\xc3\x1b[\xf5"), 7);
}

#[test]
fn there_is_no_tab_stop_beyond_the_last() {
    let mut terminal = screen(2, 65535, b"\x1b[1;65530H");
    assert!(!terminal.takes(b'\t'));
    assert!(terminal.takes(b'x'));
    assert_eq!(terminal.process(b"\x1b[1;65520H\t"), 11);
}

#[test]
fn a_half_at_the_left_edge_is_not_deleted() {
    // Where every wide character is whole, cells are deleted.
    let mut terminal = screen(2, 5, "\u{65e5}\u{672c}\x1b[1;1H".as_bytes());
    assert_eq!(terminal.process(b"\x1b[2P"), 4);
    assert_eq!(terminal.text(), "\u{672c}");
    assert_eq!(terminal.process(b"\x1b[9P"), 4);

    // One that was cut by a smaller window stands in front of another.
    let mut terminal = screen(2, 3, "a\u{65e5}".as_bytes());
    terminal.set_size(2, 2);
    terminal.set_size(2, 5);
    assert_eq!(terminal.process("\x1b[1;3H\u{672c}\x1b[1;1HP\r".as_bytes()), 17);
    // The fourth cell to be deleted would be a second half.
    assert_eq!(terminal.process(b"\x1b[4P"), 3);
    assert_eq!(terminal.process(b"\x18\x1b[3P"), 5);
    // Now that half is at the edge, and nothing goes over it.
    assert_eq!(terminal.process(b"x"), 0);
    assert_eq!(terminal.process(b"\x1b[2Kx"), 5);
}

/// Numbers that look random.
struct Dice(u64);

impl Dice {
    fn roll(&mut self, sides: u64) -> u64 {
        self.0 = self.0.wrapping_mul(6364136223846793005).wrapping_add(1442695040888963407);
        (self.0 >> 33) % sides
    }

    fn size(&mut self) -> (u16, u16) {
        (1 + self.roll(4) as u16, 1 + self.roll(6) as u16)
    }

    fn output(&mut self) -> Vec<u8> {
        let n = 1 + self.roll(7);
        let m = 1 + self.roll(7);
        match self.roll(32) {
            0..=3 => b"abc"[..self.roll(4) as usize].to_vec(),
            4..=7 => "\u{65e5}".as_bytes().to_vec(),
            8 => "\u{17d8}".as_bytes().to_vec(),
            9..=10 => "\u{301}".as_bytes().to_vec(),
            11 => "\u{e9}".as_bytes().to_vec(),
            12 => vec![0x80 + self.roll(128) as u8],
            13 => {
                let parts = b"\x1b\x1b[[]PX?;:012JKLM@\x18\x9c\x07\x7f\xc3\xe6\x97\t (";
                let mut out = Vec::new();
                for _ in 0..n {
                    out.push(parts[self.roll(parts.len() as u64) as usize]);
                }
                out
            }
            14 => b"\r\n".to_vec(),
            15 => b"\t".to_vec(),
            16 => b"\x1b7".to_vec(),
            17 => b"\x1b8".to_vec(),
            18 => b"\x1b[?1049h".to_vec(),
            19 => b"\x1b[?1049l".to_vec(),
            20 => b"\x1b[?47h".to_vec(),
            21 => b"\x1b[?47l".to_vec(),
            22 => format!("\x1b[{n};{m}r").into_bytes(),
            23 => b"\x1b[?6h".to_vec(),
            24 => b"\x1bM\x1bc"[..2 * (1 + self.roll(2) as usize)].to_vec(),
            25 => b"\x08".to_vec(),
            26..=27 => format!("\x1b[{n};{m}H").into_bytes(),
            _ => {
                let finals = b"ABCDEFGHJKLMPSTXdm@";
                let last = finals[self.roll(finals.len() as u64) as usize];
                let mut out = format!("\x1b[{}", n - 1).into_bytes();
                out.push(last);
                out
            }
        }
    }
}

#[test]
fn what_is_taken_can_be_drawn() {
    let mut dice = Dice(4711);
    let mut taken: usize = 0;
    for _ in 0..6000 {
        let (rows, cols) = dice.size();
        let mut terminal = Terminal::new(rows, cols);
        let mut model = vt100::Parser::new(rows, cols, 10_000);
        for _ in 0..40 {
            if dice.roll(8) == 0 {
                let (rows, cols) = dice.size();
                terminal.set_size(rows, cols);
                model.set_size(rows, cols);
            }
            let bytes = dice.output();
            let n = terminal.process(&bytes);
            model.process(&bytes[..n]);
            taken += n;
            assert_eq!(terminal.text(), model.screen().contents());
            if let Some(screen) = terminal.repaint() {
                assert_eq!(screen, model.screen().contents_formatted());
            }
        }
    }
    assert!(taken > 100_000);
}
