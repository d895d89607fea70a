use wmux::escape::{read_byte, Effect, Glyph, Header, Reading};

/// What the bytes of a stream do, and where it is behind them.
fn read(bytes: &[u8]) -> (Reading, Vec<Effect>) {
    let mut reading = Reading::Text;
    let mut effects = Vec::new();
    for byte in bytes {
        let (next, effect) = read_byte(reading, *byte);
        reading = next;
        if effect != Effect::Still {
            effects.push(effect);
        }
    }
    (reading, effects)
}

fn letter(byte: u8) -> Effect {
    Effect::Draw(Glyph { len: 1, a: byte, b: 0, c: 0, d: 0 })
}

#[test]
fn text_is_drawn() {
    assert_eq!(read(b"K\r\n\x7f!"), (Reading::Text, vec![letter(b'K'), letter(b'!')]));
    assert_eq!(read(b"\t"), (Reading::Text, vec![Effect::Tab]));
    let wide = Glyph { len: 3, a: 0xe6, b: 0x97, c: 0xa5, d: 0 };
    assert_eq!(read("\u{65e5}".as_bytes()), (Reading::Text, vec![Effect::Draw(wide)]));
    assert_eq!(wide.to_vec(), "\u{65e5}".as_bytes());
    let face = Glyph { len: 4, a: 0xf0, b: 0x9f, c: 0x98, d: 0x80 };
    assert_eq!(read("\u{1f600}".as_bytes()), (Reading::Text, vec![Effect::Draw(face)]));
    assert_eq!(read("\u{85}".as_bytes()), (Reading::Text, vec![]));
}

#[test]
fn what_is_no_character_is_replaced() {
    let unknown = Effect::Draw(Glyph { len: 3, a: 0xef, b: 0xbf, c: 0xbd, d: 0 });
    for bytes in [&b"\xc3\x1b"[..], b"\xe0\x80", b"\xed\xa0", b"\xf0\x8f", b"\xf4\x90", b"\xf1\x80\x80\t"] {
        assert_eq!(read(bytes), (Reading::Text, vec![unknown]), "{bytes:?}");
    }
    assert_eq!(read(b"\x80\x9c\xbf\xc0\xf5"), (Reading::Text, vec![]));
}

#[test]
fn control_sequences_are_read() {
    for (bytes, effect) in [
        (&b"\x1b[J"[..], Effect::EraseForward),
        (b"\x1b[0K", Effect::EraseForward),
        (b"\x1b[?1J", Effect::EraseBackward),
        (b"\x1b[1;5K", Effect::EraseBackward),
        (b"\x1b[2K", Effect::EraseRow),
        (b"\x1b[12X", Effect::EraseCells(12)),
        (b"\x1b[X", Effect::EraseCells(1)),
        (b"\x1b[70000P", Effect::DeleteCells(65535)),
        (b"\x1b[3:4P", Effect::DeleteCells(3)),
        (b"\x1b[@", Effect::InsertCells),
        (b"\x1b[2L", Effect::InsertLines),
        (b"\x1b[\rM", Effect::DeleteLines),
        (b"\x1b]0;K\x07L", letter(b'L')),
        (b"\x1bPq1K\x1b\\L", letter(b'L')),
        (b"\x1bXK\x9cL", letter(b'L')),
        (b"\x1bP1<\x9cL", letter(b'L')),
        (b"\x1b(BL", letter(b'L')),
        (b"\x1b[1\x18L", letter(b'L')),
        (b"\x1b7L", letter(b'L')),
    ] {
        assert_eq!(read(bytes), (Reading::Text, vec![effect]), "{bytes:?}");
    }
    for bytes in [&b"\x1b[2J"[..], b"\x1b[3J", b"\x1b[?P", b"\x1b[>K", b"\x1b[1?K", b"\x1b[ 1K", b"\x1b[H"] {
        assert_eq!(read(bytes), (Reading::Text, vec![]), "{bytes:?}");
    }
    assert_eq!(read(b"\x1bP1\x9c").0, Reading::Device(Header::Param));
    assert_eq!(
        read(b"\x1b[?12;3").0,
        Reading::Control { header: Header::Param, mark: b'?', first: 12, open: false }
    );
}
