use wmux::input::{InputParser, Key};

fn parse(bytes: &[u8]) -> Vec<Key> {
    InputParser::new().feed(bytes)
}

#[test]
fn plain_bytes_become_plain_keys() {
    let keys = parse(b"hi");
    assert_eq!(keys.len(), 2);
    assert_eq!(keys[0], Key::plain(b'h'));
    assert_eq!(keys[1], Key::plain(b'i'));
}

#[test]
fn a_bare_control_byte_is_a_character() {
    assert_eq!(parse(&[0x02]), vec![Key::plain(0x02)]);
}

#[test]
fn win32_input_mode_ctrl_b_decodes_to_0x02() {
    // The exact sequence Windows Terminal sends for Ctrl-B, captured from
    // a real session: VK_B (66), scan 48, char 2, key down, Ctrl held.
    let raw = b"\x1b[66;48;2;1;40;1_";
    let keys = parse(raw);
    assert_eq!(keys.len(), 1);
    assert_eq!(keys[0].ch, Some(0x02), "Ctrl-B must decode to 0x02");
    assert_eq!(keys[0].raw, raw.to_vec(), "raw bytes must be preserved");
}

#[test]
fn a_key_release_carries_no_character() {
    // Same key, Kd = 0. Releasing must not re-trigger anything.
    let keys = parse(b"\x1b[66;48;2;0;40;1_");
    assert_eq!(keys.len(), 1);
    assert_eq!(keys[0].ch, None);
}

#[test]
fn win32_input_mode_letter_d_decodes() {
    // VK_D (68), char 100 = 'd', key down.
    let keys = parse(b"\x1b[68;32;100;1;32;1_");
    assert_eq!(keys[0].ch, Some(b'd'));
}

#[test]
fn a_modifier_press_alone_carries_no_character() {
    // Ctrl pressed by itself: char field is 0.
    let keys = parse(b"\x1b[17;29;0;1;40;1_");
    assert_eq!(keys.len(), 1);
    assert_eq!(keys[0].ch, None);
}

#[test]
fn cursor_keys_are_opaque_but_forwarded() {
    let keys = parse(b"\x1b[A");
    assert_eq!(keys.len(), 1);
    assert_eq!(keys[0].ch, None);
    assert_eq!(keys[0].raw, b"\x1b[A".to_vec());
}

#[test]
fn focus_events_are_opaque() {
    // ESC[O is focus-lost; it appeared in a real capture.
    let keys = parse(b"\x1b[O");
    assert_eq!(keys.len(), 1);
    assert_eq!(keys[0].ch, None);
}

#[test]
fn alt_combinations_are_opaque() {
    let keys = parse(b"\x1bx");
    assert_eq!(keys.len(), 1);
    assert_eq!(keys[0].ch, None);
    assert_eq!(keys[0].raw, b"\x1bx".to_vec());
}

#[test]
fn a_sequence_split_across_reads_is_reassembled() {
    let mut parser = InputParser::new();
    assert!(parser.feed(b"\x1b[66;48;").is_empty(), "incomplete so far");
    let keys = parser.feed(b"2;1;40;1_");
    assert_eq!(keys.len(), 1);
    assert_eq!(keys[0].ch, Some(0x02));
    assert_eq!(keys[0].raw, b"\x1b[66;48;2;1;40;1_".to_vec());
}

#[test]
fn a_lone_trailing_escape_is_held_back() {
    let mut parser = InputParser::new();
    assert!(!parser.feed(b"a\x1b").is_empty());
    // 'a' came out; the ESC is still buffered awaiting its sequence.
    let keys = parser.feed(b"[66;48;2;1;40;1_");
    assert_eq!(keys.len(), 1);
    assert_eq!(keys[0].ch, Some(0x02));
}

#[test]
fn mixed_plain_and_win32_input_interleave_correctly() {
    let keys = parse(b"a\x1b[66;48;2;1;40;1_b");
    assert_eq!(keys.len(), 3);
    assert_eq!(keys[0].ch, Some(b'a'));
    assert_eq!(keys[1].ch, Some(0x02));
    assert_eq!(keys[2].ch, Some(b'b'));
}

#[test]
fn malformed_parameters_do_not_panic() {
    for raw in [
        &b"\x1b[_"[..],
        &b"\x1b[;;;;;_"[..],
        // Parameter bytes (0x30..=0x3f) that are not digits.
        &b"\x1b[<;>;?_"[..],
        // Wider than u32.
        &b"\x1b[99999999999999999999;1;2;1;0;1_"[..],
    ] {
        let keys = parse(raw);
        assert_eq!(keys.len(), 1, "{raw:?}");
        assert_eq!(keys[0].raw, raw.to_vec());
    }
}

#[test]
fn a_letter_terminates_a_csi_sequence() {
    // Per ECMA-48 the final byte is 0x40..=0x7e, so "\x1b[abc" is the
    // complete sequence "\x1b[a" followed by two ordinary characters.
    // Worth pinning: it is easy to mistake this for malformed input.
    let keys = parse(b"\x1b[abc");
    assert_eq!(keys.len(), 3);
    assert_eq!(keys[0].raw, b"\x1b[a".to_vec());
    assert_eq!(keys[0].ch, None);
    assert_eq!(keys[1].ch, Some(b'b'));
    assert_eq!(keys[2].ch, Some(b'c'));
}

#[test]
fn a_character_above_the_byte_range_is_not_a_prefix_candidate() {
    // U+20AC, outside what a single-byte prefix can express.
    let keys = parse(b"\x1b[0;0;8364;1;0;1_");
    assert_eq!(keys[0].ch, None);
}
