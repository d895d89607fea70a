use wmux::input::{InputParser, Key};
use wmux::run::result_text;
use wmux::text::{
    begins_with, byte_hex, contains_text, decimal, has_char, hex, is_white_space, join, pad,
    parse_u32, same_text, signed, trim,
};
use wmux::wide::{from_wide, to_wide};

#[test]
fn white_space_is_that_of_unicode() {
    for u in 0..=0x10ffffu32 {
        if let Some(c) = char::from_u32(u) {
            assert_eq!(is_white_space(c), c.is_whitespace(), "{u:x}");
        }
    }
}

#[test]
fn trimming_is_that_of_the_standard_library() {
    for s in ["", " ", "a", "  a b \t\n", "\u{3000}x\u{85}", "\u{1c}x\u{1f}"] {
        assert_eq!(trim(s), s.trim());
    }
}

#[test]
fn numbers_are_written_and_read() {
    for n in [0u64, 7, 10, 99, 4096, u64::MAX] {
        assert_eq!(decimal(n), n.to_string());
        assert_eq!(hex(n as u128), format!("{n:x}"));
    }
    assert_eq!(hex(u128::MAX), format!("{:x}", u128::MAX));
    for n in [0, 5, -5, i32::MAX, i32::MIN] {
        assert_eq!(signed(n), n.to_string());
    }
    for b in 0..=255u8 {
        assert_eq!(byte_hex(b), format!("{b:02x}"));
    }
    for s in ["0", "42", "+42", "++1", "-1", "", "+", "4294967295", "4294967296", "1x", "٣"] {
        assert_eq!(parse_u32(s), s.parse::<u32>().ok(), "{s}");
    }
}

#[test]
fn texts_are_compared_and_joined() {
    assert!(same_text("añ", "añ") && !same_text("a", "ab") && !same_text("a", "b"));
    assert!(has_char("a\r", '\r') && !has_char("a", '\r'));
    for (s, part) in [("abc", "bc"), ("abc", ""), ("", ""), ("abc", "cd"), ("", "a"), ("aab", "ab")] {
        assert_eq!(contains_text(s, part), s.contains(part), "{s} {part}");
        assert_eq!(begins_with(s, part), s.starts_with(part), "{s} {part}");
    }
    assert_eq!(join(&vec!["a".into(), "b".into()], ", "), "a, b");
    assert_eq!(join(&vec![], ", "), "");
    assert_eq!(pad("ab", 4), "ab  ");
    assert_eq!(pad("abcde", 4), "abcde");
}

#[test]
fn wide_text_is_utf16() {
    for s in ["", "ab", "naïve ✓", "a😀b", "\u{ffff}\u{10000}\u{10ffff}"] {
        let mut expected: Vec<u16> = s.encode_utf16().collect();
        expected.push(0);
        assert_eq!(to_wide(s), expected);
        assert_eq!(from_wide(&expected), s);
    }
}

#[test]
fn broken_wide_text_is_repaired() {
    for units in [
        vec![0xd800u16, 0x41],
        vec![0xdc00],
        vec![0xd800],
        vec![0xd800, 0xd801, 0xdc01],
        vec![0x41, 0xdc00, 0xd800, 0x42],
    ] {
        assert_eq!(from_wide(&units), String::from_utf16_lossy(&units));
    }
    assert_eq!(from_wide(&[0x41, 0, 0x42]), "A");
}

#[test]
fn broken_utf8_is_repaired() {
    for bytes in [&b"plain"[..], &b"a\xffb"[..], &b"\xe2\x82"[..], &b"\xf0\x9f\x98\x80!"[..]] {
        assert_eq!(result_text(bytes), String::from_utf8_lossy(bytes));
    }
    assert_eq!(result_text(b"\xef\xbb\xbf{\"Success\":true}"), "{\"Success\":true}");
}

#[test]
fn a_broken_parameter_counts_as_zero() {
    // The character is a broken parameter, so the key has none.
    let keys = InputParser::new().feed(b"\x1b[66;48;2\xff;1;40;1_");
    assert_eq!(keys, vec![Key::opaque(b"\x1b[66;48;2\xff;1;40;1_")]);
    // White space around a number does not matter.
    let keys = InputParser::new().feed(b"\x1b[66;48; 2 ;1;40;1_");
    assert_eq!(keys[0].ch, Some(2));
}
