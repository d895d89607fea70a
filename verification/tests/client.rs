use wmux::client::{parse_prefix, DetachDetector, DEFAULT_PREFIX};

fn detector() -> DetachDetector {
    DetachDetector::new(DEFAULT_PREFIX)
}

#[test]
fn ordinary_typing_passes_straight_through() {
    let (out, detach) = detector().feed(b"echo hello\r");
    assert_eq!(out, b"echo hello\r");
    assert!(!detach);
}

#[test]
fn prefix_then_d_detaches_and_forwards_nothing() {
    let mut d = detector();
    let (out, detach) = d.feed(&[DEFAULT_PREFIX, b'd']);
    assert!(out.is_empty());
    assert!(detach);
}

#[test]
fn uppercase_d_also_detaches() {
    let mut d = detector();
    let (_, detach) = d.feed(&[DEFAULT_PREFIX, b'D']);
    assert!(detach);
}

#[test]
fn prefix_split_across_reads_still_detaches() {
    // The prefix and the key routinely land in different console reads.
    let mut d = detector();
    let (out, detach) = d.feed(&[DEFAULT_PREFIX]);
    assert!(out.is_empty());
    assert!(!detach);
    let (out, detach) = d.feed(b"d");
    assert!(out.is_empty());
    assert!(detach);
}

#[test]
fn doubled_prefix_sends_one_literal_prefix() {
    let mut d = detector();
    let (out, detach) = d.feed(&[DEFAULT_PREFIX, DEFAULT_PREFIX]);
    assert_eq!(out, vec![DEFAULT_PREFIX]);
    assert!(!detach);
}

#[test]
fn prefix_followed_by_an_unbound_key_forwards_both() {
    let mut d = detector();
    let (out, detach) = d.feed(&[DEFAULT_PREFIX, b'x']);
    assert_eq!(out, vec![DEFAULT_PREFIX, b'x']);
    assert!(!detach);
}

#[test]
fn text_before_the_detach_is_still_forwarded() {
    let mut d = detector();
    let (out, detach) = d.feed(&[b'h', b'i', DEFAULT_PREFIX, b'd']);
    assert_eq!(out, b"hi");
    assert!(detach);
}

#[test]
fn arrow_key_escape_sequences_are_untouched() {
    let mut d = detector();
    let (out, detach) = d.feed(b"\x1b[A\x1b[B\x1b[C\x1b[D");
    assert_eq!(out, b"\x1b[A\x1b[B\x1b[C\x1b[D");
    assert!(!detach);
}

#[test]
fn ctrl_c_is_forwarded_not_intercepted() {
    let mut d = detector();
    let (out, detach) = d.feed(&[0x03]);
    assert_eq!(out, vec![0x03]);
    assert!(!detach);
}

// The sequences below were captured from a real Windows Terminal session.
// Windows Terminal negotiates win32-input-mode, so keys arrive as escape
// sequences rather than bare bytes, which is what broke detaching.
const CTRL_DOWN: &[u8] = b"\x1b[17;29;0;1;40;1_";
const CTRL_UP: &[u8] = b"\x1b[17;29;0;0;32;1_";
const B_DOWN_CTRL: &[u8] = b"\x1b[66;48;2;1;40;1_";
const B_UP_CTRL: &[u8] = b"\x1b[66;48;2;0;40;1_";
const D_DOWN: &[u8] = b"\x1b[68;32;100;1;32;1_";
const D_UP: &[u8] = b"\x1b[68;32;100;0;32;1_";

#[test]
fn win32_input_mode_ctrl_b_then_d_detaches() {
    let mut d = detector();
    let mut all = Vec::new();
    all.extend_from_slice(CTRL_DOWN);
    all.extend_from_slice(B_DOWN_CTRL);
    all.extend_from_slice(B_UP_CTRL);
    all.extend_from_slice(CTRL_UP);
    all.extend_from_slice(D_DOWN);

    let (forward, detach) = d.feed(&all);
    assert!(detach, "Ctrl-B then d must detach in win32-input-mode");
    // The B and d keystrokes must not reach the session.
    assert!(
        !contains(&forward, B_DOWN_CTRL),
        "the prefix leaked to the session"
    );
    assert!(!contains(&forward, D_DOWN), "the detach key leaked");
}

#[test]
fn win32_input_mode_releases_do_not_cancel_the_prefix() {
    // The release of Ctrl-B arrives before 'd' is pressed. If that
    // disarmed the detector, detaching would be impossible.
    let mut d = detector();
    let (_, detach) = d.feed(B_DOWN_CTRL);
    assert!(!detach);
    let (out, detach) = d.feed(B_UP_CTRL);
    assert!(!detach, "a key release must not resolve the binding");
    assert!(out.is_empty(), "the release should be held, not forwarded");
    let (_, detach) = d.feed(D_DOWN);
    assert!(detach, "the sequence should still complete");
}

#[test]
fn win32_input_mode_ordinary_typing_is_forwarded_verbatim() {
    let mut d = detector();
    let (forward, detach) = d.feed(D_DOWN);
    assert!(!detach);
    assert_eq!(
        forward,
        D_DOWN.to_vec(),
        "keys the session should see must pass through byte for byte"
    );
}

#[test]
fn win32_input_mode_prefix_then_unbound_key_replays_both() {
    let mut d = detector();
    let mut all = Vec::new();
    all.extend_from_slice(B_DOWN_CTRL);
    all.extend_from_slice(B_UP_CTRL);
    // 'x' is not a binding, so the whole thing must reach the session.
    let x_down = b"\x1b[88;45;120;1;32;1_";
    all.extend_from_slice(x_down);

    let (forward, detach) = d.feed(&all);
    assert!(!detach);
    assert!(contains(&forward, B_DOWN_CTRL), "prefix should be replayed");
    assert!(contains(&forward, x_down), "the key should be replayed");
    let prefix_at = find(&forward, B_DOWN_CTRL).unwrap();
    let x_at = find(&forward, x_down).unwrap();
    assert!(prefix_at < x_at, "replay must preserve typing order");
}

#[test]
fn win32_input_mode_doubled_prefix_sends_one_literal() {
    let mut d = detector();
    let mut all = Vec::new();
    all.extend_from_slice(B_DOWN_CTRL);
    all.extend_from_slice(B_UP_CTRL);
    all.extend_from_slice(B_DOWN_CTRL);

    let (forward, detach) = d.feed(&all);
    assert!(!detach);
    assert_eq!(
        count(&forward, B_DOWN_CTRL),
        1,
        "exactly one literal prefix should reach the session"
    );
}

#[test]
fn win32_input_mode_uppercase_d_also_detaches() {
    let mut d = detector();
    d.feed(B_DOWN_CTRL);
    // Shift-D: char 68 = 'D'.
    let (_, detach) = d.feed(b"\x1b[68;32;68;1;48;1_");
    assert!(detach);
}

#[test]
fn win32_input_mode_key_up_of_d_alone_does_nothing() {
    let mut d = detector();
    let (forward, detach) = d.feed(D_UP);
    assert!(!detach);
    assert_eq!(forward, D_UP.to_vec());
}

fn find(haystack: &[u8], needle: &[u8]) -> Option<usize> {
    haystack
        .windows(needle.len())
        .position(|window| window == needle)
}

fn contains(haystack: &[u8], needle: &[u8]) -> bool {
    find(haystack, needle).is_some()
}

fn count(haystack: &[u8], needle: &[u8]) -> usize {
    haystack
        .windows(needle.len())
        .filter(|window| *window == needle)
        .count()
}

#[test]
fn default_prefix_matches_tmux() {
    assert_eq!(DEFAULT_PREFIX, 0x02, "tmux uses Ctrl-B");
}

#[test]
fn caret_notation_parses_to_control_bytes() {
    assert_eq!(parse_prefix("^B"), Some(0x02));
    assert_eq!(parse_prefix("^b"), Some(0x02));
    assert_eq!(parse_prefix("^A"), Some(0x01));
    // ^\ is 0x1C, the other common multiplexer prefix.
    assert_eq!(parse_prefix(r"^\"), Some(0x1C));
}

#[test]
fn literal_control_byte_parses() {
    assert_eq!(parse_prefix("\x02"), Some(0x02));
}

#[test]
fn nonsense_prefixes_are_rejected() {
    for raw in ["", "hello", "^", "abc", "^^^"] {
        assert_eq!(parse_prefix(raw), None, "{raw:?}");
    }
}

#[test]
fn a_custom_prefix_detaches_on_d() {
    let mut d = DetachDetector::new(0x01);
    let (out, detach) = d.feed(&[0x01, b'd']);
    assert!(out.is_empty());
    assert!(detach);
    // ...and Ctrl-B is now just ordinary input.
    let mut d = DetachDetector::new(0x01);
    let (out, detach) = d.feed(&[0x02]);
    assert_eq!(out, vec![0x02]);
    assert!(!detach);
}
