use wmux::session::{
    pipe_leaf_for, pipe_path_for, resolve_target, session_name_from_leaf, validate_name, MAX_NAME_LEN,
};

const SID: &str = "S-1-5-21-1111111111-2222222222-3333333333-1001";

#[test]
fn ordinary_names_are_accepted() {
    for name in ["build", "a", "my-session_2", "WMUX9"] {
        validate_name(name).unwrap_or_else(|e| panic!("{name} should be valid: {e:?}"));
    }
}

#[test]
fn empty_name_is_rejected() {
    assert!(validate_name("").is_err());
}

#[test]
fn overlong_name_is_rejected() {
    let name = "a".repeat(MAX_NAME_LEN + 1);
    assert!(validate_name(&name).is_err());
    assert!(validate_name(&"a".repeat(MAX_NAME_LEN)).is_ok());
}

#[test]
fn path_separators_and_dots_are_rejected() {
    // A name that escaped validation could redirect the pipe path.
    for name in [r"..\..\evil", "a/b", "a.b", "a b", "a\\b", "a\0b"] {
        assert!(validate_name(name).is_err(), "{name} should be rejected");
    }
}

#[test]
fn pipe_path_embeds_sid_and_name() {
    assert_eq!(
        pipe_path_for(SID, "build"),
        format!(r"\\.\pipe\wmux.{SID}.build")
    );
}

#[test]
fn leaf_roundtrips_through_session_name() {
    let leaf = pipe_leaf_for(SID, "build");
    assert_eq!(session_name_from_leaf(SID, &leaf).as_deref(), Some("build"));
}

#[test]
fn leaf_from_another_user_is_ignored() {
    let leaf = pipe_leaf_for("S-1-5-21-9-9-9-500", "build");
    assert_eq!(session_name_from_leaf(SID, &leaf), None);
}

#[test]
fn an_explicit_name_wins_over_the_environment() {
    let got = resolve_target(Some("chosen".into()), Some("ambient".into())).unwrap();
    assert_eq!(got, "chosen");
}

#[test]
fn the_ambient_session_is_used_when_no_name_is_given() {
    let got = resolve_target(None, Some("ambient".into())).unwrap();
    assert_eq!(got, "ambient");
}

#[test]
fn surrounding_whitespace_in_the_environment_is_ignored() {
    let got = resolve_target(None, Some("  ambient \n".into())).unwrap();
    assert_eq!(got, "ambient");
}

#[test]
fn outside_a_session_with_no_name_is_an_actionable_error() {
    for env in [None, Some(String::new()), Some("   ".into())] {
        let err = resolve_target(None, env).unwrap_err().message();
        assert!(
            err.contains("not running inside a wmux session"),
            "unhelpful error: {err}"
        );
        assert!(err.contains("wmux ls"), "should point somewhere: {err}");
    }
}

#[test]
fn a_bogus_ambient_session_name_is_rejected() {
    assert!(resolve_target(None, Some("../evil".into())).is_err());
}

#[test]
fn unrelated_pipes_are_ignored() {
    for leaf in ["chrome.sync", "wmux", "wmuxfoo", "wmux..build"] {
        assert_eq!(session_name_from_leaf(SID, leaf), None, "{leaf}");
    }
}
