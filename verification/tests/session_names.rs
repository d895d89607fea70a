use wmux::session::{
    current_user_sid, has_name, list_sessions, next_free_name, pipe_leaf_for, pipe_path,
    resolve_target, session_exists, validate_name, NameError, TargetError, SESSION_ENV,
};
use wmux::wide::to_wide;

const SID: &str = "S-1-5-21-1111111111-2222222222-3333333333-1001";

fn names(all: &[&str]) -> Vec<String> {
    all.iter().map(|n| n.to_string()).collect()
}

#[test]
fn each_kind_of_bad_name_has_its_error() {
    assert_eq!(validate_name(""), Err(NameError::Empty));
    assert_eq!(validate_name(&"é".repeat(33)), Err(NameError::TooLong(66)));
    assert_eq!(validate_name("a.b/c"), Err(NameError::BadChar('.')));
    assert_eq!(NameError::Empty.message(), "session name must not be empty");
    assert_eq!(
        NameError::TooLong(66).message(),
        "session name is 66 characters; the maximum is 64"
    );
    assert_eq!(
        NameError::BadChar('\0').message(),
        "session name contains '\\0'; only letters, digits, '-' and '_' are allowed"
    );
    assert_eq!(pipe_path(SID, "build").unwrap(), format!(r"\\.\pipe\wmux.{SID}.build"));
    assert_eq!(pipe_path(SID, "a b"), Err(NameError::BadChar(' ')));
}

#[test]
fn the_listing_is_sorted_and_scoped() {
    let leaves = vec![
        pipe_leaf_for(SID, "work"),
        "chrome.sync".to_string(),
        pipe_leaf_for("S-1-5-18", "theirs"),
        pipe_leaf_for(SID, "build"),
        pipe_leaf_for(SID, "Build"),
        pipe_leaf_for(SID, "build"),
        pipe_leaf_for(SID, "buil"),
    ];
    assert_eq!(list_sessions(SID, &leaves), names(&["Build", "buil", "build", "work"]));
    assert_eq!(list_sessions("S-1-5-18", &leaves), names(&["theirs"]));
    assert_eq!(session_exists(SID, &leaves, "work"), Ok(true));
    assert_eq!(session_exists(SID, &leaves, "theirs"), Ok(false));
    assert_eq!(session_exists(SID, &leaves, ""), Err(NameError::Empty));
    assert!(has_name(&names(&["a", "b"]), "b") && !has_name(&names(&["a"]), "b"));
}

#[test]
fn generated_names_fill_the_gaps() {
    assert_eq!(next_free_name(&names(&[])), "wmux-0");
    assert_eq!(next_free_name(&names(&["wmux-0", "wmux-2"])), "wmux-1");
    let many: Vec<String> = (0..12).map(|n| format!("wmux-{n}")).collect();
    assert_eq!(next_free_name(&many), "wmux-12");
}

#[test]
fn targets_fail_with_their_reason() {
    assert_eq!(
        resolve_target(Some("".into()), Some("ambient".into())),
        Err(TargetError::Name(NameError::Empty))
    );
    assert_eq!(resolve_target(None, None), Err(TargetError::OutsideSession));
    assert_eq!(
        resolve_target(None, Some("a b".into())).unwrap_err().message(),
        NameError::BadChar(' ').message()
    );
    assert_eq!(SESSION_ENV, "WMUX_SESSION");
}

#[test]
fn the_sid_ends_at_the_nul() {
    let mut units = to_wide(SID);
    units.extend_from_slice(&[0x41, 0x42]);
    assert_eq!(current_user_sid(&units), SID);
}
