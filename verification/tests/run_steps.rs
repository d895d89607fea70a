use wmux::run::{
    result_text, run, sweep_stale_artifacts, timeout_message, unique_id, unreadable_message,
    wait_for_result, wrapper, Artifacts, Format, ResultStep, RunError, STALE_ARTIFACT_AGE,
};

#[test]
fn the_wrapper_is_exactly_this() {
    assert_eq!(
        wrapper("Get-Date", r"C:\T\o", r"C:\T\d", Format::Clixml, 2),
        "$__wmuxE=$null;try{$__wmuxO=@(Get-Date)}catch{$__wmuxO=$null;$__wmuxE=$_.ToString()};\
         $__wmuxR=[pscustomobject]@{Success=($null -eq $__wmuxE);Error=$__wmuxE;\
         ExitCode=$LASTEXITCODE;Output=$__wmuxO};\
         $__wmuxR|Export-Clixml -LiteralPath 'C:\\T\\o' -Depth 2;\
         New-Item -ItemType File -Path 'C:\\T\\d' -Force|Out-Null;\
         Remove-Variable __wmuxO,__wmuxE,__wmuxR -ErrorAction SilentlyContinue"
    );
    assert!(wrapper("x", "o", "d", Format::Json, 3).contains(
        "$__wmuxR|ConvertTo-Json -Depth 3 -Compress|Set-Content -LiteralPath 'o' -Encoding utf8;"
    ));
    assert!(wrapper("x", "o", "d", Format::Text, 3)
        .contains("($__wmuxR.Output|Out-String)|Set-Content -LiteralPath 'o' -Encoding utf8;"));
}

#[test]
fn commands_must_be_one_line() {
    assert_eq!(run(" \t ", "o", "d", Format::Json, 2).unwrap_err(), RunError::Blank);
    assert_eq!(run("\n", "o", "d", Format::Json, 2).unwrap_err(), RunError::Blank);
    for command in ["a\nb", "a\r", "\ra"] {
        assert_eq!(run(command, "o", "d", Format::Json, 2).unwrap_err(), RunError::NotOneLine);
    }
    assert_eq!(RunError::Blank.message(), "nothing to run");
    assert_eq!(
        RunError::NotOneLine.message(),
        "the command must be a single line; it is delivered as keystrokes"
    );
    let keys = run("x", "o", "d", Format::Json, 2).unwrap();
    assert_eq!(keys, wrapper("x", "o", "d", Format::Json, 2) + "\r");
}

#[test]
fn unknown_formats_are_named_in_the_error() {
    assert_eq!(
        Format::parse("YAML").unwrap_err(),
        "unknown format \"yaml\"; expected clixml, json, or text"
    );
    for format in [Format::Clixml, Format::Json, Format::Text] {
        assert_eq!(Format::parse(format.as_str()), Ok(format));
    }
    assert_eq!(Format::parse("String"), Ok(Format::Text));
}

#[test]
fn identifiers_are_readable() {
    assert_eq!(unique_id(42, 0xdeadbeef, 255), "42-deadbeef-ff");
    let artifacts = Artifacts::new("42-1-0");
    assert_eq!(artifacts.out, "wmux-run-42-1-0.out");
    assert_eq!(artifacts.done, "wmux-run-42-1-0.done");
}

#[test]
fn only_old_artifacts_are_swept() {
    assert!(sweep_stale_artifacts("wmux-run-1-2-3.out", Some(STALE_ARTIFACT_AGE + 1)));
    assert!(!sweep_stale_artifacts("wmux-run-1-2-3.out", Some(STALE_ARTIFACT_AGE)));
    assert!(!sweep_stale_artifacts("wmux-run-1-2-3.out", None));
    assert!(!sweep_stale_artifacts("other-wmux-run-", Some(u128::MAX)));
}

#[test]
fn the_payload_is_read_once_the_marker_is_there() {
    assert_eq!(wait_for_result(false, false), ResultStep::Pause);
    assert_eq!(wait_for_result(false, true), ResultStep::Read);
    assert_eq!(wait_for_result(true, true), ResultStep::GiveUp);
    assert_eq!(result_text("\u{feff}\u{feff}x".as_bytes()), "\u{feff}x");
    assert_eq!(
        unreadable_message("f"),
        "the session signalled completion but f could not be read"
    );
    assert!(timeout_message("2s").starts_with("the session did not finish within 2s.\nIt may"));
}
