use std::str::FromStr;

use wmux::run::{ps_single_quote, strip_bom, unique_id, wrapper, Format, DEFAULT_DEPTH};

#[test]
fn plain_strings_are_wrapped_in_single_quotes() {
    assert_eq!(ps_single_quote(r"C:\Temp\a.out"), r"'C:\Temp\a.out'");
}

#[test]
fn embedded_quotes_are_doubled() {
    assert_eq!(ps_single_quote("it's"), "'it''s'");
    // A path crafted to break out of the literal stays inside it.
    assert_eq!(
        ps_single_quote("';Remove-Item C:\\ -Recurse;'"),
        "''';Remove-Item C:\\ -Recurse;'''"
    );
}

#[test]
fn backslashes_are_not_escapes_in_powershell_literals() {
    assert_eq!(ps_single_quote(r"a\b"), r"'a\b'");
}

#[test]
fn formats_parse_from_their_names() {
    assert_eq!(Format::from_str("json").unwrap(), Format::Json);
    assert_eq!(Format::from_str("CLIXML").unwrap(), Format::Clixml);
    assert_eq!(Format::from_str("xml").unwrap(), Format::Clixml);
    assert_eq!(Format::from_str("text").unwrap(), Format::Text);
    assert!(Format::from_str("yaml").is_err());
}

#[test]
fn the_wrapper_is_a_single_line() {
    let line = wrapper(
        "Get-Process",
        r"C:\Temp\o",
        r"C:\Temp\d",
        Format::Json,
        4,
    );
    assert!(
        !line.contains('\n') && !line.contains('\r'),
        "a newline would submit the command early: {line}"
    );
}

#[test]
fn the_wrapper_contains_the_command_and_both_paths() {
    let line = wrapper(
        "1..3",
        r"C:\Temp\o",
        r"C:\Temp\d",
        Format::Clixml,
        2,
    );
    assert!(line.contains("1..3"));
    assert!(line.contains(r"'C:\Temp\o'"));
    assert!(line.contains(r"'C:\Temp\d'"));
    assert!(line.contains("Export-Clixml"));
}

#[test]
fn each_format_selects_its_own_serialiser() {
    let paths = ("o", "d");
    let json = wrapper("x", paths.0, paths.1, Format::Json, 3);
    assert!(json.contains("ConvertTo-Json") && json.contains("-Depth 3"));

    let text = wrapper("x", paths.0, paths.1, Format::Text, 3);
    assert!(text.contains("Out-String") && !text.contains("ConvertTo-Json"));
}

#[test]
fn the_completion_marker_is_written_after_the_payload() {
    let line = wrapper(
        "x",
        "payload",
        "marker",
        Format::Json,
        2,
    );
    let payload_at = line.find("'payload'").expect("payload path");
    let marker_at = line.find("'marker'").expect("marker path");
    assert!(
        payload_at < marker_at,
        "reading the payload before it is flushed would be a race"
    );
}

#[test]
fn the_default_depth_matches_powershell() {
    // Not a style choice. `dir` serialised at depth 8 produced 688 MB of
    // CLIXML and looked like a hung session, because FileInfo.Directory
    // leads to DirectoryInfo.Parent and onward. Export-Clixml defaults to
    // 2 for the same reason.
    assert_eq!(DEFAULT_DEPTH, 2);
}

#[test]
fn the_wrapper_uses_the_depth_it_is_given() {
    let json = wrapper("x", "o", "d", Format::Json, 2);
    assert!(json.contains("-Depth 2"));
    let clixml = wrapper("x", "o", "d", Format::Clixml, 5);
    assert!(clixml.contains("-Depth 5"));
}

#[test]
fn identifiers_do_not_repeat() {
    let a = unique_id(7, 123_456_789, 0);
    let b = unique_id(7, 123_456_789, 1);
    assert_ne!(a, b);
}

#[test]
fn a_bom_is_stripped() {
    assert_eq!(strip_bom("\u{feff}{}"), "{}");
    assert_eq!(strip_bom("{}"), "{}");
}
