//! Structured command execution inside a PowerShell session.
//!
//! `wmux send` types keystrokes; `wmux capture` scrapes the rendered screen. Neither is a good way
//! to get a *result* out of PowerShell: the screen is wrapped to the terminal width, what scrolls
//! off is gone, everything is text, and the echo of the input is interleaved with the output.
//!
//! So `run` does not use the screen at all. It types a wrapper that serialises the pipeline to a
//! temporary file and then touches a second file to signal completion. The client polls for the
//! completion marker and reads the payload off disk. The terminal is only ever the transport for
//! the *command*, never for the result.
//!
//! This is the one PowerShell-specific part. A session running something else can still use `send`
//! and `capture`.

use vstd::prelude::*;

use crate::text;
use crate::utf8;

verus! {

/// How the pipeline is serialised on the session side.
#[derive(Debug, Clone, Copy, PartialEq, Eq, Structural)]
pub enum Format {
    /// PowerShell's own serialisation. Round-trips types through `Import-Clixml`, so the caller
    /// gets real objects back.
    Clixml,
    /// Compact JSON. Lossier than CLIXML but readable by anything.
    Json,
    /// `Out-String` output, for when you just want what it looked like.
    Text,
}

/// A character with an upper case ASCII letter made lower case.
pub open spec fn lower_char(c: char) -> char {
    if 'A' <= c <= 'Z' {
        (c as u32 + 0x20) as char
    } else {
        c
    }
}

/// A text with its upper case ASCII letters made lower case.
pub open spec fn lowered(s: Seq<char>) -> Seq<char> {
    Seq::new(s.len(), |i: int| lower_char(s[i]))
}

/// Makes an upper case ASCII letter lower case.
fn lower(c: char) -> (l: char)
    ensures
        l == lower_char(c),
{
    if 'A' <= c && c <= 'Z' {
        (c as u8 + 0x20) as char
    } else {
        c
    }
}

/// Makes upper case ASCII letters lower case.
fn to_lower(s: &str) -> (l: String)
    ensures
        l@ == lowered(s@),
{
    let chars: Vec<char> = text::chars_of(s);
    let mut l: String = String::new();
    let mut i: usize = 0;
    while i < chars.len()
        invariant
            i <= chars.len(),
            chars@ == s@,
            l@ == lowered(s@).take(i as int),
        decreases chars.len() - i,
    {
        l.push(lower(chars[i]));
        assert(lowered(s@).take(i + 1) == lowered(s@).take(i as int).push(lowered(s@)[i as int]));
        i += 1;
    }
    assert(lowered(s@).take(chars.len() as int) == lowered(s@));
    l
}

impl Format {
    /// The name of the format.
    pub open spec fn name(self) -> Seq<char> {
        match self {
            Format::Clixml => "clixml"@,
            Format::Json => "json"@,
            Format::Text => "text"@,
        }
    }

    /// The format that a text names, in any case.
    pub open spec fn named(s: Seq<char>) -> Option<Format> {
        let l = lowered(s);
        if l == "clixml"@ || l == "xml"@ {
            Some(Format::Clixml)
        } else if l == "json"@ {
            Some(Format::Json)
        } else if l == "text"@ || l == "string"@ {
            Some(Format::Text)
        } else {
            None
        }
    }

    /// The name of the format.
    pub fn as_str(self) -> (name: &'static str)
        ensures
            name@ == self.name(),
    {
        match self {
            Format::Clixml => "clixml",
            Format::Json => "json",
            Format::Text => "text",
        }
    }

    /// The format that a text names, in any case, or what to tell the user.
    pub fn parse(s: &str) -> (format: Result<Format, String>)
        ensures
            match Format::named(s@) {
                Some(f) => format == Ok::<Format, String>(f),
                None => format matches Err(message) && message@ == "unknown format "@
                    + text::quoted_text(lowered(s@)) + "; expected clixml, json, or text"@,
            },
    {
        let l: String = to_lower(s);
        if text::same_text(l.as_str(), "clixml") || text::same_text(l.as_str(), "xml") {
            Ok(Format::Clixml)
        } else if text::same_text(l.as_str(), "json") {
            Ok(Format::Json)
        } else if text::same_text(l.as_str(), "text") || text::same_text(l.as_str(), "string") {
            Ok(Format::Text)
        } else {
            let mut message: String = "unknown format ".to_owned();
            message.append(text::quote_text(l.as_str()).as_str());
            message.append("; expected clixml, json, or text");
            Err(message)
        }
    }
}

impl std::str::FromStr for Format {
    type Err = String;

    fn from_str(s: &str) -> (format: Result<Format, String>)
        ensures
            match Format::named(s@) {
                Some(f) => format == Ok::<Format, String>(f),
                None => format matches Err(message) && message@ == "unknown format "@
                    + text::quoted_text(lowered(s@)) + "; expected clixml, json, or text"@,
            },
    {
        Format::parse(s)
    }
}

/// Every format is named by its name.
pub proof fn law_formats_parse_from_their_names(format: Format)
    ensures
        Format::named(format.name()) == Some(format),
{
    reveal_strlit("clixml");
    reveal_strlit("json");
    reveal_strlit("text");
    reveal_strlit("xml");
    reveal_strlit("string");
    let name = format.name();
    assert forall|i: int| 0 <= i < name.len() implies lower_char(#[trigger] name[i]) == name[i] by {}
    assert(lowered(name) == name);
    match format {
        Format::Clixml => {},
        Format::Json => {
            assert(name.len() == 4);
        },
        Format::Text => {
            assert(name.len() == 4);
            assert("json"@[0] != "text"@[0]);
        },
    }
}

/// A text with its single quotes doubled.
pub open spec fn quotes_doubled(s: Seq<char>) -> Seq<char>
    decreases s.len(),
{
    if s.len() == 0 {
        Seq::empty()
    } else if s.last() == '\'' {
        quotes_doubled(s.drop_last()) + seq!['\'', '\'']
    } else {
        quotes_doubled(s.drop_last()).push(s.last())
    }
}

/// A text as a PowerShell single-quoted literal.
pub open spec fn single_quoted(s: Seq<char>) -> Seq<char> {
    seq!['\''] + quotes_doubled(s) + seq!['\'']
}

/// Escapes a string for embedding in a PowerShell single-quoted literal.
///
/// Single-quoted strings in PowerShell have exactly one escape: a doubled quote. No backslash
/// processing, no interpolation.
pub fn ps_single_quote(value: &str) -> (literal: String)
    ensures
        literal@ == single_quoted(value@),
{
    let chars: Vec<char> = text::chars_of(value);
    let mut literal: String = String::new();
    literal.push('\'');
    assert(literal@ == seq!['\''] + quotes_doubled(value@.take(0)));
    let mut i: usize = 0;
    while i < chars.len()
        invariant
            i <= chars.len(),
            chars@ == value@,
            literal@ == seq!['\''] + quotes_doubled(value@.take(i as int)),
        decreases chars.len() - i,
    {
        let c: char = chars[i];
        let ghost before = quotes_doubled(value@.take(i as int));
        assert(value@.take(i + 1).drop_last() == value@.take(i as int));
        if c == '\'' {
            literal.push('\'');
            literal.push('\'');
            assert(literal@ == seq!['\''] + (before + seq!['\'', '\'']));
        } else {
            literal.push(c);
            assert(literal@ == seq!['\''] + before.push(c));
        }
        i += 1;
    }
    assert(value@.take(chars.len() as int) == value@);
    literal.push('\'');
    assert(literal@ == single_quoted(value@));
    literal
}

/// What PowerShell reads of a single-quoted literal whose opening quote is behind it: the value,
/// and what follows the literal. A doubled quote is a quote, and a single one ends the literal.
pub open spec fn literal_tail(s: Seq<char>) -> Option<(Seq<char>, Seq<char>)>
    decreases s.len(),
{
    if s.len() == 0 {
        None
    } else if s[0] != '\'' {
        match literal_tail(s.skip(1)) {
            Some((value, rest)) => Some((seq![s[0]] + value, rest)),
            None => None,
        }
    } else if s.len() > 1 && s[1] == '\'' {
        match literal_tail(s.skip(2)) {
            Some((value, rest)) => Some((seq!['\''] + value, rest)),
            None => None,
        }
    } else {
        Some((Seq::empty(), s.skip(1)))
    }
}

/// What PowerShell reads of a text that starts with a single-quoted literal.
pub open spec fn literal_read(s: Seq<char>) -> Option<(Seq<char>, Seq<char>)> {
    if s.len() > 0 && s[0] == '\'' {
        literal_tail(s.skip(1))
    } else {
        None
    }
}

/// The doubled quotes of the first character stand first.
proof fn lemma_quotes_doubled_first(s: Seq<char>)
    requires
        s.len() > 0,
    ensures
        s.first() == '\'' ==> quotes_doubled(s) == seq!['\'', '\''] + quotes_doubled(
            s.drop_first(),
        ),
        s.first() != '\'' ==> quotes_doubled(s) == seq![s.first()] + quotes_doubled(s.drop_first()),
    decreases s.len(),
{
    let front = if s.first() == '\'' {
        seq!['\'', '\'']
    } else {
        seq![s.first()]
    };
    if s.len() == 1 {
        assert(s.drop_last() == Seq::<char>::empty());
        assert(s.drop_first() == Seq::<char>::empty());
        assert(quotes_doubled(Seq::<char>::empty()) == Seq::<char>::empty());
        assert(quotes_doubled(s) == front + Seq::<char>::empty());
    } else {
        lemma_quotes_doubled_first(s.drop_last());
        assert(s.drop_last().drop_first() == s.drop_first().drop_last());
        let middle = quotes_doubled(s.drop_first().drop_last());
        if s.last() == '\'' {
            assert((front + middle) + seq!['\'', '\''] == front + (middle + seq!['\'', '\'']));
        } else {
            assert((front + middle).push(s.last()) == front + middle.push(s.last()));
        }
    }
}

proof fn lemma_literal_tail(value: Seq<char>, rest: Seq<char>)
    requires
        rest.len() > 0 ==> rest[0] != '\'',
    ensures
        literal_tail(quotes_doubled(value) + (seq!['\''] + rest)) == Some((value, rest)),
    decreases value.len(),
{
    let s = quotes_doubled(value) + (seq!['\''] + rest);
    if value.len() == 0 {
        assert(value == Seq::<char>::empty());
        assert(s == seq!['\''] + rest);
        assert(s.skip(1) == rest);
    } else {
        lemma_quotes_doubled_first(value);
        lemma_literal_tail(value.drop_first(), rest);
        let inner = quotes_doubled(value.drop_first()) + (seq!['\''] + rest);
        assert(value == seq![value.first()] + value.drop_first());
        if value.first() == '\'' {
            assert(s[0] == '\'' && s[1] == '\'');
            assert(s.skip(2) == inner);
        } else {
            assert(s[0] == value.first());
            assert(s.skip(1) == inner);
        }
    }
}

/// Whatever is quoted stays inside the literal: PowerShell reads exactly the value, and goes on
/// behind the closing quote.
pub proof fn law_quoted_text_stays_inside_the_literal(value: Seq<char>, rest: Seq<char>)
    requires
        rest.len() > 0 ==> rest[0] != '\'',
    ensures
        literal_read(single_quoted(value) + rest) == Some((value, rest)),
{
    let s = single_quoted(value) + rest;
    assert(s.skip(1) == quotes_doubled(value) + (seq!['\''] + rest));
    lemma_literal_tail(value, rest);
}

/// Runs the command and gathers what came of it.
///
/// `$__wmuxE` is left undefined on success, which is what `Success` tests. `@(...)` forces array
/// semantics so a single result and a collection serialise the same shape.
pub open spec fn capture_text(command: Seq<char>) -> Seq<char> {
    "$__wmuxE=$null;try{$__wmuxO=@("@ + command
        + ")}catch{$__wmuxO=$null;$__wmuxE=$_.ToString()};$__wmuxR=[pscustomobject]@{Success=($null -eq $__wmuxE);Error=$__wmuxE;ExitCode=$LASTEXITCODE;Output=$__wmuxO};"@
}

/// Writes the result to the payload file.
pub open spec fn serialise_text(out: Seq<char>, format: Format, depth: u32) -> Seq<char> {
    match format {
        Format::Clixml => "$__wmuxR|Export-Clixml -LiteralPath "@ + single_quoted(out)
            + " -Depth "@ + text::decimal_text(depth as nat) + ";"@,
        Format::Json => "$__wmuxR|ConvertTo-Json -Depth "@ + text::decimal_text(depth as nat)
            + " -Compress|Set-Content -LiteralPath "@ + single_quoted(out) + " -Encoding utf8;"@,
        Format::Text => "($__wmuxR.Output|Out-String)|Set-Content -LiteralPath "@ + single_quoted(
            out,
        ) + " -Encoding utf8;"@,
    }
}

/// Writes the completion marker and cleans up.
pub open spec fn finish_text(done: Seq<char>) -> Seq<char> {
    "New-Item -ItemType File -Path "@ + single_quoted(done)
        + " -Force|Out-Null;Remove-Variable __wmuxO,__wmuxE,__wmuxR -ErrorAction SilentlyContinue"@
}

/// The line that is typed into the session.
///
/// The completion marker is written last and separately, so that nobody reads a payload that is
/// still being flushed.
pub open spec fn wrapper_text(
    command: Seq<char>,
    out: Seq<char>,
    done: Seq<char>,
    format: Format,
    depth: u32,
) -> Seq<char> {
    capture_text(command) + serialise_text(out, format, depth) + finish_text(done)
}

/// Builds the one-line wrapper that is typed into the session.
///
/// Everything is on a single line because it is delivered as keystrokes, and a newline would
/// submit the command early.
pub fn wrapper(command: &str, out: &str, done: &str, format: Format, depth: u32) -> (line: String)
    ensures
        line@ == wrapper_text(command@, out@, done@, format, depth),
{
    let out_literal: String = ps_single_quote(out);
    let done_literal: String = ps_single_quote(done);
    let mut line: String = "$__wmuxE=$null;try{$__wmuxO=@(".to_owned();
    line.append(command);
    line.append(
        ")}catch{$__wmuxO=$null;$__wmuxE=$_.ToString()};$__wmuxR=[pscustomobject]@{Success=($null -eq $__wmuxE);Error=$__wmuxE;ExitCode=$LASTEXITCODE;Output=$__wmuxO};",
    );
    let mut serialise: String = String::new();
    match format {
        Format::Clixml => {
            serialise.append("$__wmuxR|Export-Clixml -LiteralPath ");
            serialise.append(out_literal.as_str());
            serialise.append(" -Depth ");
            serialise.append(text::decimal(depth as u64).as_str());
            serialise.append(";");
        },
        Format::Json => {
            serialise.append("$__wmuxR|ConvertTo-Json -Depth ");
            serialise.append(text::decimal(depth as u64).as_str());
            serialise.append(" -Compress|Set-Content -LiteralPath ");
            serialise.append(out_literal.as_str());
            serialise.append(" -Encoding utf8;");
        },
        Format::Text => {
            serialise.append("($__wmuxR.Output|Out-String)|Set-Content -LiteralPath ");
            serialise.append(out_literal.as_str());
            serialise.append(" -Encoding utf8;");
        },
    }
    assert(serialise@ == serialise_text(out@, format, depth));
    let mut finish: String = "New-Item -ItemType File -Path ".to_owned();
    finish.append(done_literal.as_str());
    finish.append(
        " -Force|Out-Null;Remove-Variable __wmuxO,__wmuxE,__wmuxR -ErrorAction SilentlyContinue",
    );
    line.append(serialise.as_str());
    line.append(finish.as_str());
    line
}

/// Doubling quotes adds no end of a line.
proof fn lemma_quoted_one_line(s: Seq<char>)
    requires
        text::one_line(s),
    ensures
        text::one_line(single_quoted(s)),
{
    lemma_doubled_one_line(s);
    assert(text::one_line(seq!['\'']));
    text::lemma_one_line_joined(seq!['\''], quotes_doubled(s));
    text::lemma_one_line_joined(seq!['\''] + quotes_doubled(s), seq!['\'']);
}

proof fn lemma_doubled_one_line(s: Seq<char>)
    requires
        text::one_line(s),
    ensures
        text::one_line(quotes_doubled(s)),
    decreases s.len(),
{
    if s.len() > 0 {
        let front = s.drop_last();
        assert forall|c: char| front.contains(c) implies s.contains(c) by {
            let i = choose|i: int| 0 <= i < front.len() && front[i] == c;
            assert(s[i] == c);
        }
        lemma_doubled_one_line(front);
        assert(s.contains(s[s.len() - 1]));
        let back = if s.last() == '\'' {
            seq!['\'', '\'']
        } else {
            seq![s.last()]
        };
        assert(text::one_line(back));
        text::lemma_one_line_joined(quotes_doubled(front), back);
        assert(quotes_doubled(front).push(s.last()) == quotes_doubled(front) + seq![s.last()]);
    }
}

/// The digits of a number are on one line.
proof fn lemma_decimal_one_line(n: nat)
    ensures
        text::one_line(text::decimal_text(n)),
{
    text::lemma_decimal_text(n);
    let t = text::decimal_text(n);
    assert forall|c: char| t.contains(c) implies text::decimal_digit(c) by {
        let i = choose|i: int| 0 <= i < t.len() && t[i] == c;
        assert(text::decimal_digit(t[i]));
    }
}

proof fn lemma_capture_one_line(command: Seq<char>)
    requires
        text::one_line(command),
    ensures
        text::one_line(capture_text(command)),
{
    let a = "$__wmuxE=$null;try{$__wmuxO=@("@;
    let b =
        ")}catch{$__wmuxO=$null;$__wmuxE=$_.ToString()};$__wmuxR=[pscustomobject]@{Success=($null -eq $__wmuxE);Error=$__wmuxE;ExitCode=$LASTEXITCODE;Output=$__wmuxO};"@;
    assert(text::one_line(a)) by {
        reveal_strlit("$__wmuxE=$null;try{$__wmuxO=@(");
    }
    assert(text::one_line(b)) by {
        reveal_strlit(
            ")}catch{$__wmuxO=$null;$__wmuxE=$_.ToString()};$__wmuxR=[pscustomobject]@{Success=($null -eq $__wmuxE);Error=$__wmuxE;ExitCode=$LASTEXITCODE;Output=$__wmuxO};",
        );
    }
    text::lemma_one_line_joined(a, command);
    text::lemma_one_line_joined(a + command, b);
}

proof fn lemma_serialise_one_line(out: Seq<char>, format: Format, depth: u32)
    requires
        text::one_line(out),
    ensures
        text::one_line(serialise_text(out, format, depth)),
{
    let literal = single_quoted(out);
    let digits = text::decimal_text(depth as nat);
    lemma_quoted_one_line(out);
    lemma_decimal_one_line(depth as nat);
    match format {
        Format::Clixml => {
            let a = "$__wmuxR|Export-Clixml -LiteralPath "@;
            assert(text::one_line(a)) by {
                reveal_strlit("$__wmuxR|Export-Clixml -LiteralPath ");
            }
            assert(text::one_line(" -Depth "@)) by {
                reveal_strlit(" -Depth ");
            }
            assert(text::one_line(";"@)) by {
                reveal_strlit(";");
            }
            text::lemma_one_line_joined(a, literal);
            text::lemma_one_line_joined(a + literal, " -Depth "@);
            text::lemma_one_line_joined(a + literal + " -Depth "@, digits);
            text::lemma_one_line_joined(a + literal + " -Depth "@ + digits, ";"@);
        },
        Format::Json => {
            let a = "$__wmuxR|ConvertTo-Json -Depth "@;
            let b = " -Compress|Set-Content -LiteralPath "@;
            let c = " -Encoding utf8;"@;
            assert(text::one_line(a)) by {
                reveal_strlit("$__wmuxR|ConvertTo-Json -Depth ");
            }
            assert(text::one_line(b)) by {
                reveal_strlit(" -Compress|Set-Content -LiteralPath ");
            }
            assert(text::one_line(c)) by {
                reveal_strlit(" -Encoding utf8;");
            }
            text::lemma_one_line_joined(a, digits);
            text::lemma_one_line_joined(a + digits, b);
            text::lemma_one_line_joined(a + digits + b, literal);
            text::lemma_one_line_joined(a + digits + b + literal, c);
        },
        Format::Text => {
            let a = "($__wmuxR.Output|Out-String)|Set-Content -LiteralPath "@;
            let c = " -Encoding utf8;"@;
            assert(text::one_line(a)) by {
                reveal_strlit("($__wmuxR.Output|Out-String)|Set-Content -LiteralPath ");
            }
            assert(text::one_line(c)) by {
                reveal_strlit(" -Encoding utf8;");
            }
            text::lemma_one_line_joined(a, literal);
            text::lemma_one_line_joined(a + literal, c);
        },
    }
}

proof fn lemma_finish_one_line(done: Seq<char>)
    requires
        text::one_line(done),
    ensures
        text::one_line(finish_text(done)),
{
    let a = "New-Item -ItemType File -Path "@;
    let b =
        " -Force|Out-Null;Remove-Variable __wmuxO,__wmuxE,__wmuxR -ErrorAction SilentlyContinue"@;
    assert(text::one_line(a)) by {
        reveal_strlit("New-Item -ItemType File -Path ");
    }
    assert(text::one_line(b)) by {
        reveal_strlit(
            " -Force|Out-Null;Remove-Variable __wmuxO,__wmuxE,__wmuxR -ErrorAction SilentlyContinue",
        );
    }
    lemma_quoted_one_line(done);
    text::lemma_one_line_joined(a, single_quoted(done));
    text::lemma_one_line_joined(a + single_quoted(done), b);
}

/// The wrapper is a single line, as long as the command and the paths are: nothing in it submits
/// the command early.
pub proof fn law_the_wrapper_is_a_single_line(
    command: Seq<char>,
    out: Seq<char>,
    done: Seq<char>,
    format: Format,
    depth: u32,
)
    requires
        text::one_line(command),
        text::one_line(out),
        text::one_line(done),
    ensures
        text::one_line(wrapper_text(command, out, done, format, depth)),
{
    lemma_capture_one_line(command);
    lemma_serialise_one_line(out, format, depth);
    lemma_finish_one_line(done);
    text::lemma_one_line_joined(capture_text(command), serialise_text(out, format, depth));
    text::lemma_one_line_joined(
        capture_text(command) + serialise_text(out, format, depth),
        finish_text(done),
    );
}

/// The first stage of the wrapper holds the command, the second the path of the payload, and the
/// third, behind the other two, that of the marker.
pub proof fn law_the_marker_is_written_after_the_payload(
    command: Seq<char>,
    out: Seq<char>,
    done: Seq<char>,
    format: Format,
    depth: u32,
)
    ensures
        wrapper_text(command, out, done, format, depth) == capture_text(command) + serialise_text(
            out,
            format,
            depth,
        ) + finish_text(done),
        text::holds(capture_text(command), command),
        text::holds(serialise_text(out, format, depth), single_quoted(out)),
        text::holds(finish_text(done), single_quoted(done)),
{
    text::lemma_holds_in_whole(
        "$__wmuxE=$null;try{$__wmuxO=@("@,
        command,
        ")}catch{$__wmuxO=$null;$__wmuxE=$_.ToString()};$__wmuxR=[pscustomobject]@{Success=($null -eq $__wmuxE);Error=$__wmuxE;ExitCode=$LASTEXITCODE;Output=$__wmuxO};"@,
    );
    text::lemma_holds_in_whole(
        "New-Item -ItemType File -Path "@,
        single_quoted(done),
        " -Force|Out-Null;Remove-Variable __wmuxO,__wmuxE,__wmuxR -ErrorAction SilentlyContinue"@,
    );
    let literal = single_quoted(out);
    let digits = text::decimal_text(depth as nat);
    match format {
        Format::Clixml => {
            let a = "$__wmuxR|Export-Clixml -LiteralPath "@;
            let back = " -Depth "@ + digits + ";"@;
            text::lemma_holds_in_whole(a, literal, back);
            assert(serialise_text(out, format, depth) == a + literal + back);
        },
        Format::Json => {
            let a = "$__wmuxR|ConvertTo-Json -Depth "@ + digits
                + " -Compress|Set-Content -LiteralPath "@;
            text::lemma_holds_in_whole(a, literal, " -Encoding utf8;"@);
        },
        Format::Text => {
            text::lemma_holds_in_whole(
                "($__wmuxR.Output|Out-String)|Set-Content -LiteralPath "@,
                literal,
                " -Encoding utf8;"@,
            );
        },
    }
}

/// Default serialisation depth.
///
/// Matches `Export-Clixml` and `ConvertTo-Json`, and for the same reason: rich .NET objects have
/// recursive graphs, which serialise into gigabytes. Raise it deliberately, never by default.
pub const DEFAULT_DEPTH: u32 = 2;

/// Age beyond which an orphaned artifact is considered abandoned and swept, in nanoseconds: one
/// hour.
pub const STALE_ARTIFACT_AGE: u128 = 3_600_000_000_000;

/// How long to wait between two looks for the completion marker, in milliseconds.
pub const RESULT_POLL: u64 = 50;

/// An identifier of a run.
pub open spec fn id_text(pid: u32, nanos: u128, count: u64) -> Seq<char> {
    text::decimal_text(pid as nat) + "-"@ + text::hex_text(nanos as nat) + "-"@ + text::hex_text(
        count as nat,
    )
}

/// Generates a collision-resistant identifier: from the process, the time in nanoseconds, and a
/// number that the process counts up.
pub fn unique_id(pid: u32, nanos: u128, count: u64) -> (id: String)
    ensures
        id@ == id_text(pid, nanos, count),
{
    let mut id: String = text::decimal(pid as u64);
    id.append("-");
    id.append(text::hex(nanos).as_str());
    id.append("-");
    id.append(text::hex(count as u128).as_str());
    id
}

/// What stands in front of the first dash, and what stands behind it, is the same in two texts
/// that are the same.
proof fn lemma_split_at_dash(a1: Seq<char>, b1: Seq<char>, a2: Seq<char>, b2: Seq<char>)
    requires
        !a1.contains('-'),
        !a2.contains('-'),
        a1 + seq!['-'] + b1 == a2 + seq!['-'] + b2,
    ensures
        a1 == a2,
        b1 == b2,
{
    let s1 = a1 + seq!['-'] + b1;
    let s2 = a2 + seq!['-'] + b2;
    assert(s1[a1.len() as int] == '-' && s2[a2.len() as int] == '-');
    if a1.len() < a2.len() {
        assert(s2[a1.len() as int] == a2[a1.len() as int]);
        assert(a2.contains('-'));
    } else if a2.len() < a1.len() {
        assert(s1[a2.len() as int] == a1[a2.len() as int]);
        assert(a1.contains('-'));
    }
    assert(a1 == s1.take(a1.len() as int));
    assert(a2 == s2.take(a2.len() as int));
    assert(b1 == s1.skip(a1.len() + 1int));
    assert(b2 == s2.skip(a2.len() + 1int));
}

/// No dash is among the digits of a number.
proof fn lemma_no_dash(n: nat, base: nat)
    requires
        2 <= base <= 16,
    ensures
        !text::numeral(n, base).contains('-'),
{
    text::lemma_numeral_chars(n, base);
    let t = text::numeral(n, base);
    if t.contains('-') {
        let i = choose|i: int| 0 <= i < t.len() && t[i] == '-';
        assert('0' <= t[i] <= '9' || 'a' <= t[i] <= 'f');
    }
}

/// Identifiers do not repeat: two of them are the same only where the process, the time and the
/// count are. Within a process the count alone keeps them apart.
pub proof fn law_identifiers_do_not_repeat(
    pid1: u32,
    nanos1: u128,
    count1: u64,
    pid2: u32,
    nanos2: u128,
    count2: u64,
)
    requires
        id_text(pid1, nanos1, count1) == id_text(pid2, nanos2, count2),
    ensures
        pid1 == pid2,
        nanos1 == nanos2,
        count1 == count2,
{
    reveal_strlit("-");
    assert("-"@ == seq!['-']);
    let (p1, n1, s1) = (
        text::decimal_text(pid1 as nat),
        text::hex_text(nanos1 as nat),
        text::hex_text(count1 as nat),
    );
    let (p2, n2, s2) = (
        text::decimal_text(pid2 as nat),
        text::hex_text(nanos2 as nat),
        text::hex_text(count2 as nat),
    );
    lemma_no_dash(pid1 as nat, 10);
    lemma_no_dash(pid2 as nat, 10);
    lemma_no_dash(nanos1 as nat, 16);
    lemma_no_dash(nanos2 as nat, 16);
    let back1 = n1 + seq!['-'] + s1;
    let back2 = n2 + seq!['-'] + s2;
    assert(id_text(pid1, nanos1, count1) == p1 + seq!['-'] + back1);
    assert(id_text(pid2, nanos2, count2) == p2 + seq!['-'] + back2);
    lemma_split_at_dash(p1, back1, p2, back2);
    lemma_split_at_dash(n1, s1, n2, s2);
    text::lemma_numeral_injective(pid1 as nat, pid2 as nat, 10);
    text::lemma_numeral_injective(nanos1 as nat, nanos2 as nat, 16);
    text::lemma_numeral_injective(count1 as nat, count2 as nat, 16);
}

/// The files in which a run's payload and completion marker live.
#[derive(Debug)]
pub struct Artifacts {
    pub out: String,
    pub done: String,
}

impl Artifacts {
    /// The file names of the run with this identifier.
    pub fn new(id: &str) -> (artifacts: Artifacts)
        ensures
            artifacts.out@ == "wmux-run-"@ + id@ + ".out"@,
            artifacts.done@ == "wmux-run-"@ + id@ + ".done"@,
    {
        let mut out: String = "wmux-run-".to_owned();
        out.append(id);
        out.append(".out");
        let mut done: String = "wmux-run-".to_owned();
        done.append(id);
        done.append(".done");
        Artifacts { out, done }
    }
}

/// Whether a file is an artifact that an earlier run left behind: by its name, and by its age,
/// where that is known.
pub open spec fn stale(name: Seq<char>, age: Option<u128>) -> bool {
    text::stands_at(name, "wmux-run-"@, 0) && (age matches Some(nanos) && nanos
        > STALE_ARTIFACT_AGE)
}

/// Decides whether to remove a file of the temporary directory, given how old it is in
/// nanoseconds.
///
/// A run that times out leaves its files to be written later by a session that is still working,
/// so they cannot be cleaned up at the time. A later run sweeps them.
pub fn sweep_stale_artifacts(name: &str, age: Option<u128>) -> (remove: bool)
    ensures
        remove == stale(name@, age),
{
    if !text::begins_with(name, "wmux-run-") {
        return false;
    }
    match age {
        Some(nanos) => nanos > STALE_ARTIFACT_AGE,
        None => false,
    }
}

/// The files of a run are swept once they are old enough, and not before.
pub proof fn law_artifacts_are_swept(id: Seq<char>, age: u128)
    ensures
        stale("wmux-run-"@ + id + ".out"@, Some(age)) <==> age > STALE_ARTIFACT_AGE,
        stale("wmux-run-"@ + id + ".done"@, Some(age)) <==> age > STALE_ARTIFACT_AGE,
{
    let front = "wmux-run-"@;
    assert((front + id + ".out"@).subrange(0, front.len() as int) == front);
    assert((front + id + ".done"@).subrange(0, front.len() as int) == front);
}

/// Why a command was not run.
#[derive(Debug, Clone, Copy, PartialEq, Eq, Structural)]
pub enum RunError {
    Blank,
    NotOneLine,
}

impl RunError {
    /// What to tell the user.
    pub open spec fn message_text(self) -> Seq<char> {
        match self {
            RunError::Blank => "nothing to run"@,
            RunError::NotOneLine =>
                "the command must be a single line; it is delivered as keystrokes"@,
        }
    }

    /// What to tell the user.
    pub fn message(self) -> (message: String)
        ensures
            message@ == self.message_text(),
    {
        match self {
            RunError::Blank => "nothing to run".to_owned(),
            RunError::NotOneLine =>
                "the command must be a single line; it is delivered as keystrokes".to_owned(),
        }
    }
}

/// What is wrong with a command.
pub open spec fn run_error(command: Seq<char>) -> Option<RunError> {
    if text::trimmed(command).len() == 0 {
        Some(RunError::Blank)
    } else if !text::one_line(command) {
        Some(RunError::NotOneLine)
    } else {
        None
    }
}

/// Makes the keystrokes that run `command` in a session and leave its result in the file `out` and
/// the completion marker in the file `done`.
pub fn run(command: &str, out: &str, done: &str, format: Format, depth: u32) -> (keys: Result<
    String,
    RunError,
>)
    ensures
        match run_error(command@) {
            Some(e) => keys == Err::<String, RunError>(e),
            None => keys matches Ok(k) && k@ == wrapper_text(
                command@,
                out@,
                done@,
                format,
                depth,
            ).push('\r'),
        },
{
    if text::trim(command).as_str().is_empty() {
        return Err(RunError::Blank);
    }
    if text::has_char(command, '\r') || text::has_char(command, '\n') {
        return Err(RunError::NotOneLine);
    }
    let mut keys: String = wrapper(command, out, done, format, depth);
    keys.push('\r');
    Ok(keys)
}

/// A command is submitted once, at the end: the only end of a line in the keystrokes is the last
/// of them, as long as there is none in the paths.
pub proof fn law_a_command_is_submitted_once(
    command: Seq<char>,
    out: Seq<char>,
    done: Seq<char>,
    format: Format,
    depth: u32,
)
    requires
        run_error(command) is None,
        text::one_line(out),
        text::one_line(done),
    ensures
        ({
            let keys = wrapper_text(command, out, done, format, depth).push('\r');
            text::one_line(keys.drop_last()) && keys.last() == '\r'
        }),
{
    law_the_wrapper_is_a_single_line(command, out, done, format, depth);
    let keys = wrapper_text(command, out, done, format, depth).push('\r');
    assert(keys.drop_last() == wrapper_text(command, out, done, format, depth));
}

/// What to do next while waiting for the result of a run.
#[derive(Debug, Clone, Copy, PartialEq, Eq, Structural)]
pub enum ResultStep {
    /// Read the payload.
    Read,
    /// Wait `RESULT_POLL` and look again.
    Pause,
    /// The time is over.
    GiveUp,
}

/// Decides what to do, by whether the time is over and whether the completion marker is there.
pub fn wait_for_result(expired: bool, marker: bool) -> (step: ResultStep)
    ensures
        expired ==> step == ResultStep::GiveUp,
        !expired && marker ==> step == ResultStep::Read,
        !expired && !marker ==> step == ResultStep::Pause,
{
    if expired {
        ResultStep::GiveUp
    } else if marker {
        ResultStep::Read
    } else {
        ResultStep::Pause
    }
}

/// What to tell the user when there is a completion marker but no payload.
pub fn unreadable_message(out: &str) -> (message: String)
    ensures
        message@ == "the session signalled completion but "@ + out@ + " could not be read"@,
{
    let mut message: String = "the session signalled completion but ".to_owned();
    message.append(out);
    message.append(" could not be read");
    message
}

/// What to tell the user when the time is over. The time is given as it is to be printed.
pub fn timeout_message(timeout: &str) -> (message: String)
    ensures
        message@ == "the session did not finish within "@ + timeout@
            + ".\nIt may still be busy, waiting at a prompt, or serialising a very large object graph. Check with `wmux capture`, and press Ctrl-C in the session if it is stuck.\nIf the command returns rich objects such as files or processes, pipe it through `Select-Object` to pick the properties you need rather than raising --depth: deep graphs serialise into gigabytes."@,
{
    let mut message: String = "the session did not finish within ".to_owned();
    message.append(timeout);
    message.append(
        ".\nIt may still be busy, waiting at a prompt, or serialising a very large object graph. Check with `wmux capture`, and press Ctrl-C in the session if it is stuck.\nIf the command returns rich objects such as files or processes, pipe it through `Select-Object` to pick the properties you need rather than raising --depth: deep graphs serialise into gigabytes.",
    );
    message
}

/// A text without the byte order mark in front of it.
pub open spec fn without_bom(s: Seq<char>) -> Seq<char> {
    if s.len() > 0 && s[0] == '\u{feff}' {
        s.drop_first()
    } else {
        s
    }
}

/// PowerShell may prefix a UTF-8 BOM depending on version and cmdlet.
pub fn strip_bom(s: &str) -> (stripped: String)
    ensures
        stripped@ == without_bom(s@),
{
    let chars: Vec<char> = text::chars_of(s);
    if chars.len() > 0 && chars[0] == '\u{feff}' {
        let stripped: String = text::text_between(&chars, 1, chars.len());
        assert(stripped@ == without_bom(s@));
        stripped
    } else {
        s.to_owned()
    }
}

/// The result that a payload file holds.
pub fn result_text(bytes: &[u8]) -> (result: String)
    ensures
        result@ == without_bom(utf8::text_of_bytes(bytes@)),
{
    let decoded: String = utf8::decode_lossy(bytes);
    strip_bom(decoded.as_str())
}

/// The name of a format may be written in capitals and small letters alike: two texts that differ
/// in nothing else name the same.
pub proof fn law_capitals_do_not_count(a: Seq<char>, b: Seq<char>)
    requires
        a.len() == b.len(),
        forall|i: int|
            0 <= i < a.len() ==> (#[trigger] a[i]) == b[i] || ('A' <= a[i] <= 'Z' && b[i] as u32
                == a[i] as u32 + 32),
    ensures
        Format::named(a) == Format::named(b),
{
    assert forall|i: int| 0 <= i < a.len() implies lowered(a)[i] == lowered(b)[i] by {
        assert(a[i] == b[i] || ('A' <= a[i] <= 'Z' && b[i] as u32 == a[i] as u32 + 32));
        lemma_lowered_alike(a[i], b[i]);
    }
    assert(lowered(a) == lowered(b));
}

proof fn lemma_lowered_alike(c: char, d: char)
    requires
        c == d || ('A' <= c <= 'Z' && d as u32 == c as u32 + 32),
    ensures
        lower_char(c) == lower_char(d),
{
}

/// Only capitals of ASCII are made small, and nothing is added or left out.
pub proof fn law_only_capitals_are_lowered(s: Seq<char>, c: char)
    ensures
        lowered(s).len() == s.len(),
        'A' <= c <= 'Z' ==> lowered(seq![c]).len() == 1 && lowered(seq![c])[0] as u32 == c as u32
            + 32,
        !('A' <= c <= 'Z') ==> lowered(seq![c]) == seq![c],
        lowered(s.push(c)) == lowered(s) + lowered(seq![c]),
{
    assert(lowered(s.push(c)) == lowered(s) + lowered(seq![c]));
}

/// Each format has the names that it has, and nothing else names one.
pub proof fn law_the_names_of_formats(s: Seq<char>)
    ensures
        Format::named("clixml"@) == Some(Format::Clixml),
        Format::named("xml"@) == Some(Format::Clixml),
        Format::named("json"@) == Some(Format::Json),
        Format::named("text"@) == Some(Format::Text),
        Format::named("string"@) == Some(Format::Text),
        lowered(s) != "clixml"@ && lowered(s) != "xml"@ && lowered(s) != "json"@ && lowered(s)
            != "text"@ && lowered(s) != "string"@ ==> Format::named(s) is None,
        Format::Clixml.name() == "clixml"@,
        Format::Json.name() == "json"@,
        Format::Text.name() == "text"@,
{
    reveal_strlit("clixml");
    reveal_strlit("json");
    reveal_strlit("text");
    reveal_strlit("xml");
    reveal_strlit("string");
    assert(lowered("clixml"@) == "clixml"@);
    assert(lowered("xml"@) == "xml"@);
    assert(lowered("json"@) == "json"@);
    assert(lowered("text"@) == "text"@);
    assert(lowered("string"@) == "string"@);
    assert("json"@[0] != "text"@[0]);
    assert("clixml"@[0] != "string"@[0]);
}

/// What is said of a format that there is not: the text as it was read, and which ones there are.
pub proof fn law_unknown_formats_are_refused(s: &str, format: Result<Format, String>)
    requires
        call_ensures(Format::parse, (s,), format),
    ensures
        Format::named(s@) matches Some(f) ==> format == Ok::<Format, String>(f),
        Format::named(s@) is None ==> (format matches Err(message) && message@
            == "unknown format "@ + text::quoted_text(lowered(s@))
            + "; expected clixml, json, or text"@),
{
}

/// A literal is the value between quotes, with every quote in it twice and nothing else changed.
pub proof fn law_only_quotes_are_doubled(value: Seq<char>, c: char)
    ensures
        single_quoted(Seq::empty()) == seq!['\'', '\''],
        single_quoted(value).first() == '\'' && single_quoted(value).last() == '\'',
        single_quoted(value.push(c)).drop_last() == single_quoted(value).drop_last() + (if c
            == '\'' {
            seq!['\'', '\'']
        } else {
            seq![c]
        }),
        !value.contains('\'') ==> single_quoted(value) == seq!['\''] + value + seq!['\''],
    decreases value.len(),
{
    assert(single_quoted(Seq::empty()) == seq!['\'', '\'']);
    assert(value.push(c).drop_last() == value);
    assert(single_quoted(value).drop_last() == seq!['\''] + quotes_doubled(value));
    assert(single_quoted(value.push(c)).drop_last() == seq!['\''] + quotes_doubled(value.push(c)));
    if c == '\'' {
        assert(seq!['\''] + (quotes_doubled(value) + seq!['\'', '\'']) == (seq!['\'']
            + quotes_doubled(value)) + seq!['\'', '\'']);
    } else {
        assert(seq!['\''] + quotes_doubled(value).push(c) == (seq!['\''] + quotes_doubled(value))
            + seq![c]);
    }
    if !value.contains('\'') {
        lemma_nothing_doubled(value);
    }
}

proof fn lemma_nothing_doubled(value: Seq<char>)
    requires
        !value.contains('\''),
    ensures
        quotes_doubled(value) == value,
    decreases value.len(),
{
    if value.len() > 0 {
        let front = value.drop_last();
        if front.contains('\'') {
            let i = choose|i: int| 0 <= i < front.len() && front[i] == '\'';
            assert(value[i] == '\'');
        }
        lemma_nothing_doubled(front);
        assert(value[value.len() - 1] != '\'');
        assert(front.push(value.last()) == value);
    }
}

/// The line that is typed, word for word: the command stands where its results are collected, the
/// payload goes to the one file in the format and to the depth that were asked for, and the other
/// file is created last.
pub proof fn law_the_line_that_is_typed(
    command: Seq<char>,
    out: Seq<char>,
    done: Seq<char>,
    depth: u32,
)
    ensures
        ({
            let start = "$__wmuxE=$null;try{$__wmuxO=@("@ + command
                + ")}catch{$__wmuxO=$null;$__wmuxE=$_.ToString()};$__wmuxR=[pscustomobject]@{Success=($null -eq $__wmuxE);Error=$__wmuxE;ExitCode=$LASTEXITCODE;Output=$__wmuxO};"@;
            let end = "New-Item -ItemType File -Path "@ + single_quoted(done)
                + " -Force|Out-Null;Remove-Variable __wmuxO,__wmuxE,__wmuxR -ErrorAction SilentlyContinue"@;
            let digits = text::decimal_text(depth as nat);
            let file = single_quoted(out);
            &&& wrapper_text(command, out, done, Format::Clixml, depth) == start + (
            "$__wmuxR|Export-Clixml -LiteralPath "@ + file + " -Depth "@ + digits + ";"@) + end
            &&& wrapper_text(command, out, done, Format::Json, depth) == start + (
            "$__wmuxR|ConvertTo-Json -Depth "@ + digits + " -Compress|Set-Content -LiteralPath "@
                + file + " -Encoding utf8;"@) + end
            &&& wrapper_text(command, out, done, Format::Text, depth) == start + (
            "($__wmuxR.Output|Out-String)|Set-Content -LiteralPath "@ + file
                + " -Encoding utf8;"@) + end
        }),
{
}

/// Which commands are refused, and why: those with nothing but white space in them, and of the
/// others those with the end of a line. Every other one is typed and submitted.
pub proof fn law_only_single_lines_are_run(
    command: &str,
    out: &str,
    done: &str,
    format: Format,
    depth: u32,
    keys: Result<String, RunError>,
)
    requires
        call_ensures(run, (command, out, done, format, depth), keys),
    ensures
        ({
            let s = command@;
            let blank = forall|i: int| 0 <= i < s.len() ==> text::white_space(#[trigger] s[i]);
            let line = forall|i: int| 0 <= i < s.len() ==> #[trigger] s[i] != '\r' && s[i] != '\n';
            &&& blank ==> keys == Err::<String, RunError>(RunError::Blank)
            &&& !blank && !line ==> keys == Err::<String, RunError>(RunError::NotOneLine)
            &&& !blank && line ==> (keys matches Ok(k) && k@ == wrapper_text(
                command@,
                out@,
                done@,
                format,
                depth,
            ) + seq!['\r'])
        }),
{
    text::law_only_white_space_is_trimmed_away(command@);
    text::law_one_line(command@);
    let typed = wrapper_text(command@, out@, done@, format, depth);
    assert(typed.push('\r') == typed + seq!['\r']);
}

/// What is said of a command that is refused.
pub proof fn law_refused_commands_are_explained()
    ensures
        RunError::Blank.message_text() == "nothing to run"@,
        RunError::NotOneLine.message_text()
            == "the command must be a single line; it is delivered as keystrokes"@,
{
}

/// A file is swept exactly where it has the name of an artifact and is known to be more than an
/// hour old.
pub proof fn law_nothing_else_is_swept(name: &str, age: Option<u128>, remove: bool)
    requires
        call_ensures(sweep_stale_artifacts, (name, age), remove),
    ensures
        remove ==> name@.len() >= 9 && name@.take(9) == "wmux-run-"@ && age is Some && age->0
            > 3_600_000_000_000,
        name@.len() >= 9 && name@.take(9) == "wmux-run-"@ && age is Some && age->0
            > 3_600_000_000_000 ==> remove,
{
    reveal_strlit("wmux-run-");
    if name@.len() >= 9 {
        assert(name@.subrange(0, 9) == name@.take(9));
    }
}

/// The files of a run are named after it, and are two: the payload's and the marker's. Both are
/// among those that are swept once they are old, and never while they are fresh.
pub proof fn law_the_files_of_a_run(id: &str, artifacts: Artifacts, age: u128)
    requires
        call_ensures(Artifacts::new, (id,), artifacts),
    ensures
        artifacts.out@ == "wmux-run-"@ + id@ + ".out"@,
        artifacts.done@ == "wmux-run-"@ + id@ + ".done"@,
        artifacts.out@ != artifacts.done@,
        stale(artifacts.out@, Some(age)) <==> age > 3_600_000_000_000,
        stale(artifacts.done@, Some(age)) <==> age > 3_600_000_000_000,
        !stale(artifacts.out@, None),
        !stale(artifacts.done@, None),
{
    law_artifacts_are_swept(id@, age);
    reveal_strlit(".out");
    reveal_strlit(".done");
    assert(artifacts.out@.len() != artifacts.done@.len());
}

/// An identifier holds the process in decimal, and the time and the count in hexadecimal.
pub proof fn law_identifiers_are_made_of_three_numbers(
    pid: u32,
    nanos: u128,
    count: u64,
    id: String,
)
    requires
        call_ensures(unique_id, (pid, nanos, count), id),
    ensures
        id@ == text::decimal_text(pid as nat) + "-"@ + text::hex_text(nanos as nat) + "-"@
            + text::hex_text(count as nat),
{
}

/// The wait for a result ends when the marker is there, or when the time is over, and never before.
pub proof fn law_the_wait_ends_with_the_marker_or_the_time(
    expired: bool,
    marker: bool,
    step: ResultStep,
)
    requires
        call_ensures(wait_for_result, (expired, marker), step),
    ensures
        step == ResultStep::GiveUp <==> expired,
        step == ResultStep::Read <==> marker && !expired,
        step == ResultStep::Pause <==> !marker && !expired,
{
}

/// Results are serialised two levels deep unless more is asked for, and the marker is looked for
/// twenty times a second.
pub proof fn law_defaults_of_a_run()
    ensures
        DEFAULT_DEPTH == 2,
        RESULT_POLL == 50,
{
}

/// A mark in front of a result is dropped, one of it, and nothing else is.
pub proof fn law_only_the_mark_is_dropped(s: Seq<char>)
    ensures
        without_bom(seq!['\u{feff}'] + s) == s,
        s.len() == 0 || s[0] != '\u{feff}' ==> without_bom(s) == s,
{
    assert((seq!['\u{feff}'] + s).drop_first() == s);
}

/// What a session wrote to the payload file is what comes out, with the mark in front of it or
/// without.
pub proof fn law_a_result_is_read_as_it_was_written(
    s: Seq<char>,
    plain: &[u8],
    marked: &[u8],
    read: String,
    read_marked: String,
)
    requires
        s.len() == 0 || s[0] != '\u{feff}',
        plain@ == vstd::utf8::encode_utf8(s),
        marked@ == vstd::utf8::encode_utf8(seq!['\u{feff}'] + s),
        call_ensures(result_text, (plain,), read),
        call_ensures(result_text, (marked,), read_marked),
    ensures
        read@ == s,
        read_marked@ == s,
{
    utf8::lemma_text_of_encoded(s);
    utf8::lemma_text_of_encoded(seq!['\u{feff}'] + s);
    law_only_the_mark_is_dropped(s);
}

/// What is said when there is no result: the file that could not be read, or how long it took.
pub proof fn law_missing_results_are_explained(
    out: &str,
    timeout: &str,
    unreadable: String,
    late: String,
)
    requires
        call_ensures(unreadable_message, (out,), unreadable),
        call_ensures(timeout_message, (timeout,), late),
    ensures
        unreadable@ == "the session signalled completion but "@ + out@ + " could not be read"@,
        late@ == "the session did not finish within "@ + timeout@
            + ".\nIt may still be busy, waiting at a prompt, or serialising a very large object graph. Check with `wmux capture`, and press Ctrl-C in the session if it is stuck.\nIf the command returns rich objects such as files or processes, pipe it through `Select-Object` to pick the properties you need rather than raising --depth: deep graphs serialise into gigabytes."@,
{
}

/// What is typed and what is read, by the calls.
pub proof fn law_the_calls_of_a_run(
    command: &str,
    out: &str,
    done: &str,
    format: Format,
    depth: u32,
    line: String,
    literal: String,
    stripped: String,
    name: &'static str,
    error: RunError,
    message: String,
    parsed: Result<Format, String>,
)
    requires
        call_ensures(wrapper, (command, out, done, format, depth), line),
        call_ensures(ps_single_quote, (out,), literal),
        call_ensures(strip_bom, (out,), stripped),
        call_ensures(Format::as_str, (format,), name),
        call_ensures(RunError::message, (error,), message),
        call_ensures(Format::parse, (out,), parsed),
    ensures
        line@ == wrapper_text(command@, out@, done@, format, depth),
        literal@ == single_quoted(out@),
        stripped@ == without_bom(out@),
        Format::named(name@) == Some(format),
        message@ == error.message_text(),
        parsed matches Ok(f) ==> Format::named(out@) == Some(f),
        parsed is Err ==> Format::named(out@) is None,
{
    law_formats_parse_from_their_names(format);
}

} // verus!
