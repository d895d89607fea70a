//! Session naming, pipe path construction, and discovery.
//!
//! Every session is reachable at a named pipe whose name embeds the SID of the user who created
//! it. With the SID in it two users on the same machine can both have a session called `build`
//! without colliding, and the listing is naturally scoped to the current user.

use vstd::prelude::*;
use vstd::utf8::*;

use crate::text;
use crate::wide;

verus! {

/// Longest session name accepted. Pipe names may be up to 256 characters in all and the SID eats
/// a chunk of that, so this stays well clear.
pub const MAX_NAME_LEN: usize = 64;

/// Why a session name was rejected.
#[derive(Debug, Clone, Copy, PartialEq, Eq, Structural)]
pub enum NameError {
    Empty,
    /// The length of the name in bytes.
    TooLong(usize),
    /// The first character that is not allowed.
    BadChar(char),
}

impl NameError {
    /// What to tell the user.
    pub open spec fn message_text(self) -> Seq<char> {
        match self {
            NameError::Empty => "session name must not be empty"@,
            NameError::TooLong(len) => "session name is "@ + text::decimal_text(len as nat)
                + " characters; the maximum is "@ + text::decimal_text(MAX_NAME_LEN as nat),
            NameError::BadChar(c) => "session name contains "@ + text::quoted_char(c)
                + "; only letters, digits, '-' and '_' are allowed"@,
        }
    }

    /// What to tell the user.
    pub fn message(self) -> (message: String)
        ensures
            message@ == self.message_text(),
    {
        match self {
            NameError::Empty => "session name must not be empty".to_owned(),
            NameError::TooLong(len) => {
                let mut message: String = "session name is ".to_owned();
                message.append(text::decimal(len as u64).as_str());
                message.append(" characters; the maximum is ");
                message.append(text::decimal(MAX_NAME_LEN as u64).as_str());
                message
            },
            NameError::BadChar(c) => {
                let mut message: String = "session name contains ".to_owned();
                message.append(text::quote_char(c).as_str());
                message.append("; only letters, digits, '-' and '_' are allowed");
                message
            },
        }
    }
}

/// Whether a character may stand in a session name.
pub open spec fn name_char(c: char) -> bool {
    ||| 'a' <= c <= 'z'
    ||| 'A' <= c <= 'Z'
    ||| '0' <= c <= '9'
    ||| c == '-'
    ||| c == '_'
}

/// The first character that may not stand in a session name.
pub open spec fn first_bad_char(s: Seq<char>) -> Option<char>
    decreases s.len(),
{
    if s.len() == 0 {
        None
    } else if !name_char(s.first()) {
        Some(s.first())
    } else {
        first_bad_char(s.drop_first())
    }
}

/// What is wrong with a session name.
pub open spec fn name_error(name: Seq<char>) -> Option<NameError> {
    if name.len() == 0 {
        Some(NameError::Empty)
    } else if encode_utf8(name).len() > MAX_NAME_LEN {
        Some(NameError::TooLong(encode_utf8(name).len() as usize))
    } else {
        match first_bad_char(name) {
            Some(c) => Some(NameError::BadChar(c)),
            None => None,
        }
    }
}

/// Whether a session may have this name.
pub open spec fn valid_name(name: Seq<char>) -> bool {
    name_error(name) is None
}

/// Rejects session names that would be ambiguous in a pipe path or awkward on a command line.
///
/// ASCII alphanumerics plus `-` and `_` are allowed. Notably `.` is excluded because it separates
/// the fields of the pipe name.
pub fn validate_name(name: &str) -> (valid: Result<(), NameError>)
    ensures
        valid == (match name_error(name@) {
            Some(e) => Err::<(), NameError>(e),
            None => Ok(()),
        }),
{
    if name.is_empty() {
        return Err(NameError::Empty);
    }
    let len: usize = name.as_bytes().len();
    if len > MAX_NAME_LEN {
        return Err(NameError::TooLong(len));
    }
    let chars: Vec<char> = text::chars_of(name);
    let mut i: usize = 0;
    assert(chars@.skip(0) == chars@);
    while i < chars.len()
        invariant
            i <= chars.len(),
            chars@ == name@,
            chars.len() > 0,
            encode_utf8(name@).len() <= MAX_NAME_LEN,
            first_bad_char(name@) == first_bad_char(name@.skip(i as int)),
        decreases chars.len() - i,
    {
        let c: char = chars[i];
        if !(('a' <= c && c <= 'z') || ('A' <= c && c <= 'Z') || ('0' <= c && c <= '9') || c == '-'
            || c == '_') {
            return Err(NameError::BadChar(c));
        }
        assert(name@.skip(i as int).drop_first() == name@.skip(i + 1));
        i += 1;
    }
    Ok(())
}

/// The string form of a user's SID, e.g. `S-1-5-21-...`, given as the system hands it out: wide,
/// with a NUL behind it.
pub fn current_user_sid(units: &[u16]) -> (sid: String)
    ensures
        sid@ == wide::utf16_text(wide::until_nul(units@)),
{
    wide::from_wide(units)
}

/// The pipe name, without the pipe directory, that a session occupies.
pub open spec fn leaf_text(sid: Seq<char>, name: Seq<char>) -> Seq<char> {
    "wmux."@ + sid + "."@ + name
}

/// The full pipe path of a session.
pub open spec fn path_text(sid: Seq<char>, name: Seq<char>) -> Seq<char> {
    "\\\\.\\pipe\\"@ + leaf_text(sid, name)
}

/// The pipe name, without the pipe directory, that a session occupies.
pub fn pipe_leaf_for(sid: &str, name: &str) -> (leaf: String)
    ensures
        leaf@ == leaf_text(sid@, name@),
{
    let mut leaf: String = "wmux.".to_owned();
    leaf.append(sid);
    leaf.append(".");
    leaf.append(name);
    leaf
}

/// Builds the full pipe path for a session belonging to the given user SID.
pub fn pipe_path_for(sid: &str, name: &str) -> (path: String)
    ensures
        path@ == path_text(sid@, name@),
{
    let mut path: String = "\\\\.\\pipe\\".to_owned();
    path.append(pipe_leaf_for(sid, name).as_str());
    path
}

/// Builds the full pipe path for a session, if it may have this name.
pub fn pipe_path(sid: &str, name: &str) -> (path: Result<String, NameError>)
    ensures
        match name_error(name@) {
            Some(e) => path == Err::<String, NameError>(e),
            None => path matches Ok(p) && p@ == path_text(sid@, name@),
        },
{
    match validate_name(name) {
        Ok(()) => Ok(pipe_path_for(sid, name)),
        Err(e) => Err(e),
    }
}

/// The session that a pipe name stands for, if the pipe belongs to `sid`.
pub open spec fn session_of_leaf(sid: Seq<char>, leaf: Seq<char>) -> Option<Seq<char>> {
    let front = leaf_text(sid, Seq::empty());
    if front.is_prefix_of(leaf) && valid_name(leaf.skip(front.len() as int)) {
        Some(leaf.skip(front.len() as int))
    } else {
        None
    }
}

/// Recovers a session name from a pipe leaf name, if it belongs to `sid`.
pub fn session_name_from_leaf(sid: &str, leaf: &str) -> (name: Option<String>)
    ensures
        match session_of_leaf(sid@, leaf@) {
            Some(n) => name matches Some(got) && got@ == n,
            None => name is None,
        },
{
    let front_text: String = pipe_leaf_for(sid, "");
    let ghost front_seq = leaf_text(sid@, Seq::empty());
    proof {
        reveal_strlit("");
        assert(""@ == Seq::<char>::empty());
    }
    let front: Vec<char> = text::chars_of(front_text.as_str());
    let chars: Vec<char> = text::chars_of(leaf);
    if chars.len() < front.len() {
        return None;
    }
    let mut i: usize = 0;
    while i < front.len()
        invariant
            i <= front.len() <= chars.len(),
            front@ == front_seq,
            front_seq == leaf_text(sid@, Seq::empty()),
            chars@ == leaf@,
            forall|k: int| 0 <= k < i ==> front[k] == chars[k],
        decreases front.len() - i,
    {
        if front[i] != chars[i] {
            assert(front_seq[i as int] != leaf@[i as int]);
            return None;
        }
        i += 1;
    }
    assert(front_seq == leaf@.subrange(0, front_seq.len() as int));
    let name: String = text::text_between(&chars, front.len(), chars.len());
    assert(name@ == leaf@.skip(front.len() as int));
    match validate_name(name.as_str()) {
        Ok(()) => Some(name),
        Err(_) => None,
    }
}

/// Whether `a` stands before `b` in the order of the characters' code points.
pub open spec fn text_before(a: Seq<char>, b: Seq<char>) -> bool
    decreases b.len(),
{
    if b.len() == 0 {
        false
    } else if a.len() == 0 {
        true
    } else if a.first() != b.first() {
        a.first() < b.first()
    } else {
        text_before(a.drop_first(), b.drop_first())
    }
}

/// Of two different texts one stands before the other, and not both.
proof fn lemma_text_before_total(a: Seq<char>, b: Seq<char>)
    ensures
        text_before(a, b) || a == b || text_before(b, a),
        text_before(a, b) ==> a != b && !text_before(b, a),
    decreases b.len(),
{
    if a.len() > 0 && b.len() > 0 && a.first() == b.first() {
        lemma_text_before_total(a.drop_first(), b.drop_first());
        if a.drop_first() == b.drop_first() {
            assert(a == seq![a.first()] + a.drop_first());
            assert(b == seq![b.first()] + b.drop_first());
        }
    } else if a.len() == 0 && b.len() == 0 {
        assert(a == b);
    }
}

/// What stands before a text stands before all that follow it.
proof fn lemma_text_before_chain(a: Seq<char>, b: Seq<char>, c: Seq<char>)
    requires
        text_before(a, b),
        text_before(b, c),
    ensures
        text_before(a, c),
    decreases b.len(),
{
    if a.len() > 0 && b.len() > 0 && c.len() > 0 && a.first() == b.first() && b.first()
        == c.first() {
        lemma_text_before_chain(a.drop_first(), b.drop_first(), c.drop_first());
    }
}

/// Whether `a` stands before `b`.
fn is_before(a: &str, b: &str) -> (before: bool)
    ensures
        before == text_before(a@, b@),
{
    let x: Vec<char> = text::chars_of(a);
    let y: Vec<char> = text::chars_of(b);
    let mut i: usize = 0;
    assert(x@.skip(0) == x@);
    assert(y@.skip(0) == y@);
    while i < x.len() && i < y.len()
        invariant
            i <= x.len(),
            i <= y.len(),
            text_before(a@, b@) == text_before(x@.skip(i as int), y@.skip(i as int)),
        decreases x.len() - i,
    {
        if x[i] != y[i] {
            return x[i] < y[i];
        }
        assert(x@.skip(i as int).drop_first() == x@.skip(i + 1));
        assert(y@.skip(i as int).drop_first() == y@.skip(i + 1));
        i += 1;
    }
    i < y.len()
}

/// Whether each text stands before all that follow it, so that none occurs twice.
pub open spec fn ascending(names: Seq<Seq<char>>) -> bool {
    forall|i: int, j: int|
        0 <= i < j < names.len() ==> #[trigger] text_before(names[i], names[j])
}

/// Adds a name to an ascending list, unless it is there already.
fn insert_name(names: &mut Vec<String>, name: String)
    requires
        ascending(text::texts(old(names)@)),
    ensures
        ascending(text::texts(final(names)@)),
        forall|x: Seq<char>| #[trigger]
            text::texts(final(names)@).contains(x) <==> text::texts(old(names)@).contains(x) || x
                == name@,
{
    let ghost before = text::texts(names@);
    let mut i: usize = 0;
    while i < names.len() && is_before(names[i].as_str(), name.as_str())
        invariant
            i <= names.len(),
            before == text::texts(names@),
            forall|k: int| 0 <= k < i ==> #[trigger] text_before(before[k], name@),
        decreases names.len() - i,
    {
        i += 1;
    }
    if i < names.len() && text::same_text(names[i].as_str(), name.as_str()) {
        assert(before[i as int] == name@);
        return ;
    }
    let ghost n = name@;
    proof {
        assert forall|k: int| i <= k < before.len() implies #[trigger] text_before(n, before[k]) by {
            lemma_text_before_total(n, before[i as int]);
            if k > i {
                assert(text_before(before[i as int], before[k]));
                lemma_text_before_chain(n, before[i as int], before[k]);
            }
        }
    }
    names.insert(i, name);
    proof {
        let after = text::texts(names@);
        assert(after == before.insert(i as int, n));
        assert forall|x: Seq<char>| #[trigger] after.contains(x) <==> before.contains(x) || x
            == n by {
            if after.contains(x) {
                let k = choose|k: int| 0 <= k < after.len() && after[k] == x;
                if k < i {
                    assert(before[k] == x);
                } else if k > i {
                    assert(before[k - 1] == x);
                }
            }
            if before.contains(x) {
                let k = choose|k: int| 0 <= k < before.len() && before[k] == x;
                if k < i {
                    assert(after[k] == x);
                } else {
                    assert(after[k + 1] == x);
                }
            }
            assert(after[i as int] == n);
        }
    }
}

/// Whether a session of `sid` has one of these pipes.
pub open spec fn listed(sid: Seq<char>, leaves: Seq<Seq<char>>, name: Seq<char>) -> bool {
    exists|i: int|
        0 <= i < leaves.len() && #[trigger] session_of_leaf(sid, leaves[i]) == Some(name)
}

/// Lists the names of every session owned by `sid`, given the leaf names of all pipes there are.
///
/// A pipe only exists while its server process holds it open, which makes the listing
/// self-cleaning: if a session server dies, its pipe disappears and it stops showing up here.
pub fn list_sessions(sid: &str, leaves: &Vec<String>) -> (names: Vec<String>)
    ensures
        ascending(text::texts(names@)),
        forall|name: Seq<char>| #[trigger]
            text::texts(names@).contains(name) <==> listed(sid@, text::texts(leaves@), name),
{
    let mut names: Vec<String> = Vec::new();
    let ghost all = text::texts(leaves@);
    let mut i: usize = 0;
    while i < leaves.len()
        invariant
            i <= leaves.len(),
            all == text::texts(leaves@),
            ascending(text::texts(names@)),
            forall|name: Seq<char>| #[trigger]
                text::texts(names@).contains(name) <==> listed(sid@, all.take(i as int), name),
        decreases leaves.len() - i,
    {
        let found: Option<String> = session_name_from_leaf(sid, leaves[i].as_str());
        let ghost earlier = text::texts(names@);
        let ghost found_name = session_of_leaf(sid@, all[i as int]);
        if let Some(name) = found {
            insert_name(&mut names, name);
        }
        proof {
            let shorter = all.take(i as int);
            let longer = all.take(i + 1);
            assert forall|name: Seq<char>| #[trigger]
                text::texts(names@).contains(name) <==> listed(sid@, longer, name) by {
                assert(earlier.contains(name) <==> listed(sid@, shorter, name));
                assert(longer[i as int] == all[i as int]);
                if listed(sid@, shorter, name) {
                    let k = choose|k: int|
                        0 <= k < shorter.len() && #[trigger] session_of_leaf(sid@, shorter[k])
                            == Some(name);
                    assert(longer[k] == shorter[k]);
                    assert(session_of_leaf(sid@, longer[k]) == Some(name));
                }
                if listed(sid@, longer, name) {
                    let k = choose|k: int|
                        0 <= k < longer.len() && #[trigger] session_of_leaf(sid@, longer[k])
                            == Some(name);
                    if k < i {
                        assert(longer[k] == shorter[k]);
                        assert(session_of_leaf(sid@, shorter[k]) == Some(name));
                    }
                }
                if found_name == Some(name) {
                    assert(session_of_leaf(sid@, longer[i as int]) == Some(name));
                }
            }
        }
        i += 1;
    }
    assert(all.take(leaves.len() as int) == all);
    names
}

/// Whether a text is among the strings.
pub fn has_name(names: &Vec<String>, name: &str) -> (found: bool)
    ensures
        found == text::texts(names@).contains(name@),
{
    let ghost all = text::texts(names@);
    let mut i: usize = 0;
    while i < names.len()
        invariant
            i <= names.len(),
            all == text::texts(names@),
            forall|k: int| 0 <= k < i ==> all[k] != name@,
        decreases names.len() - i,
    {
        if text::same_text(names[i].as_str(), name) {
            assert(all[i as int] == name@);
            return true;
        }
        i += 1;
    }
    false
}

/// Returns true if a session with this name is live, given the leaf names of all pipes there are.
///
/// Deliberately a question to the listing rather than an attempt to open the pipe: probing a named
/// pipe opens a client connection to it, which consumes the instance that the server is waiting on.
pub fn session_exists(sid: &str, leaves: &Vec<String>, name: &str) -> (live: Result<
    bool,
    NameError,
>)
    ensures
        live == (match name_error(name@) {
            Some(e) => Err::<bool, NameError>(e),
            None => Ok(listed(sid@, text::texts(leaves@), name@)),
        }),
{
    match validate_name(name) {
        Ok(()) => {
            let names: Vec<String> = list_sessions(sid, leaves);
            let found: bool = has_name(&names, name);
            Ok(found)
        },
        Err(e) => Err(e),
    }
}
/// Environment variable the server sets inside every session, naming it.
///
/// Anything running in a session inherits this, which is how commands like `wmux detach` can tell
/// which session they are inside without being told.
pub const SESSION_ENV: &'static str = "WMUX_SESSION";

/// Why no session could be picked.
#[derive(Debug, Clone, Copy, PartialEq, Eq, Structural)]
pub enum TargetError {
    /// The session has a name that no session can have.
    Name(NameError),
    /// No name was given, and the caller is not inside a session.
    OutsideSession,
}

impl TargetError {
    /// What to tell the user.
    pub open spec fn message_text(self) -> Seq<char> {
        match self {
            TargetError::Name(e) => e.message_text(),
            TargetError::OutsideSession =>
                "not running inside a wmux session, so there is nothing to detach.\nName a session explicitly, for example `wmux detach build`, or run `wmux ls` to see what is running."@,
        }
    }

    /// What to tell the user.
    pub fn message(self) -> (message: String)
        ensures
            message@ == self.message_text(),
    {
        match self {
            TargetError::Name(e) => e.message(),
            TargetError::OutsideSession =>
                "not running inside a wmux session, so there is nothing to detach.\nName a session explicitly, for example `wmux detach build`, or run `wmux ls` to see what is running.".to_owned(),
        }
    }
}

/// A name that a session can have, or what is wrong with it.
pub open spec fn checked_target(name: Seq<char>) -> Result<Seq<char>, TargetError> {
    match name_error(name) {
        Some(e) => Err(TargetError::Name(e)),
        None => Ok(name),
    }
}

/// The session that a command should act on.
pub open spec fn target(explicit: Option<Seq<char>>, from_env: Option<Seq<char>>) -> Result<
    Seq<char>,
    TargetError,
> {
    match explicit {
        Some(name) => checked_target(name),
        None => match from_env {
            Some(name) => if text::trimmed(name).len() > 0 {
                checked_target(text::trimmed(name))
            } else {
                Err(TargetError::OutsideSession)
            },
            None => Err(TargetError::OutsideSession),
        },
    }
}

/// Lets a name through that a session can have.
fn check_target(name: String) -> (checked: Result<String, TargetError>)
    ensures
        match checked_target(name@) {
            Ok(n) => checked matches Ok(got) && got@ == n,
            Err(e) => checked == Err::<String, TargetError>(e),
        },
{
    match validate_name(name.as_str()) {
        Ok(()) => Ok(name),
        Err(e) => Err(TargetError::Name(e)),
    }
}

/// Resolves which session a command should act on.
///
/// An explicit name always wins. Otherwise fall back to the session the caller is running inside,
/// and fail with something actionable if it is neither.
pub fn resolve_target(explicit: Option<String>, from_env: Option<String>) -> (resolved: Result<
    String,
    TargetError,
>)
    ensures
        match target(text::optional(explicit), text::optional(from_env)) {
            Ok(name) => resolved matches Ok(got) && got@ == name,
            Err(e) => resolved == Err::<String, TargetError>(e),
        },
{
    if let Some(name) = explicit {
        return check_target(name);
    }
    match from_env {
        Some(name) => {
            let trimmed: String = text::trim(name.as_str());
            if trimmed.as_str().is_empty() {
                Err(TargetError::OutsideSession)
            } else {
                check_target(trimmed)
            }
        },
        None => Err(TargetError::OutsideSession),
    }
}

/// The generated name with number `n`.
pub open spec fn numbered_name(n: nat) -> Seq<char> {
    "wmux-"@ + text::decimal_text(n)
}

/// Different numbers make different names.
proof fn lemma_numbered_names_differ(m: nat, n: nat)
    requires
        numbered_name(m) == numbered_name(n),
    ensures
        m == n,
{
    let front = "wmux-"@;
    assert(numbered_name(m).skip(front.len() as int) == text::decimal_text(m));
    assert(numbered_name(n).skip(front.len() as int) == text::decimal_text(n));
    text::lemma_decimal_text(m);
    text::lemma_decimal_text(n);
}

/// Where the first `n` generated names are all taken, there are at least `n` names.
proof fn lemma_names_taken(existing: Seq<Seq<char>>, n: nat)
    requires
        forall|m: nat| m < n ==> existing.contains(#[trigger] numbered_name(m)),
    ensures
        n <= existing.len(),
{
    let taken = Seq::new(n, |i: int| numbered_name(i as nat));
    assert forall|i: int, j: int| 0 <= i < n && 0 <= j < n && i != j implies taken[i]
        != taken[j] by {
        if taken[i] == taken[j] {
            lemma_numbered_names_differ(i as nat, j as nat);
        }
    }
    assert(taken.no_duplicates());
    taken.unique_seq_to_set();
    assert forall|x: Seq<char>| taken.to_set().contains(x) implies existing.to_set().contains(x) by {
        let i = choose|i: int| 0 <= i < n && taken[i] == x;
        assert(existing.contains(numbered_name(i as nat)));
    }
    existing.lemma_cardinality_of_set();
    vstd::set_lib::lemma_len_subset(taken.to_set(), existing.to_set());
}

/// Whether `n` is the smallest number whose name is free.
pub open spec fn first_free(existing: Seq<Seq<char>>, n: nat) -> bool {
    &&& !existing.contains(numbered_name(n))
    &&& forall|m: nat| m < n ==> existing.contains(#[trigger] numbered_name(m))
}

/// Generates the next free `wmux-N` style name.
pub fn next_free_name(existing: &Vec<String>) -> (name: String)
    ensures
        exists|n: nat| #[trigger]
            first_free(text::texts(existing@), n) && name@ == numbered_name(n),
        valid_name(name@),
{
    let ghost all = text::texts(existing@);
    let mut n: u64 = 0;
    loop
        invariant
            all == text::texts(existing@),
            forall|m: nat| m < n ==> all.contains(#[trigger] numbered_name(m)),
            n <= all.len(),
        decreases all.len() - n,
    {
        let mut candidate: String = "wmux-".to_owned();
        candidate.append(text::decimal(n).as_str());
        if !has_name(existing, candidate.as_str()) {
            proof {
                law_generated_names_are_valid(n);
                assert(first_free(all, n as nat));
            }
            return candidate;
        }
        proof {
            assert forall|m: nat| m < n + 1 implies all.contains(#[trigger] numbered_name(m)) by {}
            lemma_names_taken(all, (n + 1) as nat);
            assert(all.len() == existing.len());
        }
        n += 1;
    }
}

/// Every generated name is one that a session can have.
pub proof fn law_generated_names_are_valid(n: u64)
    ensures
        valid_name(numbered_name(n as nat)),
{
    let name = numbered_name(n as nat);
    let digits = text::decimal_text(n as nat);
    reveal_strlit("wmux-");
    text::lemma_decimal_text(n as nat);
    assert(n < text::ten_to(20)) by {
        reveal_with_fuel(text::ten_to, 21);
    }
    text::lemma_decimal_len(n as nat, 20);
    assert forall|i: int| 0 <= i < name.len() implies name_char(#[trigger] name[i]) by {
        if i >= 5 {
            assert(text::decimal_digit(digits[i - 5]));
        }
    }
    law_valid_names(name);
}

/// All characters of a text are allowed in names if and only if no first bad one is found.
proof fn lemma_first_bad_char(s: Seq<char>)
    ensures
        first_bad_char(s) is None <==> (forall|i: int|
            0 <= i < s.len() ==> name_char(#[trigger] s[i])),
    decreases s.len(),
{
    if s.len() > 0 {
        lemma_first_bad_char(s.drop_first());
        if name_char(s.first()) {
            assert forall|i: int| 0 <= i < s.drop_first().len() implies s.drop_first()[i] == s[i
                + 1] by {}
            if forall|i: int| 0 <= i < s.len() ==> name_char(#[trigger] s[i]) {
                assert forall|i: int| 0 <= i < s.drop_first().len() implies name_char(
                    #[trigger] s.drop_first()[i],
                ) by {
                    assert(name_char(s[i + 1]));
                }
            }
            if first_bad_char(s) is None {
                assert forall|i: int| 0 <= i < s.len() implies name_char(#[trigger] s[i]) by {
                    if i > 0 {
                        assert(name_char(s.drop_first()[i - 1]));
                    }
                }
            }
        } else {
            assert(!name_char(s[0]));
        }
    }
}

/// A text is a session name if and only if it has 1 to 64 characters, all of them ASCII letters,
/// digits, `-` or `_`. So no name can hold what has a meaning in a pipe path.
pub proof fn law_valid_names(name: Seq<char>)
    ensures
        valid_name(name) <==> 1 <= name.len() <= MAX_NAME_LEN && (forall|i: int|
            0 <= i < name.len() ==> name_char(#[trigger] name[i])),
        valid_name(name) ==> !name.contains('.') && !name.contains('\\') && !name.contains('/')
            && !name.contains(' ') && !name.contains('\0'),
{
    lemma_first_bad_char(name);
    if forall|i: int| 0 <= i < name.len() ==> name_char(#[trigger] name[i]) {
        assert forall|i: int| 0 <= i < name.len() implies '\0' <= #[trigger] name[i] <= '\u{7f}' by {
            assert(name_char(name[i]));
        }
        assert(is_ascii_chars(name));
        is_ascii_chars_encode_utf8(name);
        assert(encode_utf8(name).len() == name.len());
    }
}

/// The last dot of a leaf parts the session name from the rest.
proof fn lemma_leaf_parts(sid1: Seq<char>, name1: Seq<char>, sid2: Seq<char>, name2: Seq<char>)
    requires
        !name1.contains('.'),
        !name2.contains('.'),
        leaf_text(sid1, name1) == leaf_text(sid2, name2),
    ensures
        sid1 == sid2,
        name1 == name2,
{
    reveal_strlit("wmux.");
    reveal_strlit(".");
    let leaf = leaf_text(sid1, name1);
    assert(leaf.len() == 6 + sid1.len() + name1.len());
    assert(leaf.len() == 6 + sid2.len() + name2.len());
    assert(leaf[5 + sid1.len() as int] == '.');
    assert(leaf_text(sid2, name2)[5 + sid2.len() as int] == '.');
    if sid1.len() > sid2.len() {
        assert(leaf_text(sid2, name2)[5 + sid1.len() as int] == name2[sid1.len() - sid2.len() - 1]);
    } else if sid1.len() < sid2.len() {
        assert(leaf[5 + sid2.len() as int] == name1[sid2.len() - sid1.len() - 1]);
    }
    assert(sid1 == leaf.subrange(5, 5 + sid1.len() as int));
    assert(sid2 == leaf_text(sid2, name2).subrange(5, 5 + sid2.len() as int));
    assert(name1 == leaf.skip(6 + sid1.len() as int));
    assert(name2 == leaf_text(sid2, name2).skip(6 + sid2.len() as int));
}

/// The pipe of a session stands for that session, and for no other one of any user.
pub proof fn law_a_leaf_belongs_to_one_session(
    sid: Seq<char>,
    name: Seq<char>,
    other: Seq<char>,
)
    requires
        valid_name(name),
    ensures
        session_of_leaf(sid, leaf_text(sid, name)) == Some(name),
        other != sid ==> session_of_leaf(other, leaf_text(sid, name)) is None,
{
    let leaf = leaf_text(sid, name);
    let front = leaf_text(sid, Seq::empty());
    assert(leaf.subrange(0, front.len() as int) == front);
    assert(leaf.skip(front.len() as int) == name);
    law_valid_names(name);
    if session_of_leaf(other, leaf) is Some {
        let other_front = leaf_text(other, Seq::empty());
        let other_name = leaf.skip(other_front.len() as int);
        assert(leaf == leaf_text(other, other_name));
        law_valid_names(other_name);
        lemma_leaf_parts(sid, name, other, other_name);
    }
}

/// Two sessions have the same pipe path only where user and name are the same: users do not get in
/// each other's way, and sessions of one user do not either.
pub proof fn law_paths_do_not_collide(
    sid1: Seq<char>,
    name1: Seq<char>,
    sid2: Seq<char>,
    name2: Seq<char>,
)
    requires
        valid_name(name1),
        valid_name(name2),
        path_text(sid1, name1) == path_text(sid2, name2),
    ensures
        sid1 == sid2,
        name1 == name2,
{
    let dir = "\\\\.\\pipe\\"@;
    assert(path_text(sid1, name1).skip(dir.len() as int) == leaf_text(sid1, name1));
    assert(path_text(sid2, name2).skip(dir.len() as int) == leaf_text(sid2, name2));
    law_valid_names(name1);
    law_valid_names(name2);
    lemma_leaf_parts(sid1, name1, sid2, name2);
}

/// A session whose pipe is there is listed for its user, with exactly its name, whatever other
/// pipes there are.
pub proof fn law_live_sessions_are_listed(
    sid: Seq<char>,
    name: Seq<char>,
    leaves: Seq<Seq<char>>,
)
    requires
        valid_name(name),
    ensures
        listed(sid, leaves, name) <==> leaves.contains(leaf_text(sid, name)),
{
    law_a_leaf_belongs_to_one_session(sid, name, sid);
    if leaves.contains(leaf_text(sid, name)) {
        let i = choose|i: int| 0 <= i < leaves.len() && leaves[i] == leaf_text(sid, name);
        assert(session_of_leaf(sid, leaves[i]) == Some(name));
    }
    if listed(sid, leaves, name) {
        let i = choose|i: int|
            0 <= i < leaves.len() && #[trigger] session_of_leaf(sid, leaves[i]) == Some(name);
        let front = leaf_text(sid, Seq::empty());
        assert(leaves[i] == leaf_text(sid, leaves[i].skip(front.len() as int)));
    }
}

/// Whatever the environment says, an explicit name decides alone; and a session that is picked can
/// always be addressed.
pub proof fn law_targets_are_valid(explicit: Option<Seq<char>>, from_env: Option<Seq<char>>)
    ensures
        explicit is Some ==> target(explicit, from_env) == target(explicit, None),
        target(explicit, from_env) matches Ok(name) ==> valid_name(name),
{
}

/// A session is reached at the pipe `wmux.`, the user, a dot and the name, in the pipe directory.
pub proof fn law_the_path_of_a_session(sid: Seq<char>, name: Seq<char>)
    ensures
        leaf_text(sid, name) == "wmux."@ + sid + "."@ + name,
        path_text(sid, name) == "\\\\.\\pipe\\wmux."@ + sid + "."@ + name,
{
    reveal_strlit("\\\\.\\pipe\\");
    reveal_strlit("wmux.");
    reveal_strlit("\\\\.\\pipe\\wmux.");
    assert("\\\\.\\pipe\\"@ + "wmux."@ == "\\\\.\\pipe\\wmux."@);
    assert("\\\\.\\pipe\\"@ + ("wmux."@ + sid + "."@ + name) == "\\\\.\\pipe\\"@ + "wmux."@ + sid
        + "."@ + name);
}

/// What a session may be called, character for character: 1 to 64 of ASCII letters in either case,
/// digits, `-` and `_`, and nothing else.
pub proof fn law_the_characters_of_names(name: Seq<char>)
    ensures
        valid_name(name) <==> 1 <= name.len() <= 64 && (forall|i: int|
            0 <= i < name.len() ==> ('a' <= #[trigger] name[i] <= 'z') || ('A' <= name[i] <= 'Z')
                || ('0' <= name[i] <= '9') || name[i] == '-' || name[i] == '_'),
{
    law_valid_names(name);
    if forall|i: int|
        0 <= i < name.len() ==> ('a' <= #[trigger] name[i] <= 'z') || ('A' <= name[i] <= 'Z') || (
        '0' <= name[i] <= '9') || name[i] == '-' || name[i] == '_' {
        assert forall|i: int| 0 <= i < name.len() implies name_char(#[trigger] name[i]) by {}
    }
    if valid_name(name) {
        assert forall|i: int| 0 <= i < name.len() implies ('a' <= #[trigger] name[i] <= 'z') || (
        'A' <= name[i] <= 'Z') || ('0' <= name[i] <= '9') || name[i] == '-' || name[i] == '_' by {
            assert(name_char(name[i]));
        }
    }
}

/// What is said about a name that no session can have: that it is empty, or how many bytes it has
/// where that is more than 64, or else the first of its characters that is not allowed.
pub proof fn law_what_is_wrong_with_a_name(name: Seq<char>)
    ensures
        name_error(name) == Some(NameError::Empty) <==> name.len() == 0,
        name_error(name) matches Some(NameError::TooLong(n)) ==> encode_utf8(name).len() > 64 && n
            == encode_utf8(name).len() as usize,
        name.len() > 0 && encode_utf8(name).len() > 64 ==> (name_error(name) matches Some(
            NameError::TooLong(_),
        )),
        name_error(name) matches Some(NameError::BadChar(c)) ==> exists|i: int|
            0 <= i < name.len() && c == #[trigger] name[i] && !(('a' <= c <= 'z') || ('A' <= c
                <= 'Z') || ('0' <= c <= '9') || c == '-' || c == '_') && valid_front(name, i),
{
    if let Some(NameError::BadChar(c)) = name_error(name) {
        lemma_first_bad_char_at(name);
        let i = choose|i: int|
            0 <= i < name.len() && first_bad_char(name) == Some(#[trigger] name[i]) && !name_char(
                name[i],
            ) && forall|k: int| 0 <= k < i ==> name_char(#[trigger] name[k]);
        assert forall|k: int| 0 <= k < i implies ('a' <= #[trigger] name[k] <= 'z') || ('A'
            <= name[k] <= 'Z') || ('0' <= name[k] <= '9') || name[k] == '-' || name[k] == '_' by {
            assert(name_char(name[k]));
        }
        assert(c == name[i]);
    }
}

/// Whether all characters before `i` may stand in a name.
pub open spec fn valid_front(name: Seq<char>, i: int) -> bool {
    forall|k: int|
        0 <= k < i ==> ('a' <= #[trigger] name[k] <= 'z') || ('A' <= name[k] <= 'Z') || ('0'
            <= name[k] <= '9') || name[k] == '-' || name[k] == '_'
}

proof fn lemma_first_bad_char_at(s: Seq<char>)
    requires
        first_bad_char(s) is Some,
    ensures
        exists|i: int|
            0 <= i < s.len() && first_bad_char(s) == Some(#[trigger] s[i]) && !name_char(s[i])
                && forall|k: int| 0 <= k < i ==> name_char(#[trigger] s[k]),
    decreases s.len(),
{
    if name_char(s.first()) {
        let tail = s.drop_first();
        lemma_first_bad_char_at(tail);
        let j = choose|i: int|
            0 <= i < tail.len() && first_bad_char(tail) == Some(#[trigger] tail[i]) && !name_char(
                tail[i],
            ) && forall|k: int| 0 <= k < i ==> name_char(#[trigger] tail[k]);
        let i = j + 1;
        assert(s[i] == tail[j]);
        assert forall|k: int| 0 <= k < i implies name_char(#[trigger] s[k]) by {
            if k > 0 {
                assert(name_char(tail[k - 1]));
            }
        }
    } else {
        assert(first_bad_char(s) == Some(s[0]));
    }
}

/// The session that a command acts on: the one that is named, exactly as it is written; or else the
/// one around it, without white space around its name. Without either there is none.
pub proof fn law_the_target_is_what_was_named(name: Seq<char>, from_env: Option<Seq<char>>)
    ensures
        valid_name(name) ==> target(Some(name), from_env) == Ok::<Seq<char>, TargetError>(name),
        name_error(name) matches Some(e) ==> target(Some(name), from_env) == Err::<
            Seq<char>,
            TargetError,
        >(TargetError::Name(e)),
        valid_name(name) ==> target(None, Some(name)) == Ok::<Seq<char>, TargetError>(name),
        valid_name(name) ==> target(None, Some(seq![' '] + name + seq!['\n'])) == Ok::<
            Seq<char>,
            TargetError,
        >(name),
        (forall|i: int| 0 <= i < name.len() ==> text::white_space(#[trigger] name[i])) ==> target(
            None,
            Some(name),
        ) == Err::<Seq<char>, TargetError>(TargetError::OutsideSession),
        target(None, None) == Err::<Seq<char>, TargetError>(TargetError::OutsideSession),
{
    text::law_only_white_space_is_trimmed_away(name);
    if valid_name(name) {
        law_valid_names(name);
        assert(name_char(name[0]));
        assert(name_char(name[name.len() - 1]));
        text::lemma_trimmed_same(name);
        let around = seq![' '] + name + seq!['\n'];
        assert(around.drop_first() == name + seq!['\n']);
        assert((name + seq!['\n']).drop_last() == name);
        assert((name + seq!['\n']).first() == name[0]);
        reveal_with_fuel(text::trimmed_front, 2);
        reveal_with_fuel(text::trimmed_back, 2);
        assert(text::trimmed_front(around) == name + seq!['\n']);
        assert(text::trimmed(around) == name);
    }
}

/// The order of the listing: the first character in which two names differ decides, by its code
/// point, and a name stands before those that go on behind it.
pub proof fn law_names_are_ordered_by_their_characters(
    common: Seq<char>,
    a: char,
    b: char,
    x: Seq<char>,
    y: Seq<char>,
)
    requires
        a != b,
    ensures
        text_before(common + seq![a] + x, common + seq![b] + y) <==> a < b,
        text_before(common, common + seq![b] + y),
        !text_before(common, common),
        !text_before(common + seq![b] + y, common),
    decreases common.len(),
{
    if common.len() > 0 {
        let tail = common.drop_first();
        law_names_are_ordered_by_their_characters(tail, a, b, x, y);
        assert((common + seq![a] + x).drop_first() == tail + seq![a] + x);
        assert((common + seq![b] + y).drop_first() == tail + seq![b] + y);
    } else {
        assert((common + seq![a] + x).first() == a);
        assert((common + seq![b] + y).first() == b);
    }
}

/// A pipe that is named otherwise is no session's: only `wmux.`, the user, a dot and a valid name.
pub proof fn law_other_pipes_are_not_listed(sid: Seq<char>, leaf: Seq<char>)
    ensures
        session_of_leaf(sid, leaf) matches Some(name) ==> valid_name(name) && leaf == "wmux."@ + sid
            + "."@ + name,
{
    if session_of_leaf(sid, leaf) is Some {
        let front = leaf_text(sid, Seq::empty());
        let name = leaf.skip(front.len() as int);
        assert(leaf == front + name);
        assert("wmux."@ + sid + "."@ + Seq::<char>::empty() == "wmux."@ + sid + "."@);
    }
}

/// Every message about a name says what is wrong with it.
pub proof fn law_name_errors_say_what_is_wrong(len: usize, c: char)
    ensures
        text::holds(NameError::TooLong(len).message_text(), text::decimal_text(len as nat)),
        text::holds(NameError::TooLong(len).message_text(), text::decimal_text(64)),
        text::holds(NameError::BadChar(c).message_text(), text::quoted_char(c)),
        TargetError::Name(NameError::BadChar(c)).message_text() == NameError::BadChar(
            c,
        ).message_text(),
        TargetError::Name(NameError::TooLong(len)).message_text() == NameError::TooLong(
            len,
        ).message_text(),
{
    let none = Seq::<char>::empty();
    let a = "session name is "@;
    let digits = text::decimal_text(len as nat);
    let b = " characters; the maximum is "@;
    let most = text::decimal_text(64);
    text::lemma_holds_in_whole(a, digits, b + most);
    assert(a + digits + (b + most) == NameError::TooLong(len).message_text());
    text::lemma_holds_in_whole(a + digits + b, most, none);
    assert(a + digits + b + most + none == NameError::TooLong(len).message_text());
    text::lemma_holds_in_whole(
        "session name contains "@,
        text::quoted_char(c),
        "; only letters, digits, '-' and '_' are allowed"@,
    );
}

/// White space around the name of the session around a command makes no difference, however much of
/// it there is; what is wrong with the name is said of the name without it.
pub proof fn law_white_space_around_the_session_does_not_count(
    a: Seq<char>,
    name: Seq<char>,
    b: Seq<char>,
)
    requires
        forall|i: int| 0 <= i < a.len() ==> text::white_space(#[trigger] a[i]),
        forall|i: int| 0 <= i < b.len() ==> text::white_space(#[trigger] b[i]),
        name.len() > 0,
        !text::white_space(name.first()),
        !text::white_space(name.last()),
    ensures
        valid_name(name) ==> target(None, Some(a + name + b)) == Ok::<Seq<char>, TargetError>(name),
        name_error(name) matches Some(e) ==> target(None, Some(a + name + b)) == Err::<
            Seq<char>,
            TargetError,
        >(TargetError::Name(e)),
{
    text::law_white_space_around_is_trimmed(a, name, b);
}

/// The words for each of the errors.
pub proof fn law_the_words_for_errors(len: usize, c: char)
    ensures
        NameError::Empty.message_text() == "session name must not be empty"@,
        NameError::TooLong(len).message_text() == "session name is "@ + text::decimal_text(
            len as nat,
        ) + " characters; the maximum is "@ + text::decimal_text(64),
        NameError::BadChar(c).message_text() == "session name contains "@ + text::quoted_char(c)
            + "; only letters, digits, '-' and '_' are allowed"@,
        TargetError::Name(NameError::Empty).message_text() == "session name must not be empty"@,
        TargetError::OutsideSession.message_text()
            == "not running inside a wmux session, so there is nothing to detach.\nName a session explicitly, for example `wmux detach build`, or run `wmux ls` to see what is running."@,
{
}

/// Whether a session is live is whether its pipe is there, among whatever others; and a name that
/// no session can have is refused, not denied.
pub proof fn law_a_session_lives_while_its_pipe_is_there(
    sid: &str,
    leaves: &Vec<String>,
    name: &str,
    live: Result<bool, NameError>,
)
    requires
        call_ensures(session_exists, (sid, leaves, name), live),
    ensures
        valid_name(name@) ==> live == Ok::<bool, NameError>(
            exists|i: int|
                0 <= i < leaves@.len() && (#[trigger] leaves@[i])@ == "wmux."@ + sid@ + "."@
                    + name@,
        ),
        name_error(name@) matches Some(e) ==> live == Err::<bool, NameError>(e),
{
    let all = text::texts(leaves@);
    if valid_name(name@) {
        law_live_sessions_are_listed(sid@, name@, all);
        if all.contains(leaf_text(sid@, name@)) {
            let i = choose|i: int| 0 <= i < all.len() && all[i] == leaf_text(sid@, name@);
            assert(leaves@[i]@ == all[i]);
        }
        if exists|i: int|
            0 <= i < leaves@.len() && (#[trigger] leaves@[i])@ == "wmux."@ + sid@ + "."@ + name@ {
            let i = choose|i: int|
                0 <= i < leaves@.len() && (#[trigger] leaves@[i])@ == "wmux."@ + sid@ + "."@
                    + name@;
            assert(all[i] == leaf_text(sid@, name@));
        }
    }
}

/// The listing holds each live session once, in order, and nothing else.
pub proof fn law_the_listing_is_in_order(
    sid: &str,
    leaves: &Vec<String>,
    names: Vec<String>,
    i: int,
    j: int,
)
    requires
        call_ensures(list_sessions, (sid, leaves), names),
        0 <= i < j < names@.len(),
    ensures
        text_before(names@[i]@, names@[j]@),
        names@[i]@ != names@[j]@,
        valid_name(names@[i]@),
        exists|k: int|
            0 <= k < leaves@.len() && (#[trigger] leaves@[k])@ == "wmux."@ + sid@ + "."@
                + names@[i]@,
{
    let all = text::texts(names@);
    let pipes = text::texts(leaves@);
    assert(text_before(all[i], all[j]));
    lemma_text_before_total(all[i], all[j]);
    assert(all.contains(all[i]));
    let k = choose|k: int|
        0 <= k < pipes.len() && #[trigger] session_of_leaf(sid@, pipes[k]) == Some(all[i]);
    law_other_pipes_are_not_listed(sid@, pipes[k]);
    assert(leaves@[k]@ == pipes[k]);
}

/// A user is who the system says, up to the NUL.
pub proof fn law_the_user_is_read_from_the_system(text: &str, units: &[u16], sid: String)
    requires
        !text@.contains('\0'),
        units@ == wide::utf16(text@).push(0),
        call_ensures(current_user_sid, (units,), sid),
    ensures
        sid@ == text@,
{
    wide::law_wide_text_reads_back(text@);
}

/// What a command is given decides the session that it acts on.
pub proof fn law_a_command_acts_on_its_target(
    explicit: Option<String>,
    from_env: Option<String>,
    resolved: Result<String, TargetError>,
)
    requires
        call_ensures(resolve_target, (explicit, from_env), resolved),
    ensures
        explicit matches Some(name) ==> (valid_name(name@) ==> (resolved matches Ok(got) && got@
            == name@)),
        explicit is None && from_env is None ==> resolved == Err::<String, TargetError>(
            TargetError::OutsideSession,
        ),
        explicit is None ==> (from_env matches Some(name) ==> (valid_name(name@) ==> (
        resolved matches Ok(got) && got@ == name@))),
{
    if let Some(name) = from_env {
        law_the_target_is_what_was_named(name@, None);
    }
}

/// What is said of a name, and where its session is, by the calls.
pub proof fn law_names_are_checked_and_addressed(
    sid: &str,
    name: &str,
    valid: Result<(), NameError>,
    leaf: String,
    path: String,
    checked: Result<String, NameError>,
)
    requires
        call_ensures(validate_name, (name,), valid),
        call_ensures(pipe_leaf_for, (sid, name), leaf),
        call_ensures(pipe_path_for, (sid, name), path),
        call_ensures(pipe_path, (sid, name), checked),
    ensures
        valid is Ok <==> valid_name(name@),
        valid matches Err(e) ==> name_error(name@) == Some(e),
        leaf@ == "wmux."@ + sid@ + "."@ + name@,
        path@ == "\\\\.\\pipe\\wmux."@ + sid@ + "."@ + name@,
        checked is Ok <==> valid_name(name@),
        checked matches Ok(p) ==> p@ == path@,
        checked matches Err(e) ==> name_error(name@) == Some(e),
{
    law_the_path_of_a_session(sid@, name@);
}

/// A pipe is that of a session exactly where it is named like one, and then of that session.
pub proof fn law_pipes_are_read_as_sessions(
    sid: &str,
    leaf: &str,
    name: Option<String>,
    other: Seq<char>,
)
    requires
        call_ensures(session_name_from_leaf, (sid, leaf), name),
    ensures
        valid_name(other) && leaf@ == "wmux."@ + sid@ + "."@ + other ==> (name matches Some(got)
            && got@ == other),
        name matches Some(got) ==> valid_name(got@) && leaf@ == "wmux."@ + sid@ + "."@ + got@,
{
    if valid_name(other) {
        law_a_leaf_belongs_to_one_session(sid@, other, sid@);
    }
    law_other_pipes_are_not_listed(sid@, leaf@);
}

/// The next name is the first of `wmux-0`, `wmux-1` and so on that is not there.
pub proof fn law_the_next_name_is_the_first_free(
    existing: &Vec<String>,
    name: String,
    asked: &str,
    found: bool,
)
    requires
        call_ensures(next_free_name, (existing,), name),
        call_ensures(has_name, (existing, asked), found),
    ensures
        exists|k: nat|
            name@ == "wmux-"@ + #[trigger] text::decimal_text(k) && forall|m: nat|
                m < k ==> text::texts(existing@).contains(
                    "wmux-"@ + #[trigger] text::decimal_text(m),
                ),
        !text::texts(existing@).contains(name@),
        valid_name(name@),
        found <==> exists|i: int| 0 <= i < existing@.len() && (#[trigger] existing@[i])@ == asked@,
{
    let all = text::texts(existing@);
    let k = choose|k: nat| #[trigger] first_free(all, k) && name@ == numbered_name(k);
    assert(name@ == "wmux-"@ + text::decimal_text(k));
    assert forall|m: nat| m < k implies all.contains(
        "wmux-"@ + #[trigger] text::decimal_text(m),
    ) by {
        assert(all.contains(numbered_name(m)));
    }
    if all.contains(asked@) {
        let i = choose|i: int| 0 <= i < all.len() && all[i] == asked@;
        assert(existing@[i]@ == asked@);
    }
    if exists|i: int| 0 <= i < existing@.len() && (#[trigger] existing@[i])@ == asked@ {
        let i = choose|i: int| 0 <= i < existing@.len() && (#[trigger] existing@[i])@ == asked@;
        assert(all[i] == asked@);
    }
}

/// Errors are told in their words.
pub proof fn law_errors_are_told_in_their_words(
    name: NameError,
    target: TargetError,
    first: String,
    second: String,
)
    requires
        call_ensures(NameError::message, (name,), first),
        call_ensures(TargetError::message, (target,), second),
    ensures
        first@ == name.message_text(),
        second@ == target.message_text(),
        SESSION_ENV@ == "WMUX_SESSION"@,
{
}

} // verus!
