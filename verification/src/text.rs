//! Text helpers shared by the other modules.

use vstd::prelude::*;

verus! {

/// `String::push` appends one character.
pub assume_specification[ String::push ](s: &mut String, c: char)
    ensures
        final(s)@ == old(s)@.push(c),
;

/// The characters that carry the Unicode `White_Space` property.
pub open spec fn white_space(c: char) -> bool {
    let u = c as u32;
    ||| 0x09 <= u <= 0x0d
    ||| u == 0x20
    ||| u == 0x85
    ||| u == 0xa0
    ||| u == 0x1680
    ||| 0x2000 <= u <= 0x200a
    ||| u == 0x2028
    ||| u == 0x2029
    ||| u == 0x202f
    ||| u == 0x205f
    ||| u == 0x3000
}

/// Whether a character is white space.
pub fn is_white_space(c: char) -> (yes: bool)
    ensures
        yes == white_space(c),
{
    let u: u32 = c as u32;
    (0x09 <= u && u <= 0x0d) || u == 0x20 || u == 0x85 || u == 0xa0 || u == 0x1680 || (0x2000 <= u
        && u <= 0x200a) || u == 0x2028 || u == 0x2029 || u == 0x202f || u == 0x205f || u == 0x3000
}

/// The characters of a string slice, in order.
pub fn chars_of(s: &str) -> (chars: Vec<char>)
    ensures
        chars@ == s@,
{
    let mut chars: Vec<char> = Vec::new();
    for c in it: s.chars()
        invariant
            it.seq() == s@,
            chars@ == s@.take(it.index() as int),
    {
        chars.push(c);
    }
    chars
}

/// The part of `chars` from `start` up to `end`, as a string.
pub fn text_between(chars: &Vec<char>, start: usize, end: usize) -> (text: String)
    requires
        start <= end <= chars.len(),
    ensures
        text@ == chars@.subrange(start as int, end as int),
{
    let mut text: String = String::new();
    let mut i: usize = start;
    while i < end
        invariant
            start <= i <= end <= chars.len(),
            text@ == chars@.subrange(start as int, i as int),
        decreases end - i,
    {
        text.push(chars[i]);
        i += 1;
    }
    text
}

/// Whether two string slices hold the same characters.
pub fn same_text(a: &str, b: &str) -> (same: bool)
    ensures
        same == (a@ == b@),
{
    let x: Vec<char> = chars_of(a);
    let y: Vec<char> = chars_of(b);
    if x.len() != y.len() {
        return false;
    }
    let mut i: usize = 0;
    while i < x.len()
        invariant
            i <= x.len() == y.len(),
            x@ == a@,
            y@ == b@,
            forall|k: int| 0 <= k < i ==> x[k] == y[k],
        decreases x.len() - i,
    {
        if x[i] != y[i] {
            return false;
        }
        i += 1;
    }
    assert(x@ =~= y@);
    true
}

/// Whether `c` occurs in the text.
pub fn has_char(s: &str, c: char) -> (found: bool)
    ensures
        found == s@.contains(c),
{
    let chars: Vec<char> = chars_of(s);
    let mut i: usize = 0;
    while i < chars.len()
        invariant
            i <= chars.len(),
            chars@ == s@,
            forall|k: int| 0 <= k < i ==> chars[k] != c,
        decreases chars.len() - i,
    {
        if chars[i] == c {
            assert(s@[i as int] == c);
            return true;
        }
        i += 1;
    }
    false
}

/// `s` without the white space at its front.
pub open spec fn trimmed_front(s: Seq<char>) -> Seq<char>
    decreases s.len(),
{
    if s.len() > 0 && white_space(s.first()) {
        trimmed_front(s.drop_first())
    } else {
        s
    }
}

/// `s` without the white space at its back.
pub open spec fn trimmed_back(s: Seq<char>) -> Seq<char>
    decreases s.len(),
{
    if s.len() > 0 && white_space(s.last()) {
        trimmed_back(s.drop_last())
    } else {
        s
    }
}

/// `s` without the white space around it.
pub open spec fn trimmed(s: Seq<char>) -> Seq<char> {
    trimmed_back(trimmed_front(s))
}

/// How many characters of white space stand at the front.
fn white_front(chars: &Vec<char>) -> (n: usize)
    ensures
        n <= chars.len(),
        trimmed_front(chars@) == chars@.skip(n as int),
{
    let mut n: usize = 0;
    assert(chars@.skip(0) == chars@);
    while n < chars.len() && is_white_space(chars[n])
        invariant
            n <= chars.len(),
            trimmed_front(chars@) == trimmed_front(chars@.skip(n as int)),
        decreases chars.len() - n,
    {
        assert(chars@.skip(n as int).drop_first() == chars@.skip(n + 1));
        n += 1;
    }
    n
}

/// The text without the white space around it.
pub fn trim(s: &str) -> (text: String)
    ensures
        text@ == trimmed(s@),
{
    let chars: Vec<char> = chars_of(s);
    let start: usize = white_front(&chars);
    let mut end: usize = chars.len();
    assert(chars@.subrange(start as int, end as int) == chars@.skip(start as int));
    while start < end && is_white_space(chars[end - 1])
        invariant
            start <= end <= chars.len(),
            trimmed(s@) == trimmed_back(chars@.subrange(start as int, end as int)),
        decreases end,
    {
        assert(chars@.subrange(start as int, end as int).drop_last() == chars@.subrange(
            start as int,
            end - 1,
        ));
        end -= 1;
    }
    text_between(&chars, start, end)
}

/// The character for a digit below sixteen.
pub open spec fn digit_char(d: int) -> char {
    if d < 10 {
        (0x30 + d) as char
    } else {
        (0x57 + d) as char
    }
}

/// `n` written with the digits of `base`, most significant first.
pub open spec fn numeral(n: nat, base: nat) -> Seq<char>
    decreases n,
{
    if base < 2 || n < base {
        seq![digit_char(n as int)]
    } else {
        proof {
            assert(n / base < n) by (nonlinear_arith)
                requires
                    2 <= base <= n,
            ;
        }
        numeral(n / base, base).push(digit_char((n % base) as int))
    }
}

/// Writes `n` with the digits of `base`.
fn write_numeral(n: u128, base: u128) -> (text: String)
    requires
        2 <= base <= 16,
    ensures
        text@ == numeral(n as nat, base as nat),
    decreases n,
{
    let mut text: String = if n < base {
        String::new()
    } else {
        assert(n / base < n) by (nonlinear_arith)
            requires
                2 <= base <= n,
        ;
        write_numeral(n / base, base)
    };
    let d: u8 = (n % base) as u8;
    let c: char = digit(d);
    proof {
        if n < base {
            assert(n % base == n) by (nonlinear_arith)
                requires
                    n < base,
            ;
        }
    }
    text.push(c);
    text
}

/// `n` in decimal.
pub open spec fn decimal_text(n: nat) -> Seq<char> {
    numeral(n, 10)
}

/// `n` in lower case hexadecimal.
pub open spec fn hex_text(n: nat) -> Seq<char> {
    numeral(n, 16)
}

/// Writes `n` in decimal.
pub fn decimal(n: u64) -> (text: String)
    ensures
        text@ == decimal_text(n as nat),
{
    write_numeral(n as u128, 10)
}

/// Writes `n` in lower case hexadecimal.
pub fn hex(n: u128) -> (text: String)
    ensures
        text@ == hex_text(n as nat),
{
    write_numeral(n, 16)
}

/// A byte as two hexadecimal digits.
pub open spec fn byte_hex_text(b: u8) -> Seq<char> {
    seq![digit_char(b as int / 16), digit_char(b as int % 16)]
}

/// Writes a digit below sixteen.
fn digit(d: u8) -> (c: char)
    requires
        d < 16,
    ensures
        c == digit_char(d as int),
{
    if d < 10 {
        (0x30 + d) as char
    } else {
        (0x57 + d) as char
    }
}

/// Writes a byte as two hexadecimal digits.
pub fn byte_hex(b: u8) -> (text: String)
    ensures
        text@ == byte_hex_text(b),
{
    let mut text: String = String::new();
    text.push(digit(b / 16));
    text.push(digit(b % 16));
    assert(text@ == byte_hex_text(b));
    text
}

/// Whether a character is one of `0` to `9`.
pub open spec fn decimal_digit(c: char) -> bool {
    '0' <= c <= '9'
}

/// The number that a row of decimal digits stands for.
pub open spec fn digits_value(s: Seq<char>) -> nat
    decreases s.len(),
{
    if s.len() == 0 {
        0
    } else {
        digits_value(s.drop_last()) * 10 + (s.last() as u32 - 0x30) as nat
    }
}

/// The digits of a number as it may be written: with one `+` in front, or without.
pub open spec fn unsigned_digits(s: Seq<char>) -> Seq<char> {
    if s.len() > 0 && s.first() == '+' {
        s.drop_first()
    } else {
        s
    }
}

/// The 32 bit number that a text stands for, if it stands for one.
pub open spec fn parsed_u32(s: Seq<char>) -> Option<u32> {
    let digits = unsigned_digits(s);
    if digits.len() > 0 && (forall|i: int|
        0 <= i < digits.len() ==> decimal_digit(#[trigger] digits[i])) && digits_value(digits)
        <= u32::MAX {
        Some(digits_value(digits) as u32)
    } else {
        None
    }
}

/// Dropping digits at the end never makes a number larger.
proof fn lemma_digits_value_grows(s: Seq<char>, n: int)
    requires
        0 <= n <= s.len(),
    ensures
        digits_value(s.take(n)) <= digits_value(s),
    decreases s.len() - n,
{
    if n < s.len() {
        lemma_digits_value_grows(s, n + 1);
        assert(s.take(n + 1).drop_last() == s.take(n));
    } else {
        assert(s.take(n) == s);
    }
}

/// Reads a decimal number of at most 32 bits.
pub fn parse_u32(s: &str) -> (value: Option<u32>)
    ensures
        value == parsed_u32(s@),
{
    let chars: Vec<char> = chars_of(s);
    let start: usize = if chars.len() > 0 && chars[0] == '+' {
        1
    } else {
        0
    };
    let ghost digits = unsigned_digits(s@);
    assert(digits == chars@.skip(start as int));
    if start == chars.len() {
        return None;
    }
    let mut total: u64 = 0;
    let mut i: usize = start;
    while i < chars.len()
        invariant
            start <= i <= chars.len(),
            digits == unsigned_digits(s@),
            digits == chars@.skip(start as int),
            forall|k: int| 0 <= k < i - start ==> decimal_digit(#[trigger] digits[k]),
            total == digits_value(digits.take(i - start)),
            total <= u32::MAX,
        decreases chars.len() - i,
    {
        let c: char = chars[i];
        assert(digits[i - start] == c);
        if c < '0' || c > '9' {
            return None;
        }
        assert(digits.take(i - start + 1).drop_last() == digits.take(i - start));
        total = total * 10 + (c as u32 - 0x30) as u64;
        if total > u32::MAX as u64 {
            proof {
                lemma_digits_value_grows(digits, i - start + 1);
            }
            return None;
        }
        i += 1;
    }
    assert(digits.take(i - start) == digits);
    Some(total as u32)
}

/// A decimal text is a row of digits that stands for the number it was made from.
pub proof fn lemma_decimal_text(n: nat)
    ensures
        decimal_text(n).len() > 0,
        forall|i: int|
            0 <= i < decimal_text(n).len() ==> decimal_digit(#[trigger] decimal_text(n)[i]),
        digits_value(decimal_text(n)) == n,
    decreases n,
{
    let s = decimal_text(n);
    if n < 10 {
        assert(s.drop_last() == Seq::<char>::empty());
        assert(digits_value(Seq::<char>::empty()) == 0);
    } else {
        lemma_decimal_text(n / 10);
        assert(s.drop_last() == decimal_text(n / 10));
    }
}

/// Reading a decimal text gives the number back.
pub proof fn law_decimal_reads_back(n: u32)
    ensures
        parsed_u32(decimal_text(n as nat)) == Some(n),
{
    let s = decimal_text(n as nat);
    lemma_decimal_text(n as nat);
    assert(decimal_digit(s[0]));
    assert(s[0] != '+');
    assert(unsigned_digits(s) == s);
}

/// Text without white space at its ends is not changed by trimming.
pub proof fn lemma_trimmed_same(s: Seq<char>)
    requires
        s.len() > 0 ==> !white_space(s.first()) && !white_space(s.last()),
    ensures
        trimmed(s) == s,
{
}

/// The texts of a sequence of strings.
pub open spec fn texts(v: Seq<String>) -> Seq<Seq<char>> {
    Seq::new(v.len(), |i: int| v[i]@)
}

/// `parts` one after the other, with `sep` between neighbours.
pub open spec fn joined(parts: Seq<Seq<char>>, sep: Seq<char>) -> Seq<char>
    decreases parts.len(),
{
    if parts.len() == 0 {
        seq![]
    } else if parts.len() == 1 {
        parts[0]
    } else {
        joined(parts.drop_last(), sep) + sep + parts.last()
    }
}

/// Joins the strings with `sep` between neighbours.
pub fn join(parts: &Vec<String>, sep: &str) -> (text: String)
    ensures
        text@ == joined(texts(parts@), sep@),
{
    let mut text: String = String::new();
    let mut i: usize = 0;
    let ghost all = texts(parts@);
    while i < parts.len()
        invariant
            i <= parts.len(),
            all == texts(parts@),
            text@ == joined(all.take(i as int), sep@),
        decreases parts.len() - i,
    {
        if i > 0 {
            text.append(sep);
        }
        text.append(parts[i].as_str());
        proof {
            assert(all.take(i + 1).drop_last() == all.take(i as int));
            assert(all.take(i + 1).last() == parts[i as int]@);
            if i == 0 {
                assert(text@ == parts[0]@);
            }
        }
        i += 1;
    }
    assert(all.take(parts.len() as int) == all);
    text
}

/// The text of an optional string.
pub open spec fn optional(s: Option<String>) -> Option<Seq<char>> {
    match s {
        Some(t) => Some(t@),
        None => None,
    }
}

/// Ten to the power of `k`.
pub open spec fn ten_to(k: nat) -> nat
    decreases k,
{
    if k == 0 {
        1
    } else {
        10 * ten_to((k - 1) as nat)
    }
}

/// A number below ten to the power of `k` has at most `k` digits.
pub proof fn lemma_decimal_len(n: nat, k: nat)
    requires
        k >= 1,
        n < ten_to(k),
    ensures
        decimal_text(n).len() <= k,
    decreases k,
{
    reveal_with_fuel(ten_to, 2);
    if n >= 10 {
        lemma_decimal_len(n / 10, (k - 1) as nat);
    }
}

/// What a character looks like between quotes, with escapes, as `{:?}` prints it.
pub uninterp spec fn quoted_char(c: char) -> Seq<char>;

/// Prints a character with `format!("{:?}")`: between quotes, with escapes.
#[verifier::external_body]
pub(crate) fn quote_char(c: char) -> (text: String)
    ensures
        text@ == quoted_char(c),
{
    format!("{c:?}")
}

/// What a text looks like between quotes, with escapes, as `{:?}` prints it.
pub uninterp spec fn quoted_text(s: Seq<char>) -> Seq<char>;

/// Prints a text with `format!("{:?}")`: between quotes, with escapes.
#[verifier::external_body]
pub(crate) fn quote_text(s: &str) -> (text: String)
    ensures
        text@ == quoted_text(s@),
{
    format!("{s:?}")
}

/// Whether `part` stands in `s` at position `i`.
pub open spec fn stands_at(s: Seq<char>, part: Seq<char>, i: int) -> bool {
    &&& 0 <= i <= s.len() - part.len()
    &&& s.subrange(i, i + part.len()) == part
}

/// Whether `part` stands somewhere in `s`.
pub open spec fn holds(s: Seq<char>, part: Seq<char>) -> bool {
    exists|i: int| #[trigger] stands_at(s, part, i)
}

/// Whether `part` stands in `chars` at position `i`.
fn is_at(chars: &Vec<char>, part: &Vec<char>, i: usize) -> (yes: bool)
    requires
        i <= chars.len(),
    ensures
        yes == stands_at(chars@, part@, i as int),
{
    if chars.len() - i < part.len() {
        return false;
    }
    let mut k: usize = 0;
    while k < part.len()
        invariant
            k <= part.len(),
            i + part.len() <= chars.len(),
            forall|j: int| 0 <= j < k ==> chars[i + j] == #[trigger] part[j],
        decreases part.len() - k,
    {
        if chars[i + k] != part[k] {
            assert(chars@.subrange(i as int, i + part.len())[k as int] != part[k as int]);
            return false;
        }
        k += 1;
    }
    assert(chars@.subrange(i as int, i + part.len()) =~= part@);
    true
}

/// Whether `part` stands somewhere in the text.
pub fn contains_text(s: &str, part: &str) -> (found: bool)
    ensures
        found == holds(s@, part@),
{
    let chars: Vec<char> = chars_of(s);
    let wanted: Vec<char> = chars_of(part);
    let mut i: usize = 0;
    while i < chars.len()
        invariant
            i <= chars.len(),
            chars@ == s@,
            wanted@ == part@,
            forall|k: int| 0 <= k < i ==> !#[trigger] stands_at(s@, part@, k),
        decreases chars.len() - i,
    {
        if is_at(&chars, &wanted, i) {
            return true;
        }
        i += 1;
    }
    is_at(&chars, &wanted, i)
}

/// Whether the text begins with `part`.
pub fn begins_with(s: &str, part: &str) -> (yes: bool)
    ensures
        yes == stands_at(s@, part@, 0),
{
    let chars: Vec<char> = chars_of(s);
    let wanted: Vec<char> = chars_of(part);
    is_at(&chars, &wanted, 0)
}

/// Whether a text holds no end of a line.
pub open spec fn one_line(s: Seq<char>) -> bool {
    !s.contains('\r') && !s.contains('\n')
}

/// Two texts on one line make one line.
pub proof fn lemma_one_line_joined(a: Seq<char>, b: Seq<char>)
    requires
        one_line(a),
        one_line(b),
    ensures
        one_line(a + b),
{
    assert forall|c: char| (a + b).contains(c) implies a.contains(c) || b.contains(c) by {
        let i = choose|i: int| 0 <= i < (a + b).len() && (a + b)[i] == c;
        if i < a.len() {
            assert(a[i] == c);
        } else {
            assert(b[i - a.len()] == c);
        }
    }
}

/// What stands in a part stands in the whole.
pub proof fn lemma_holds_in_whole(front: Seq<char>, part: Seq<char>, back: Seq<char>)
    ensures
        stands_at(front + part + back, part, front.len() as int),
        holds(front + part + back, part),
{
    assert((front + part + back).subrange(
        front.len() as int,
        front.len() as int + part.len(),
    ) == part);
    assert(stands_at(front + part + back, part, front.len() as int));
}

/// The digits of a number are digits or letters.
pub proof fn lemma_numeral_chars(n: nat, base: nat)
    requires
        2 <= base <= 16,
    ensures
        numeral(n, base).len() > 0,
        forall|i: int|
            0 <= i < numeral(n, base).len() ==> '0' <= #[trigger] numeral(n, base)[i] <= '9' || 'a'
                <= numeral(n, base)[i] <= 'f',
    decreases n,
{
    if n >= base {
        assert(n / base < n) by (nonlinear_arith)
            requires
                2 <= base <= n,
        ;
        assert(n % base < base) by (nonlinear_arith)
            requires
                2 <= base,
        ;
        lemma_numeral_chars(n / base, base);
    }
}

/// Different numbers have different digits.
pub proof fn lemma_numeral_injective(m: nat, n: nat, base: nat)
    requires
        2 <= base <= 16,
        numeral(m, base) == numeral(n, base),
    ensures
        m == n,
    decreases m,
{
    lemma_numeral_chars(m / base, base);
    lemma_numeral_chars(n / base, base);
    assert(m % base < base && n % base < base) by (nonlinear_arith)
        requires
            2 <= base,
    ;
    let s = numeral(m, base);
    if m < base {
        if n >= base {
            assert(numeral(n, base).len() == numeral(n / base, base).len() + 1);
            assert(s.len() == 1);
        } else {
            assert(s[0] == digit_char(m as int) && numeral(n, base)[0] == digit_char(n as int));
        }
    } else if n < base {
        assert(s.len() == numeral(m / base, base).len() + 1);
        assert(numeral(n, base).len() == 1);
    } else {
        assert(m / base < m) by (nonlinear_arith)
            requires
                2 <= base <= m,
        ;
        assert(s.drop_last() == numeral(m / base, base));
        assert(s.drop_last() == numeral(n / base, base));
        lemma_numeral_injective(m / base, n / base, base);
        assert(s.last() == digit_char((m % base) as int));
        assert(s.last() == digit_char((n % base) as int));
        assert(m == (m / base) * base + m % base && n == (n / base) * base + n % base)
            by (nonlinear_arith)
            requires
                2 <= base,
        ;
    }
}

/// `n` in decimal, with a sign where it is negative.
pub open spec fn signed_text(n: int) -> Seq<char> {
    if n < 0 {
        "-"@ + decimal_text((-n) as nat)
    } else {
        decimal_text(n as nat)
    }
}

/// Writes `n` in decimal, with a sign where it is negative.
pub fn signed(n: i32) -> (text: String)
    ensures
        text@ == signed_text(n as int),
{
    if n < 0 {
        let mut text: String = "-".to_owned();
        text.append(decimal((-(n as i64)) as u64).as_str());
        text
    } else {
        decimal(n as u64)
    }
}

/// `s` with spaces behind it, up to `width` characters.
pub open spec fn padded(s: Seq<char>, width: nat) -> Seq<char> {
    if s.len() < width {
        s + Seq::new((width - s.len()) as nat, |i: int| ' ')
    } else {
        s
    }
}

/// Puts spaces behind the text, up to `width` characters.
pub fn pad(s: &str, width: usize) -> (text: String)
    ensures
        text@ == padded(s@, width as nat),
{
    let mut text: String = s.to_owned();
    let mut len: usize = chars_of(s).len();
    let ghost start = len;
    while len < width
        invariant
            start == s@.len(),
            start <= len,
            len <= width || len == start,
            text@ == s@ + Seq::new((len - start) as nat, |i: int| ' '),
        decreases width - len,
    {
        text.push(' ');
        assert(Seq::new((len - start) as nat, |i: int| ' ').push(' ') == Seq::new(
            (len + 1 - start) as nat,
            |i: int| ' ',
        ));
        len += 1;
    }
    assert(text@ == padded(s@, width as nat));
    text
}

/// Trimming takes white space from both ends and nothing else: what is left begins and ends with
/// something else, and only white space stood before and behind it. Nothing is left exactly where
/// there was nothing but white space.
pub proof fn law_only_white_space_is_trimmed_away(s: Seq<char>)
    ensures
        exists|a: Seq<char>, b: Seq<char>|
            #![trigger a + trimmed(s) + b]
            s == a + trimmed(s) + b && (forall|i: int| 0 <= i < a.len() ==> white_space(a[i])) && (
            forall|i: int| 0 <= i < b.len() ==> white_space(b[i])),
        trimmed(s).len() > 0 ==> !white_space(trimmed(s).first()) && !white_space(
            trimmed(s).last(),
        ),
        trimmed(s).len() == 0 <==> (forall|i: int|
            0 <= i < s.len() ==> white_space(#[trigger] s[i])),
{
    let front = trimmed_front(s);
    lemma_trimmed_front(s);
    lemma_trimmed_back(front);
    let a = s.take(s.len() - front.len());
    let b = front.skip(trimmed(s).len() as int);
    assert(s == a + front);
    assert(front == trimmed(s) + b);
    assert(s == a + trimmed(s) + b);
    if trimmed(s).len() > 0 {
        assert(trimmed(s).first() == front.first());
        assert(s[a.len() as int] == trimmed(s).first());
    } else {
        assert forall|i: int| 0 <= i < s.len() implies white_space(#[trigger] s[i]) by {
            if i < a.len() {
                assert(white_space(a[i]));
            } else {
                assert(white_space(b[i - a.len()]));
            }
        }
    }
}

proof fn lemma_trimmed_front(s: Seq<char>)
    ensures
        trimmed_front(s).len() <= s.len(),
        s == s.take(s.len() - trimmed_front(s).len()) + trimmed_front(s),
        forall|i: int|
            0 <= i < s.len() - trimmed_front(s).len() ==> white_space(
                #[trigger] s.take(s.len() - trimmed_front(s).len())[i],
            ),
        trimmed_front(s).len() > 0 ==> !white_space(trimmed_front(s).first()),
    decreases s.len(),
{
    if s.len() > 0 && white_space(s.first()) {
        let tail = s.drop_first();
        lemma_trimmed_front(tail);
        let n = s.len() - trimmed_front(s).len();
        assert(s.take(n) == seq![s.first()] + tail.take(n - 1));
        assert(trimmed_front(s) == trimmed_front(tail));
        assert(tail == tail.take(n - 1) + trimmed_front(tail));
        assert(s == seq![s.first()] + tail);
        assert(seq![s.first()] + (tail.take(n - 1) + trimmed_front(tail)) == s.take(n)
            + trimmed_front(s));
        assert forall|i: int| 0 <= i < n implies white_space(#[trigger] s.take(n)[i]) by {
            if i > 0 {
                assert(white_space(tail.take(n - 1)[i - 1]));
            }
        }
    } else {
        assert(s.take(0) + s == s);
    }
}

proof fn lemma_trimmed_back(s: Seq<char>)
    ensures
        trimmed_back(s).len() <= s.len(),
        s == trimmed_back(s) + s.skip(trimmed_back(s).len() as int),
        forall|i: int|
            0 <= i < s.len() - trimmed_back(s).len() ==> white_space(
                #[trigger] s.skip(trimmed_back(s).len() as int)[i],
            ),
        trimmed_back(s).len() > 0 ==> !white_space(trimmed_back(s).last()),
    decreases s.len(),
{
    if s.len() > 0 && white_space(s.last()) {
        let front = s.drop_last();
        lemma_trimmed_back(front);
        let n = trimmed_back(s).len() as int;
        assert(s.skip(n) == front.skip(n).push(s.last()));
        assert(trimmed_back(s) == trimmed_back(front));
        assert(front == trimmed_back(front) + front.skip(n));
        assert(s == front.push(s.last()));
        assert((trimmed_back(front) + front.skip(n)).push(s.last()) == trimmed_back(s) + s.skip(n));
        assert forall|i: int| 0 <= i < s.len() - n implies white_space(#[trigger] s.skip(n)[i]) by {
            if i < front.len() - n {
                assert(white_space(front.skip(n)[i]));
            }
        }
    } else {
        assert(s + s.skip(s.len() as int) == s);
    }
}

/// The blanks of the keyboard are white space, and nothing of ASCII that is printed is.
pub proof fn law_blanks_are_white_space(c: char)
    ensures
        c == ' ' || c == '\t' || c == '\n' || c == '\r' ==> white_space(c),
        '!' <= c <= '~' ==> !white_space(c),
{
}

/// A decimal text is the number, digit by digit: it is a row of digits without a leading zero, the
/// last of them is the last digit of the number, and those before it are the rest of it.
pub proof fn law_decimal_digits(n: nat)
    ensures
        n < 10 ==> decimal_text(n).len() == 1 && decimal_text(n)[0] as u32 == 0x30 + n,
        n >= 10 ==> decimal_text(n).drop_last() == decimal_text(n / 10) && decimal_text(
            n,
        ).last() as u32 == 0x30 + n % 10,
        n > 0 ==> decimal_text(n)[0] != '0',
    decreases n,
{
    if n >= 10 {
        law_decimal_digits(n / 10);
        assert(decimal_text(n).drop_last() == decimal_text(n / 10));
        lemma_decimal_text(n / 10);
        assert(decimal_text(n)[0] == decimal_text(n / 10)[0]);
    }
}

/// A signed number is the digits of its magnitude, with a dash in front exactly where it is
/// negative.
pub proof fn law_signed_numbers(n: int)
    ensures
        n >= 0 ==> signed_text(n) == decimal_text(n as nat),
        n < 0 ==> signed_text(n) == seq!['-'] + decimal_text((-n) as nat),
{
    reveal_strlit("-");
    assert("-"@ == seq!['-']);
}

/// The number that a hexadecimal digit stands for.
pub open spec fn hex_digit_value(c: char) -> int {
    if '0' <= c <= '9' {
        c as u32 - 0x30
    } else {
        c as u32 - 0x57
    }
}

/// Two hexadecimal digits, in lower case, read back as the byte.
pub proof fn law_hex_bytes_read_back(b: u8)
    ensures
        byte_hex_text(b).len() == 2,
        16 * hex_digit_value(byte_hex_text(b)[0]) + hex_digit_value(byte_hex_text(b)[1]) == b,
        forall|i: int|
            0 <= i < 2 ==> '0' <= #[trigger] byte_hex_text(b)[i] <= '9' || 'a' <= byte_hex_text(
                b,
            )[i] <= 'f',
{
}

/// Joining puts the separator between neighbours and nowhere else: one more part comes behind it.
pub proof fn law_parts_are_joined_in_order(parts: Seq<Seq<char>>, part: Seq<char>, sep: Seq<char>)
    ensures
        joined(seq![part], sep) == part,
        joined(Seq::empty(), sep) == Seq::<char>::empty(),
        parts.len() > 0 ==> joined(parts.push(part), sep) == joined(parts, sep) + sep + part,
{
    assert(parts.push(part).drop_last() == parts);
}

/// A text is in another exactly where something stands before it and something behind it.
pub proof fn law_a_part_is_found_wherever_it_stands(
    s: Seq<char>,
    front: Seq<char>,
    part: Seq<char>,
    back: Seq<char>,
)
    ensures
        holds(front + part + back, part),
        stands_at(part + back, part, 0),
        holds(s, part) ==> exists|a: Seq<char>, b: Seq<char>| s == #[trigger] (a + part + b),
        stands_at(s, part, 0) ==> s == part + s.skip(part.len() as int),
{
    lemma_holds_in_whole(front, part, back);
    assert((part + back).subrange(0, part.len() as int) == part);
    if holds(s, part) {
        let i = choose|i: int| #[trigger] stands_at(s, part, i);
        assert(s == s.take(i) + part + s.skip(i + part.len()));
    }
    if stands_at(s, part, 0) {
        assert(s == part + s.skip(part.len() as int));
    }
}

/// A padded text is the text and spaces behind it, as wide as asked for, or as the text where that
/// is wider.
pub proof fn law_padding_goes_behind(s: Seq<char>, width: nat)
    ensures
        padded(s, width).len() == (if s.len() < width {
            width
        } else {
            s.len()
        }),
        padded(s, width).take(s.len() as int) == s,
        forall|i: int| s.len() <= i < padded(s, width).len() ==> #[trigger] padded(s, width)[i]
            == ' ',
{
    assert(padded(s, width).take(s.len() as int) == s);
}

/// A text is on one line exactly where no character of it ends one.
pub proof fn law_one_line(s: Seq<char>)
    ensures
        one_line(s) <==> (forall|i: int|
            0 <= i < s.len() ==> #[trigger] s[i] != '\r' && s[i] != '\n'),
{
    if s.contains('\r') {
        let i = choose|i: int| 0 <= i < s.len() && s[i] == '\r';
        assert(s[i] == '\r');
    }
    if s.contains('\n') {
        let i = choose|i: int| 0 <= i < s.len() && s[i] == '\n';
        assert(s[i] == '\n');
    }
}

/// What a text reads as a number: digits, with one `+` in front or without, and no more than 32
/// bits; and nothing else is one.
pub proof fn law_only_numbers_are_read(s: Seq<char>, n: u32)
    ensures
        parsed_u32(seq!['+'] + decimal_text(n as nat)) == Some(n),
        parsed_u32(Seq::empty()) is None,
        parsed_u32(s) is Some ==> (forall|i: int|
            0 <= i < s.len() ==> '0' <= #[trigger] s[i] <= '9' || (i == 0 && s[i] == '+')),
        s.len() > 0 && (forall|i: int| 0 <= i < s.len() ==> '0' <= #[trigger] s[i] <= '9')
            && digits_value(s) <= u32::MAX ==> parsed_u32(s) == Some(digits_value(s) as u32),
{
    lemma_decimal_text(n as nat);
    let plus = seq!['+'] + decimal_text(n as nat);
    assert(unsigned_digits(plus) == decimal_text(n as nat));
    if parsed_u32(s) is Some {
        let digits = unsigned_digits(s);
        assert forall|i: int| 0 <= i < s.len() implies '0' <= #[trigger] s[i] <= '9' || (i == 0
            && s[i] == '+') by {
            if s.first() == '+' {
                if i > 0 {
                    assert(decimal_digit(digits[i - 1]));
                }
            } else {
                assert(decimal_digit(digits[i]));
            }
        }
    }
    if s.len() > 0 && (forall|i: int| 0 <= i < s.len() ==> '0' <= #[trigger] s[i] <= '9') {
        assert('0' <= s[0] <= '9');
        assert(unsigned_digits(s) == s);
        assert forall|i: int| 0 <= i < s.len() implies decimal_digit(#[trigger] s[i]) by {}
    }
}

/// The characters that are white space, by their numbers, and no other is.
pub proof fn law_the_white_space_there_is(c: char)
    ensures
        ({
            let u = c as u32;
            white_space(c) <==> 9 <= u <= 13 || u == 0x20 || u == 0x85 || u == 0xa0 || u == 0x1680
                || 0x2000 <= u <= 0x200a || u == 0x2028 || u == 0x2029 || u == 0x202f || u
                == 0x205f || u == 0x3000
        }),
{
}

/// White space around a text goes, however much there is of it, and what is inside stays.
pub proof fn law_white_space_around_is_trimmed(a: Seq<char>, s: Seq<char>, b: Seq<char>)
    requires
        forall|i: int| 0 <= i < a.len() ==> white_space(#[trigger] a[i]),
        forall|i: int| 0 <= i < b.len() ==> white_space(#[trigger] b[i]),
        s.len() > 0,
        !white_space(s.first()),
        !white_space(s.last()),
    ensures
        trimmed(a + s + b) == s,
{
    lemma_front_goes(a, s + b);
    assert((s + b).first() == s.first());
    lemma_back_goes(s, b);
    assert(a + s + b == a + (s + b));
}

proof fn lemma_front_goes(a: Seq<char>, s: Seq<char>)
    requires
        forall|i: int| 0 <= i < a.len() ==> white_space(#[trigger] a[i]),
        s.len() > 0,
        !white_space(s.first()),
    ensures
        trimmed_front(a + s) == s,
    decreases a.len(),
{
    if a.len() == 0 {
        assert(a + s == s);
    } else {
        let rest = a.drop_first();
        assert forall|i: int| 0 <= i < rest.len() implies white_space(#[trigger] rest[i]) by {
            assert(white_space(a[i + 1]));
        }
        lemma_front_goes(rest, s);
        assert(white_space(a[0]));
        assert((a + s).drop_first() == rest + s);
    }
}

proof fn lemma_back_goes(s: Seq<char>, b: Seq<char>)
    requires
        forall|i: int| 0 <= i < b.len() ==> white_space(#[trigger] b[i]),
        s.len() > 0,
        !white_space(s.last()),
    ensures
        trimmed_back(s + b) == s,
    decreases b.len(),
{
    if b.len() == 0 {
        assert(s + b == s);
    } else {
        let rest = b.drop_last();
        assert forall|i: int| 0 <= i < rest.len() implies white_space(#[trigger] rest[i]) by {
            assert(white_space(b[i]));
        }
        lemma_back_goes(s, rest);
        assert(white_space(b[b.len() - 1]));
        assert((s + b).drop_last() == s + rest);
    }
}

/// A hexadecimal text is the number, digit by digit, in lower case: the last of them is the last
/// digit of the number, and those before it are the rest of it.
pub proof fn law_hexadecimal_digits(n: nat)
    ensures
        n < 16 ==> hex_text(n).len() == 1,
        n >= 16 ==> hex_text(n).drop_last() == hex_text(n / 16),
        hex_text(n).len() > 0,
        n % 16 < 10 ==> hex_text(n).last() as u32 == 0x30 + n % 16,
        n % 16 >= 10 ==> hex_text(n).last() as u32 == 0x61 + n % 16 - 10,
{
    if n >= 16 {
        assert(hex_text(n).drop_last() == hex_text(n / 16));
    }
}

/// What a row of digits stands for: ten times as much with every digit, and the digit. A number
/// that takes more than 32 bits is not read.
pub proof fn law_digits_count_in_tens(s: Seq<char>, c: char)
    requires
        '0' <= c <= '9',
    ensures
        digits_value(Seq::empty()) == 0,
        digits_value(s.push(c)) == 10 * digits_value(s) + (c as u32 - 48),
        (forall|i: int| 0 <= i < s.len() ==> '0' <= #[trigger] s[i] <= '9') && digits_value(s)
            > 0xffff_ffff ==> parsed_u32(s) is None,
{
    assert(s.push(c).drop_last() == s);
    if (forall|i: int| 0 <= i < s.len() ==> '0' <= #[trigger] s[i] <= '9') && digits_value(s)
        > 0xffff_ffff {
        if s.len() > 0 {
            assert('0' <= s[0] <= '9');
        }
        assert(unsigned_digits(s) == s);
    }
}

/// What is written is what is said to be, whatever the number.
pub proof fn law_numbers_are_written(
    n: u64,
    wide: u128,
    small: i32,
    byte: u8,
    written: String,
    hexed: String,
    signed_one: String,
    pair: String,
)
    requires
        call_ensures(decimal, (n,), written),
        call_ensures(hex, (wide,), hexed),
        call_ensures(signed, (small,), signed_one),
        call_ensures(byte_hex, (byte,), pair),
    ensures
        written@ == decimal_text(n as nat),
        hexed@ == hex_text(wide as nat),
        signed_one@ == signed_text(small as int),
        pair@ == byte_hex_text(byte),
{
}

/// Questions about a text are answered by what stands in it.
pub proof fn law_questions_about_texts(
    a: &str,
    b: &str,
    c: char,
    same: bool,
    found: bool,
    part: bool,
    front: bool,
    trimmed_one: String,
    number: Option<u32>,
)
    requires
        call_ensures(same_text, (a, b), same),
        call_ensures(has_char, (a, c), found),
        call_ensures(contains_text, (a, b), part),
        call_ensures(begins_with, (a, b), front),
        call_ensures(trim, (a,), trimmed_one),
        call_ensures(parse_u32, (a,), number),
    ensures
        same <==> a@ == b@,
        found <==> exists|i: int| 0 <= i < a@.len() && #[trigger] a@[i] == c,
        part <==> exists|x: Seq<char>, y: Seq<char>| a@ == #[trigger] (x + b@ + y),
        front <==> a@.len() >= b@.len() && a@.take(b@.len() as int) == b@,
        trimmed_one@ == trimmed(a@),
        number == parsed_u32(a@),
{
    if a@.contains(c) {
        let i = choose|i: int| 0 <= i < a@.len() && a@[i] == c;
        assert(a@[i] == c);
    }
    if part {
        law_a_part_is_found_wherever_it_stands(a@, Seq::empty(), b@, Seq::empty());
    }
    if exists|x: Seq<char>, y: Seq<char>| a@ == #[trigger] (x + b@ + y) {
        let (x, y) = choose|x: Seq<char>, y: Seq<char>| a@ == #[trigger] (x + b@ + y);
        lemma_holds_in_whole(x, b@, y);
    }
    if a@.len() >= b@.len() {
        assert(a@.take(b@.len() as int) == a@.subrange(0, b@.len() as int));
    }
}

/// Texts are taken apart and put together without a change.
pub proof fn law_texts_are_put_together(
    s: &str,
    chars: Vec<char>,
    start: usize,
    end: usize,
    between: String,
    parts: &Vec<String>,
    sep: &str,
    whole: String,
    width: usize,
    wide: String,
    c: char,
    white: bool,
    one: Option<String>,
)
    requires
        call_ensures(chars_of, (s,), chars),
        start <= end <= chars@.len(),
        call_ensures(text_between, (&chars, start, end), between),
        call_ensures(join, (parts, sep), whole),
        call_ensures(pad, (s, width), wide),
        call_ensures(is_white_space, (c,), white),
    ensures
        chars@ == s@,
        between@ == s@.subrange(start as int, end as int),
        whole@ == joined(texts(parts@), sep@),
        wide@ == padded(s@, width as nat),
        white == white_space(c),
        texts(parts@).len() == parts@.len(),
        forall|i: int| 0 <= i < parts@.len() ==> texts(parts@)[i] == (#[trigger] parts@[i])@,
        one matches Some(t) ==> optional(one) == Some(t@),
        one is None ==> optional(one) is None,
{
}

} // verus!
