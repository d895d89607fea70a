//! Text as the wide system calls take it: UTF-16, with a NUL behind it.

use vstd::prelude::*;

use crate::text;

verus! {

/// `char::from_u32` gives the character with that number, where there is one: numbers above
/// 0x10ffff and those of surrogates have none.
pub assume_specification[ char::from_u32 ](i: u32) -> (c: Option<char>)
    ensures
        c == (if i < 0xd800 || 0xe000 <= i <= 0x10ffff {
            Some(i as char)
        } else {
            None
        }),
;

/// The one or two units of a character.
pub open spec fn units_of(c: char) -> Seq<u16> {
    let u = c as u32;
    if u < 0x10000 {
        seq![u as u16]
    } else {
        seq![
            (0xd800 + (u - 0x10000) / 0x400) as u16,
            (0xdc00 + (u - 0x10000) % 0x400) as u16,
        ]
    }
}

/// A text in UTF-16.
pub open spec fn utf16(s: Seq<char>) -> Seq<u16>
    decreases s.len(),
{
    if s.len() == 0 {
        Seq::empty()
    } else {
        utf16(s.drop_last()) + units_of(s.last())
    }
}

/// The text in UTF-16, with a NUL behind it.
pub fn to_wide(s: &str) -> (wide: Vec<u16>)
    ensures
        wide@ == utf16(s@).push(0),
{
    let chars: Vec<char> = text::chars_of(s);
    let mut wide: Vec<u16> = Vec::new();
    let mut i: usize = 0;
    while i < chars.len()
        invariant
            i <= chars.len(),
            chars@ == s@,
            wide@ == utf16(s@.take(i as int)),
        decreases chars.len() - i,
    {
        let ghost before = wide@;
        let u: u32 = chars[i] as u32;
        if u < 0x10000 {
            wide.push(u as u16);
            assert(wide@ == before + units_of(chars[i as int]));
        } else {
            wide.push((0xd800 + (u - 0x10000) / 0x400) as u16);
            wide.push((0xdc00 + (u - 0x10000) % 0x400) as u16);
            assert(wide@ == before + units_of(chars[i as int]));
        }
        assert(s@.take(i + 1).drop_last() == s@.take(i as int));
        i += 1;
    }
    assert(s@.take(chars.len() as int) == s@);
    wide.push(0);
    wide
}

/// Whether a unit is the first half of a pair.
pub open spec fn high_half(u: u16) -> bool {
    0xd800 <= u < 0xdc00
}

/// Whether a unit is the second half of a pair.
pub open spec fn low_half(u: u16) -> bool {
    0xdc00 <= u < 0xe000
}

/// The character of a pair.
pub open spec fn paired(high: u16, low: u16) -> char {
    (0x10000 + (high - 0xd800) * 0x400 + (low - 0xdc00)) as char
}

/// The text that a row of units stands for. A half without its other half comes out as U+FFFD.
pub open spec fn utf16_text(s: Seq<u16>) -> Seq<char>
    decreases s.len(),
{
    if s.len() == 0 {
        Seq::empty()
    } else if !high_half(s[0]) && !low_half(s[0]) {
        seq![s[0] as char] + utf16_text(s.skip(1))
    } else if high_half(s[0]) && s.len() > 1 && low_half(s[1]) {
        seq![paired(s[0], s[1])] + utf16_text(s.skip(2))
    } else {
        seq!['\u{fffd}'] + utf16_text(s.skip(1))
    }
}

/// What stands in front of the first NUL.
pub open spec fn until_nul(s: Seq<u16>) -> Seq<u16>
    decreases s.len(),
{
    if s.len() == 0 || s[0] == 0 {
        Seq::empty()
    } else {
        seq![s[0]] + until_nul(s.skip(1))
    }
}

/// How many units stand in front of the first NUL.
fn wide_len(wide: &[u16]) -> (len: usize)
    ensures
        len <= wide.len(),
        until_nul(wide@) == wide@.take(len as int),
{
    let mut len: usize = 0;
    assert(wide@.skip(0) == wide@);
    assert(wide@.take(0) + until_nul(wide@) == until_nul(wide@));
    while len < wide.len() && wide[len] != 0
        invariant
            len <= wide.len(),
            until_nul(wide@) == wide@.take(len as int) + until_nul(wide@.skip(len as int)),
        decreases wide.len() - len,
    {
        let ghost rest = wide@.skip(len as int);
        assert(rest.skip(1) == wide@.skip(len + 1));
        assert(wide@.take(len as int) + (seq![rest[0]] + until_nul(rest.skip(1))) == wide@.take(
            len + 1,
        ) + until_nul(rest.skip(1)));
        len += 1;
    }
    assert(wide@.take(len as int) + Seq::<u16>::empty() == wide@.take(len as int));
    len
}

/// The character with this number.
fn char_of(u: u32) -> (c: char)
    requires
        u < 0xd800 || 0xe000 <= u <= 0x10ffff,
    ensures
        c == u as char,
{
    match char::from_u32(u) {
        Some(c) => c,
        None => '\u{fffd}',
    }
}

/// The text in front of the first NUL. A half of a pair without its other half comes out as
/// U+FFFD.
pub fn from_wide(wide: &[u16]) -> (s: String)
    ensures
        s@ == utf16_text(until_nul(wide@)),
{
    let len: usize = wide_len(wide);
    let ghost units = wide@.take(len as int);
    let mut s: String = String::new();
    let mut i: usize = 0;
    assert(units.skip(0) == units);
    assert(s@ + utf16_text(units) == utf16_text(units));
    while i < len
        invariant
            i <= len <= wide.len(),
            units == wide@.take(len as int),
            s@ + utf16_text(units.skip(i as int)) == utf16_text(units),
        decreases len - i,
    {
        let u: u16 = wide[i];
        let ghost before = s@;
        let ghost rest = units.skip(i as int);
        assert(rest[0] == u);
        if u < 0xd800 || 0xe000 <= u {
            let c: char = char_of(u as u32);
            s.push(c);
            proof {
                assert(rest.skip(1) == units.skip(i + 1));
                assert(before + (seq![c] + utf16_text(rest.skip(1))) == before.push(c) + utf16_text(
                    rest.skip(1),
                ));
            }
            i += 1;
        } else if u < 0xdc00 && i + 1 < len && 0xdc00 <= wide[i + 1] && wide[i + 1] < 0xe000 {
            let low: u16 = wide[i + 1];
            assert(rest[1] == low);
            let c: char = char_of(
                0x10000 + (u as u32 - 0xd800) * 0x400 + (low as u32 - 0xdc00),
            );
            s.push(c);
            proof {
                assert(rest.skip(2) == units.skip(i + 2));
                assert(before + (seq![c] + utf16_text(rest.skip(2))) == before.push(c) + utf16_text(
                    rest.skip(2),
                ));
            }
            i += 2;
        } else {
            s.push('\u{fffd}');
            proof {
                if i + 1 < len {
                    assert(rest[1] == wide[i + 1]);
                }
                assert(rest.skip(1) == units.skip(i + 1));
                assert(before + (seq!['\u{fffd}'] + utf16_text(rest.skip(1))) == before.push(
                    '\u{fffd}',
                ) + utf16_text(rest.skip(1)));
            }
            i += 1;
        }
    }
    assert(units.skip(len as int) == Seq::<u16>::empty());
    assert(s@ + Seq::<char>::empty() == s@);
    s
}

/// The units of the first character stand first.
proof fn lemma_utf16_first(s: Seq<char>)
    requires
        s.len() > 0,
    ensures
        utf16(s) == units_of(s.first()) + utf16(s.drop_first()),
    decreases s.len(),
{
    if s.len() == 1 {
        assert(s.drop_last() == Seq::<char>::empty());
        assert(s.drop_first() == Seq::<char>::empty());
        assert(utf16(Seq::<char>::empty()) == Seq::<u16>::empty());
        assert(Seq::<u16>::empty() + units_of(s.last()) == units_of(s.first()) + Seq::<
            u16,
        >::empty());
    } else {
        lemma_utf16_first(s.drop_last());
        assert(s.drop_last().drop_first() == s.drop_first().drop_last());
        let middle = utf16(s.drop_first().drop_last());
        assert((units_of(s.first()) + middle) + units_of(s.last()) == units_of(s.first()) + (middle
            + units_of(s.last())));
    }
}

/// The units of a character: one that is no half of a pair, or a pair that stands for it. None of
/// them is zero, unless the character is.
proof fn lemma_units_of(c: char)
    ensures
        units_of(c).len() == 1 ==> !high_half(units_of(c)[0]) && !low_half(units_of(c)[0])
            && units_of(c)[0] as char == c,
        units_of(c).len() != 1 ==> units_of(c).len() == 2 && high_half(units_of(c)[0]) && low_half(
            units_of(c)[1],
        ) && paired(units_of(c)[0], units_of(c)[1]) == c,
        c != '\0' ==> forall|i: int| 0 <= i < units_of(c).len() ==> #[trigger] units_of(c)[i] != 0,
{
}

/// Text in UTF-16 reads back as the text.
pub proof fn law_utf16_reads_back(s: Seq<char>)
    ensures
        utf16_text(utf16(s)) == s,
    decreases s.len(),
{
    if s.len() > 0 {
        lemma_utf16_first(s);
        let c = s.first();
        let units = utf16(s);
        let rest = utf16(s.drop_first());
        law_utf16_reads_back(s.drop_first());
        lemma_units_of(c);
        assert(s == seq![c] + s.drop_first());
        if units_of(c).len() == 1 {
            assert(units.skip(1) == rest);
        } else {
            assert(units.skip(2) == rest);
        }
    }
}

/// No unit of a text is zero, unless there is a NUL in the text.
proof fn lemma_no_nul(s: Seq<char>)
    requires
        !s.contains('\0'),
    ensures
        forall|i: int| 0 <= i < utf16(s).len() ==> #[trigger] utf16(s)[i] != 0,
    decreases s.len(),
{
    if s.len() > 0 {
        let front = s.drop_last();
        assert forall|c: char| front.contains(c) implies s.contains(c) by {
            let i = choose|i: int| 0 <= i < front.len() && front[i] == c;
            assert(s[i] == c);
        }
        lemma_no_nul(front);
        assert(s[s.len() - 1] != '\0');
        lemma_units_of(s.last());
        let units = units_of(s.last());
        assert forall|i: int| 0 <= i < utf16(s).len() implies #[trigger] utf16(s)[i] != 0 by {
            if i < utf16(front).len() {
                assert(utf16(front)[i] != 0);
            } else {
                assert(units[i - utf16(front).len()] != 0);
            }
        }
    }
}

/// In front of the NUL stands everything, where nothing before it is one.
proof fn lemma_until_nul(units: Seq<u16>)
    requires
        forall|i: int| 0 <= i < units.len() ==> #[trigger] units[i] != 0,
    ensures
        until_nul(units.push(0)) == units,
    decreases units.len(),
{
    let all = units.push(0);
    if units.len() > 0 {
        assert(units[0] != 0);
        assert forall|i: int| 0 <= i < units.skip(1).len() implies #[trigger] units.skip(1)[i]
            != 0 by {
            assert(units[i + 1] != 0);
        }
        lemma_until_nul(units.skip(1));
        assert(all.skip(1) == units.skip(1).push(0));
        assert(units == seq![units[0]] + units.skip(1));
    }
}

/// What a system call is given for a text stands for that text, as long as no NUL is in it.
pub proof fn law_wide_text_reads_back(s: Seq<char>)
    requires
        !s.contains('\0'),
    ensures
        utf16_text(until_nul(utf16(s).push(0))) == s,
{
    lemma_no_nul(s);
    lemma_until_nul(utf16(s));
    law_utf16_reads_back(s);
}

/// A character below 0x10000 is one unit, its number; any other is a pair, ten bits in each half.
pub proof fn law_characters_in_utf16(c: char)
    ensures
        (c as u32) < 0x10000 ==> utf16(seq![c]).len() == 1 && utf16(seq![c])[0] == c as u32,
        (c as u32) >= 0x10000 ==> utf16(seq![c]).len() == 2 && 0xd800 <= utf16(seq![c])[0] < 0xdc00
            && 0xdc00 <= utf16(seq![c])[1] < 0xe000 && 0x10000 + (utf16(seq![c])[0] - 0xd800)
            * 0x400 + (utf16(seq![c])[1] - 0xdc00) == c as u32,
{
    assert(seq![c].drop_last() == Seq::<char>::empty());
    reveal_with_fuel(utf16, 2);
    assert(utf16(seq![c]) == units_of(c));
}

/// Text in UTF-16 is its characters in UTF-16, one behind the other.
pub proof fn law_utf16_goes_character_by_character(a: Seq<char>, b: Seq<char>)
    ensures
        utf16(a + b) == utf16(a) + utf16(b),
        utf16(Seq::empty()) == Seq::<u16>::empty(),
    decreases b.len(),
{
    if b.len() == 0 {
        assert(a + b == a);
        assert(utf16(a) + Seq::<u16>::empty() == utf16(a));
    } else {
        law_utf16_goes_character_by_character(a, b.drop_last());
        assert((a + b).drop_last() == a + b.drop_last());
        assert((a + b).last() == b.last());
        assert(utf16(a) + utf16(b.drop_last()) + units_of(b.last()) == utf16(a) + (utf16(
            b.drop_last(),
        ) + units_of(b.last())));
    }
}

/// What is read, unit by unit: one that is no half is its character, two halves in their order are
/// the character of the pair, and a half that has no other is U+FFFD, after which reading goes on
/// with the next unit.
pub proof fn law_units_are_read_in_order(u: u16, v: u16, rest: Seq<u16>)
    ensures
        utf16_text(Seq::empty()) == Seq::<char>::empty(),
        u < 0xd800 || u >= 0xe000 ==> utf16_text(seq![u] + rest) == seq![u as char] + utf16_text(
            rest,
        ),
        0xd800 <= u < 0xdc00 && 0xdc00 <= v < 0xe000 ==> utf16_text(seq![u, v] + rest) == seq![
            (0x10000 + (u - 0xd800) * 0x400 + (v - 0xdc00)) as char,
        ] + utf16_text(rest),
        0xdc00 <= u < 0xe000 ==> utf16_text(seq![u] + rest) == seq!['\u{fffd}'] + utf16_text(rest),
        0xd800 <= u < 0xdc00 && !(rest.len() > 0 && 0xdc00 <= rest[0] < 0xe000) ==> utf16_text(
            seq![u] + rest,
        ) == seq!['\u{fffd}'] + utf16_text(rest),
{
    assert((seq![u] + rest).skip(1) == rest);
    assert((seq![u, v] + rest).skip(2) == rest);
}

/// What counts is what stands in front of the first NUL: all of it, and nothing behind.
pub proof fn law_text_ends_at_the_first_nul(front: Seq<u16>, back: Seq<u16>)
    requires
        forall|i: int| 0 <= i < front.len() ==> #[trigger] front[i] != 0,
    ensures
        until_nul(front + seq![0u16] + back) == front,
        until_nul(front) == front,
    decreases front.len(),
{
    let all = front + seq![0u16] + back;
    if front.len() > 0 {
        assert(front[0] != 0);
        let rest = front.skip(1);
        assert forall|i: int| 0 <= i < rest.len() implies #[trigger] rest[i] != 0 by {
            assert(front[i + 1] != 0);
        }
        law_text_ends_at_the_first_nul(rest, back);
        assert(all.skip(1) == rest + seq![0u16] + back);
        assert(front == seq![front[0]] + rest);
    }
}

/// A text that goes to the system and comes back is the same, as long as no NUL is in it, whatever
/// stands behind the NUL that ends it.
pub proof fn law_texts_come_back_from_the_system(
    s: &str,
    wide: Vec<u16>,
    buffer: &[u16],
    junk: Seq<u16>,
    back: String,
)
    requires
        !s@.contains('\0'),
        call_ensures(to_wide, (s,), wide),
        buffer@ == wide@ + junk,
        call_ensures(from_wide, (buffer,), back),
    ensures
        back@ == s@,
        wide@.last() == 0,
{
    let units = utf16(s@);
    lemma_no_nul(s@);
    assert(buffer@ == units + seq![0u16] + junk);
    law_text_ends_at_the_first_nul(units, junk);
    law_utf16_reads_back(s@);
}

} // verus!
