//! UTF-16 code units of a text, by which entity offsets are counted.

use vstd::prelude::*;
use vstd::pervasive::unreached;

verus! {

/// Whether `v` is the number of a character: at most `0x10FFFF` and no
/// surrogate.
pub open spec fn is_scalar_value(v: u32) -> bool {
    v <= 0xD7FF || 0xE000 <= v <= 0x10FFFF
}

/// Whether `unit` is one half of a surrogate pair.
pub open spec fn is_surrogate(unit: u16) -> bool {
    0xD800 <= unit <= 0xDFFF
}

/// Whether `unit` is the first half of a surrogate pair.
pub open spec fn is_high_surrogate(unit: u16) -> bool {
    0xD800 <= unit <= 0xDBFF
}

/// Whether `unit` is the second half of a surrogate pair.
pub open spec fn is_low_surrogate(unit: u16) -> bool {
    0xDC00 <= unit <= 0xDFFF
}

/// The number of UTF-16 code units that `c` takes: two for a character
/// outside the basic multilingual plane, else one.
pub open spec fn utf16_width(c: char) -> nat {
    if (c as u32) < 0x10000 {
        1
    } else {
        2
    }
}

/// The UTF-16 code units of `c`.
pub open spec fn char_units(c: char) -> Seq<u16> {
    let v = c as u32;
    if v < 0x10000 {
        seq![v as u16]
    } else {
        seq![
            (0xD800 + (v - 0x10000) / 0x400) as u16,
            (0xDC00 + (v - 0x10000) % 0x400) as u16,
        ]
    }
}

/// The number of UTF-16 code units that `text` takes.
pub open spec fn utf16_len(text: Seq<char>) -> nat
    decreases text.len(),
{
    if text.len() == 0 {
        0
    } else {
        utf16_len(text.drop_last()) + utf16_width(text.last())
    }
}

/// The UTF-16 code units of `text`.
pub open spec fn utf16_units(text: Seq<char>) -> Seq<u16>
    decreases text.len(),
{
    if text.len() == 0 {
        Seq::empty()
    } else {
        utf16_units(text.drop_last()) + char_units(text.last())
    }
}

/// The UTF-16 index at which the character `text[i]` begins. For `i` equal
/// to the length of `text` it is the UTF-16 length of `text`.
pub open spec fn char_start(text: Seq<char>, i: int) -> int {
    utf16_len(text.take(i)) as int
}

/// The number of a character is at most `0x10FFFF` and no surrogate. This
/// is known of every character; it has to be said of one that is taken out
/// of a sequence before the character is put into a value of another type.
pub proof fn lemma_char_is_scalar(c: char)
    ensures
        0 <= c as int <= 0xD7FF || 0xE000 <= c as int <= 0x10FFFF,
{
}

/// What the code units of one character look like. A character of width
/// one is no surrogate; a character of width two is a high surrogate
/// followed by a low one.
pub proof fn lemma_char_units(c: char)
    ensures
        char_units(c).len() == utf16_width(c),
        utf16_width(c) == 1 ==> !is_surrogate(char_units(c)[0]) && char_units(c)[0] as u32
            == c as u32,
        utf16_width(c) == 2 ==> is_high_surrogate(char_units(c)[0]) && is_low_surrogate(
            char_units(c)[1],
        ) && 0x10000 + (char_units(c)[0] - 0xD800) * 0x400 + (char_units(c)[1] - 0xDC00)
            == c as u32,
{
}

/// `utf16_units` has as many items as `utf16_len` says.
pub proof fn lemma_units_len(text: Seq<char>)
    ensures
        utf16_units(text).len() == utf16_len(text),
    decreases text.len(),
{
    if text.len() > 0 {
        lemma_units_len(text.drop_last());
        lemma_char_units(text.last());
    }
}

/// Each character begins where the one before it ends.
pub proof fn lemma_char_start_step(text: Seq<char>, i: int)
    requires
        0 <= i < text.len(),
    ensures
        char_start(text, i + 1) == char_start(text, i) + utf16_width(text[i]),
        utf16_units(text.take(i + 1)) =~= utf16_units(text.take(i)) + char_units(text[i]),
{
    assert(text.take(i + 1).drop_last() =~= text.take(i));
}

/// The start of a character grows with its index.
proof fn lemma_char_start_grows(text: Seq<char>, i: int, j: int)
    requires
        0 <= i <= j <= text.len(),
    ensures
        0 <= char_start(text, i) <= char_start(text, j),
        i < j ==> char_start(text, i) < char_start(text, j),
    decreases j - i,
{
    if i < j {
        lemma_char_start_step(text, j - 1);
        lemma_char_start_grows(text, i, j - 1);
    }
}

/// The start of a character grows with its index, and no character begins
/// behind the end of the text.
pub proof fn lemma_char_start_monotonic(text: Seq<char>, i: int, j: int)
    requires
        0 <= i <= j <= text.len(),
    ensures
        0 <= char_start(text, i) <= char_start(text, j) <= utf16_len(text),
        i < j ==> char_start(text, i) < char_start(text, j),
        char_start(text, 0) == 0,
        char_start(text, text.len() as int) == utf16_len(text),
{
    assert(text.take(text.len() as int) =~= text);
    lemma_char_start_grows(text, i, j);
    lemma_char_start_grows(text, j, text.len() as int);
}

/// The code units of the character `text[i]` stand in the code units of
/// `text` from `char_start(text, i)` on.
pub proof fn lemma_units_at(text: Seq<char>, i: int)
    requires
        0 <= i < text.len(),
    ensures
        char_start(text, i) + utf16_width(text[i]) <= utf16_units(text).len(),
        forall|k: int|
            0 <= k < utf16_width(text[i]) ==> utf16_units(text)[char_start(text, i) + k]
                == #[trigger] char_units(text[i])[k],
    decreases text.len(),
{
    let front = text.drop_last();
    lemma_units_len(front);
    lemma_char_units(text.last());
    if i < text.len() - 1 {
        lemma_units_at(front, i);
        assert(front.take(i) =~= text.take(i));
    }
}

/// Taken on trust for `char::from_u32`: it returns the character with the
/// number `i`, and `None` where `i` is not the number of a character.
pub assume_specification[ char::from_u32 ](i: u32) -> (r: Option<char>)
    ensures
        is_scalar_value(i) ==> r == Some(i as char),
        !is_scalar_value(i) ==> r is None,
;

/// Whether `unit` is one half of a surrogate pair.
pub fn unit_is_surrogate(unit: u16) -> (r: bool)
    ensures
        r == is_surrogate(unit),
{
    0xD800 <= unit && unit <= 0xDFFF
}

/// The character that a single code unit stands for.
pub fn decode_unit(unit: u16) -> (c: char)
    requires
        !is_surrogate(unit),
    ensures
        char_units(c) =~= seq![unit],
{
    match char::from_u32(unit as u32) {
        Some(c) => c,
        None => unreached(),
    }
}

/// The character that a surrogate pair stands for.
pub fn decode_pair(high: u16, low: u16) -> (c: char)
    requires
        is_high_surrogate(high),
        is_low_surrogate(low),
    ensures
        char_units(c) =~= seq![high, low],
{
    let v: u32 = 0x10000 + (high as u32 - 0xD800) * 0x400 + (low as u32 - 0xDC00);
    match char::from_u32(v) {
        Some(c) => c,
        None => unreached(),
    }
}

/// Appends the code units of `c` to `units`.
pub fn push_char_units(c: char, units: &mut Vec<u16>)
    ensures
        final(units)@ =~= old(units)@ + char_units(c),
{
    let v: u32 = c as u32;
    if v < 0x10000 {
        units.push(v as u16);
    } else {
        let w: u32 = v - 0x10000;
        units.push((0xD800 + w / 0x400) as u16);
        units.push((0xDC00 + w % 0x400) as u16);
    }
}

/// The UTF-16 code units of `text`.
pub fn encode_utf16(text: &str) -> (units: Vec<u16>)
    ensures
        units@ =~= utf16_units(text@),
{
    let mut units: Vec<u16> = Vec::new();
    for c in it: text.chars()
        invariant
            it.seq() == text@,
            units@ =~= utf16_units(text@.take(it.index() as int)),
    {
        proof {
            lemma_char_start_step(text@, it.index() as int);
        }
        push_char_units(c, &mut units);
    }
    proof {
        assert(text@.take(text@.len() as int) =~= text@);
    }
    units
}

/// Two characters with the same code units are the same character.
pub proof fn lemma_char_units_injective(a: char, b: char)
    requires
        char_units(a) =~= char_units(b),
    ensures
        a == b,
{
    lemma_char_units(a);
    lemma_char_units(b);
}

} // verus!
