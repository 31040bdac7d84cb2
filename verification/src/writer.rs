//! What a markup format provides: the text of each tag, the text of each
//! character, and an estimate of the room that the tags take.

use vstd::prelude::*;
use vstd::utf8::encode_utf8;
use crate::position::Position;
use crate::tag::{Tag, TagView};

verus! {

/// Taken on trust for `String::push`: afterwards the string holds what it
/// held before and, behind that, the character `ch`.
pub assume_specification[ String::push ](s: &mut String, ch: char)
    ensures
        final(s)@ == old(s)@.push(ch),
;

/// Taken on trust for `String::with_capacity`: the string that it returns
/// is empty, whatever room it has. The function panics where the capacity
/// is over `isize::MAX` bytes, so such a capacity may not be asked for.
pub assume_specification[ String::with_capacity ](capacity: usize) -> (s: String)
    requires
        capacity <= isize::MAX,
    ensures
        s@ == Seq::<char>::empty(),
;

/// The character for the decimal digit `d`.
pub open spec fn digit_char(d: nat) -> char
    recommends
        d < 10,
{
    ((48 + d) as u8) as char
}

/// The decimal numeral of `n`, without leading zeros.
pub open spec fn decimal(n: nat) -> Seq<char>
    decreases n,
{
    if n < 10 {
        seq![digit_char(n)]
    } else {
        decimal(n / 10).push(digit_char(n % 10))
    }
}

/// Appends the decimal numeral of `n` to `buf`.
pub fn push_decimal(n: u64, buf: &mut String)
    ensures
        final(buf)@ == old(buf)@ + decimal(n as nat),
    decreases n,
{
    if n >= 10 {
        push_decimal(n / 10, buf);
    }
    let d: u8 = (n % 10) as u8;
    buf.push((48 + d) as char);
}

/// The number of digits of the decimal numeral of `n`.
pub fn decimal_len(n: u64) -> (len: usize)
    ensures
        len == decimal(n as nat).len(),
        1 <= len <= 20,
{
    let mut rest: u64 = n;
    let mut len: usize = 1;
    proof {
        assert(rest * pow10(0) == rest) by (nonlinear_arith)
            requires
                pow10(0) == 1,
        ;
    }
    while rest >= 10
        invariant
            1 <= len <= 20,
            len + decimal(rest as nat).len() == decimal(n as nat).len() + 1,
            rest * pow10((len - 1) as nat) <= u64::MAX,
        decreases rest,
    {
        proof {
            lemma_pow10_step((len - 1) as nat);
            assert((rest / 10) * pow10(len as nat) <= rest * pow10((len - 1) as nat))
                by (nonlinear_arith)
                requires
                    pow10(len as nat) == 10 * pow10((len - 1) as nat),
                    pow10((len - 1) as nat) > 0,
                    rest >= 0,
            ;
            if len == 20 {
                lemma_pow10_twenty();
                assert(false) by (nonlinear_arith)
                    requires
                        (rest / 10) * pow10(20) <= u64::MAX,
                        pow10(20) > u64::MAX,
                        rest / 10 >= 1,
                ;
            }
        }
        rest = rest / 10;
        len = len + 1;
    }
    len
}

/// Ten to the power of `e`.
spec fn pow10(e: nat) -> nat
    decreases e,
{
    if e == 0 {
        1
    } else {
        10 * pow10((e - 1) as nat)
    }
}

proof fn lemma_pow10_step(e: nat)
    ensures
        pow10(e + 1) == 10 * pow10(e),
        pow10(e) > 0,
    decreases e,
{
    if e > 0 {
        lemma_pow10_step((e - 1) as nat);
    }
}

proof fn lemma_pow10_twenty()
    ensures
        pow10(20) > u64::MAX,
{
    reveal_with_fuel(pow10, 21);
}

/// A markup format.
///
/// The constants are the literal parts of the format's tags: a start and an
/// end for the plain kinds, and a start, a middle and an end for the kinds
/// whose tags carry a url, an id or a language.
pub trait TagWriter {
    const BOLD_START: &'static str;

    const BOLD_END: &'static str;

    const ITALIC_START: &'static str;

    const ITALIC_END: &'static str;

    const UNDERLINE_START: &'static str;

    const UNDERLINE_END: &'static str;

    const STRIKETHROUGH_START: &'static str;

    const STRIKETHROUGH_END: &'static str;

    const SPOILER_START: &'static str;

    const SPOILER_END: &'static str;

    const CODE_START: &'static str;

    const CODE_END: &'static str;

    const PRE_NO_LANG_START: &'static str;

    const PRE_NO_LANG_END: &'static str;

    const PRE_START: &'static str;

    const PRE_MIDDLE: &'static str;

    const PRE_END: &'static str;

    const TEXT_LINK_START: &'static str;

    const TEXT_LINK_MIDDLE: &'static str;

    const TEXT_LINK_END: &'static str;

    const TEXT_MENTION_START: &'static str;

    const TEXT_MENTION_MIDDLE: &'static str;

    const TEXT_MENTION_END: &'static str;

    const CUSTOM_EMOJI_START: &'static str;

    const CUSTOM_EMOJI_MIDDLE: &'static str;

    const CUSTOM_EMOJI_END: &'static str;

    /// The text that stands for `tag` in this format.
    spec fn tag_text(tag: TagView) -> Seq<char>;

    /// The text that stands for the character `ch` of the input in this
    /// format: the character itself, or its escaped form.
    spec fn char_text(ch: char) -> Seq<char>;

    /// Appends the text of `tag` to `buf`.
    fn write_tag(tag: &Tag, buf: &mut String)
        ensures
            final(buf)@ == old(buf)@ + Self::tag_text(tag@),
    ;

    /// Appends `ch` to `buf`, escaped where the format asks for it.
    fn write_char(ch: char, buf: &mut String)
        ensures
            final(buf)@ == old(buf)@ + Self::char_text(ch),
    ;
}

/// The number of bytes that `s` takes in a `String`, as `str::len` gives
/// it.
pub open spec fn byte_len(s: Seq<char>) -> nat {
    (encode_utf8(s).len() as usize) as nat
}

/// The number of bytes that are set aside for `tag` in the format `W`.
///
/// The sizes of the two tags of an entity add up to the room that the
/// entity's tags take; what is written between a start and a middle part is
/// counted with the start tag, whichever of the two tags writes it.
pub open spec fn tag_size<W: TagWriter>(tag: TagView) -> nat {
    match tag {
        TagView::BoldStart => byte_len(W::BOLD_START@),
        TagView::BoldEnd => byte_len(W::BOLD_END@),
        TagView::ItalicStart => byte_len(W::ITALIC_START@),
        TagView::ItalicEnd => byte_len(W::ITALIC_END@),
        TagView::UnderlineStart => byte_len(W::UNDERLINE_START@),
        TagView::UnderlineEnd => byte_len(W::UNDERLINE_END@),
        TagView::StrikethroughStart => byte_len(W::STRIKETHROUGH_START@),
        TagView::StrikethroughEnd => byte_len(W::STRIKETHROUGH_END@),
        TagView::SpoilerStart => byte_len(W::SPOILER_START@),
        TagView::SpoilerEnd => byte_len(W::SPOILER_END@),
        TagView::CodeStart => byte_len(W::CODE_START@),
        TagView::CodeEnd => byte_len(W::CODE_END@),
        TagView::PreStart(Some(language)) => byte_len(W::PRE_START@) + byte_len(language),
        TagView::PreStart(None) => byte_len(W::PRE_NO_LANG_START@),
        TagView::PreEnd(true) => byte_len(W::PRE_MIDDLE@) + byte_len(W::PRE_END@),
        TagView::PreEnd(false) => byte_len(W::PRE_NO_LANG_END@),
        TagView::TextLinkStart(url) => byte_len(W::TEXT_LINK_START@) + byte_len(url),
        TagView::TextLinkEnd(_) => byte_len(W::TEXT_LINK_MIDDLE@) + byte_len(W::TEXT_LINK_END@),
        TagView::TextMentionStart(id) => byte_len(W::TEXT_MENTION_START@) + decimal(
            id as nat,
        ).len(),
        TagView::TextMentionEnd(_) => byte_len(W::TEXT_MENTION_MIDDLE@) + byte_len(
            W::TEXT_MENTION_END@,
        ),
        TagView::CustomEmojiStart(id) => byte_len(W::CUSTOM_EMOJI_START@) + byte_len(id),
        TagView::CustomEmojiEnd(_) => byte_len(W::CUSTOM_EMOJI_MIDDLE@) + byte_len(
            W::CUSTOM_EMOJI_END@,
        ),
    }
}

/// The sum of the sizes of the tags of `tags`.
pub open spec fn tags_size<W: TagWriter>(tags: Seq<(Position, Tag)>) -> nat
    decreases tags.len(),
{
    if tags.len() == 0 {
        0
    } else {
        tags_size::<W>(tags.drop_last()) + tag_size::<W>(tags.last().1@)
    }
}

/// The number of bytes that is set aside for `tag` in the format `W`, or
/// `usize::MAX` where the number is greater than that.
pub fn get_tag_size<W: TagWriter>(tag: &Tag) -> (size: usize)
    ensures
        size == if tag_size::<W>(tag@) <= usize::MAX {
            tag_size::<W>(tag@)
        } else {
            usize::MAX as nat
        },
{
    match tag {
        Tag::BoldStart => W::BOLD_START.len(),
        Tag::BoldEnd => W::BOLD_END.len(),
        Tag::ItalicStart => W::ITALIC_START.len(),
        Tag::ItalicEnd => W::ITALIC_END.len(),
        Tag::UnderlineStart => W::UNDERLINE_START.len(),
        Tag::UnderlineEnd => W::UNDERLINE_END.len(),
        Tag::StrikethroughStart => W::STRIKETHROUGH_START.len(),
        Tag::StrikethroughEnd => W::STRIKETHROUGH_END.len(),
        Tag::SpoilerStart => W::SPOILER_START.len(),
        Tag::SpoilerEnd => W::SPOILER_END.len(),
        Tag::CodeStart => W::CODE_START.len(),
        Tag::CodeEnd => W::CODE_END.len(),
        Tag::PreStart(language) => match language {
            Some(l) => W::PRE_START.len().saturating_add(l.len()),
            None => W::PRE_NO_LANG_START.len(),
        },
        Tag::PreEnd(has_language) => {
            if *has_language {
                W::PRE_MIDDLE.len().saturating_add(W::PRE_END.len())
            } else {
                W::PRE_NO_LANG_END.len()
            }
        },
        Tag::TextLinkStart(url) => W::TEXT_LINK_START.len().saturating_add(url.len()),
        Tag::TextLinkEnd(_) => W::TEXT_LINK_MIDDLE.len().saturating_add(W::TEXT_LINK_END.len()),
        Tag::TextMentionStart(id) => W::TEXT_MENTION_START.len().saturating_add(
            decimal_len(*id),
        ),
        Tag::TextMentionEnd(_) => W::TEXT_MENTION_MIDDLE.len().saturating_add(
            W::TEXT_MENTION_END.len(),
        ),
        Tag::CustomEmojiStart(id) => W::CUSTOM_EMOJI_START.len().saturating_add(id.len()),
        Tag::CustomEmojiEnd(_) => W::CUSTOM_EMOJI_MIDDLE.len().saturating_add(
            W::CUSTOM_EMOJI_END.len(),
        ),
    }
}

/// The number of bytes that the tags of `tags` take in the format `W`, for
/// sizing the output in advance. Where the sum is greater than `usize::MAX`
/// the result is `usize::MAX`.
pub fn get_tags_sizes<W: TagWriter>(tags: &[(Position, Tag)]) -> (size: usize)
    ensures
        size == if tags_size::<W>(tags@) <= usize::MAX {
            tags_size::<W>(tags@)
        } else {
            usize::MAX as nat
        },
{
    let mut size: usize = 0;
    let mut i: usize = 0;
    while i < tags.len()
        invariant
            i <= tags.len(),
            size == if tags_size::<W>(tags@.take(i as int)) <= usize::MAX {
                tags_size::<W>(tags@.take(i as int))
            } else {
                usize::MAX as nat
            },
        decreases tags.len() - i,
    {
        proof {
            assert(tags@.take(i + 1).drop_last() =~= tags@.take(i as int));
        }
        size = size.saturating_add(get_tag_size::<W>(&tags[i].1));
        i = i + 1;
    }
    proof {
        assert(tags@.take(i as int) =~= tags@);
    }
    size
}

} // verus!
