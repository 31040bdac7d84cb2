//! The Markdown format.

use vstd::prelude::*;
use vstd::string::StringExecFns;
use crate::tag::{Tag, TagView};
use crate::writer::{TagWriter, decimal, push_decimal};

verus! {

/// Writes entities as Markdown delimiters and puts a backslash before each
/// character that Markdown would read as markup.
pub struct Markdown;

/// The characters that Markdown reads as markup.
pub const ESCAPE_CHARS: [char; 19] = [
    '\\',
    '_',
    '*',
    '[',
    ']',
    '(',
    ')',
    '~',
    '`',
    '>',
    '#',
    '+',
    '-',
    '=',
    '|',
    '{',
    '}',
    '.',
    '!',
];

/// Whether `ch` is one of [`ESCAPE_CHARS`].
pub open spec fn is_reserved(ch: char) -> bool {
    ESCAPE_CHARS@.contains(ch)
}

/// The text that stands for `ch` in Markdown: the character itself, behind
/// a backslash where it is reserved.
pub open spec fn markdown_escaped(ch: char) -> Seq<char> {
    if is_reserved(ch) {
        seq!['\\', ch]
    } else {
        seq![ch]
    }
}

/// Whether `ch` has to be escaped.
pub fn needs_escape(ch: char) -> (r: bool)
    ensures
        r == is_reserved(ch),
{
    let mut i: usize = 0;
    while i < 19
        invariant
            i <= 19,
            forall|k: int| 0 <= k < i ==> ESCAPE_CHARS@[k] != ch,
        decreases 19 - i,
    {
        if ESCAPE_CHARS[i] == ch {
            return true;
        }
        i = i + 1;
    }
    false
}

impl TagWriter for Markdown {
    const BOLD_START: &'static str = "**";

    const BOLD_END: &'static str = "**";

    const ITALIC_START: &'static str = "_\r";

    const ITALIC_END: &'static str = "_\r";

    const UNDERLINE_START: &'static str = "__\r";

    const UNDERLINE_END: &'static str = "__\r";

    const STRIKETHROUGH_START: &'static str = "~";

    const STRIKETHROUGH_END: &'static str = "~";

    const SPOILER_START: &'static str = "||";

    const SPOILER_END: &'static str = "||";

    const CODE_START: &'static str = "`";

    const CODE_END: &'static str = "`";

    const PRE_NO_LANG_START: &'static str = "```\n";

    const PRE_NO_LANG_END: &'static str = "```\n";

    const PRE_START: &'static str = "```";

    const PRE_MIDDLE: &'static str = "\n";

    const PRE_END: &'static str = "```\n";

    const TEXT_LINK_START: &'static str = "[";

    const TEXT_LINK_MIDDLE: &'static str = "](";

    const TEXT_LINK_END: &'static str = ")";

    const TEXT_MENTION_START: &'static str = "[";

    const TEXT_MENTION_MIDDLE: &'static str = "](tg://user?id=";

    const TEXT_MENTION_END: &'static str = ")";

    const CUSTOM_EMOJI_START: &'static str = "[";

    const CUSTOM_EMOJI_MIDDLE: &'static str = "](tg://emoji?id=";

    const CUSTOM_EMOJI_END: &'static str = ")";

    /// A pair of delimiters for each kind. The delimiters of italic and of
    /// underlined text end in a carriage return, which keeps the two apart
    /// where they meet. A url or an id is written into the end tag, behind
    /// the text that it belongs to; the language of a code block is written
    /// into the start tag, behind the opening fence.
    open spec fn tag_text(tag: TagView) -> Seq<char> {
        match tag {
            TagView::BoldStart => "**"@,
            TagView::BoldEnd => "**"@,
            TagView::ItalicStart => "_\r"@,
            TagView::ItalicEnd => "_\r"@,
            TagView::UnderlineStart => "__\r"@,
            TagView::UnderlineEnd => "__\r"@,
            TagView::StrikethroughStart => "~"@,
            TagView::StrikethroughEnd => "~"@,
            TagView::SpoilerStart => "||"@,
            TagView::SpoilerEnd => "||"@,
            TagView::CodeStart => "`"@,
            TagView::CodeEnd => "`"@,
            TagView::PreStart(Some(language)) => "```"@ + language + "\n"@,
            TagView::PreStart(None) => "```\n"@,
            TagView::PreEnd(_) => "```\n"@,
            TagView::TextLinkStart(_) => "["@,
            TagView::TextLinkEnd(url) => "]("@ + url + ")"@,
            TagView::TextMentionStart(_) => "["@,
            TagView::TextMentionEnd(id) => "](tg://user?id="@ + decimal(id as nat) + ")"@,
            TagView::CustomEmojiStart(_) => "["@,
            TagView::CustomEmojiEnd(id) => "](tg://emoji?id="@ + id + ")"@,
        }
    }

    open spec fn char_text(ch: char) -> Seq<char> {
        markdown_escaped(ch)
    }

    fn write_tag(tag: &Tag, buf: &mut String) {
        match tag {
            Tag::BoldStart => buf.append(Self::BOLD_START),
            Tag::BoldEnd => buf.append(Self::BOLD_END),
            Tag::ItalicStart => buf.append(Self::ITALIC_START),
            Tag::ItalicEnd => buf.append(Self::ITALIC_END),
            Tag::UnderlineStart => buf.append(Self::UNDERLINE_START),
            Tag::UnderlineEnd => buf.append(Self::UNDERLINE_END),
            Tag::StrikethroughStart => buf.append(Self::STRIKETHROUGH_START),
            Tag::StrikethroughEnd => buf.append(Self::STRIKETHROUGH_END),
            Tag::SpoilerStart => buf.append(Self::SPOILER_START),
            Tag::SpoilerEnd => buf.append(Self::SPOILER_END),
            Tag::CodeStart => buf.append(Self::CODE_START),
            Tag::CodeEnd => buf.append(Self::CODE_END),
            Tag::PreStart(language) => match language {
                Some(language) => {
                    buf.append(Self::PRE_START);
                    buf.append(language);
                    buf.append(Self::PRE_MIDDLE);
                },
                None => buf.append(Self::PRE_NO_LANG_START),
            },
            Tag::PreEnd(has_language) => buf.append(
                if *has_language {
                    Self::PRE_END
                } else {
                    Self::PRE_NO_LANG_END
                },
            ),
            Tag::TextLinkStart(_) => buf.append(Self::TEXT_LINK_START),
            Tag::TextLinkEnd(url) => {
                buf.append(Self::TEXT_LINK_MIDDLE);
                buf.append(url);
                buf.append(Self::TEXT_LINK_END);
            },
            Tag::TextMentionStart(_) => buf.append(Self::TEXT_MENTION_START),
            Tag::TextMentionEnd(id) => {
                buf.append(Self::TEXT_MENTION_MIDDLE);
                push_decimal(*id, buf);
                buf.append(Self::TEXT_MENTION_END);
            },
            Tag::CustomEmojiStart(_) => buf.append(Self::CUSTOM_EMOJI_START),
            Tag::CustomEmojiEnd(id) => {
                buf.append(Self::CUSTOM_EMOJI_MIDDLE);
                buf.append(id);
                buf.append(Self::CUSTOM_EMOJI_END);
            },
        }
    }

    fn write_char(ch: char, buf: &mut String) {
        if needs_escape(ch) {
            buf.push('\\');
        }
        buf.push(ch);
    }
}

} // verus!
