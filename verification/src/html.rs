//! The HTML format.

use vstd::prelude::*;
use vstd::string::StringExecFns;
use crate::tag::{Tag, TagView};
use crate::writer::{TagWriter, decimal, push_decimal};

verus! {

/// Writes entities as HTML elements and escapes `&`, `<` and `>`.
pub struct Html;

/// The text that stands for `ch` in HTML: a character reference for `&`,
/// `<` and `>`, and the character itself otherwise.
pub open spec fn html_escaped(ch: char) -> Seq<char> {
    if ch == '&' {
        "&amp;"@
    } else if ch == '<' {
        "&lt;"@
    } else if ch == '>' {
        "&gt;"@
    } else {
        seq![ch]
    }
}

impl TagWriter for Html {
    const BOLD_START: &'static str = "<b>";

    const BOLD_END: &'static str = "</b>";

    const ITALIC_START: &'static str = "<i>";

    const ITALIC_END: &'static str = "</i>";

    const UNDERLINE_START: &'static str = "<u>";

    const UNDERLINE_END: &'static str = "</u>";

    const STRIKETHROUGH_START: &'static str = "<s>";

    const STRIKETHROUGH_END: &'static str = "</s>";

    const SPOILER_START: &'static str = "<tg-spoiler>";

    const SPOILER_END: &'static str = "</tg-spoiler>";

    const CODE_START: &'static str = "<code>";

    const CODE_END: &'static str = "</code>";

    const PRE_NO_LANG_START: &'static str = "<pre>";

    const PRE_NO_LANG_END: &'static str = "</pre>";

    const PRE_START: &'static str = "<pre><code class=\"language-";

    const PRE_MIDDLE: &'static str = "\">";

    const PRE_END: &'static str = "</code></pre>";

    const TEXT_LINK_START: &'static str = "<a href=\"";

    const TEXT_LINK_MIDDLE: &'static str = "\">";

    const TEXT_LINK_END: &'static str = "</a>";

    const TEXT_MENTION_START: &'static str = "<a href=\"tg://user?id=";

    const TEXT_MENTION_MIDDLE: &'static str = "\">";

    const TEXT_MENTION_END: &'static str = "</a>";

    const CUSTOM_EMOJI_START: &'static str = "<tg-emoji emoji-id=\"";

    const CUSTOM_EMOJI_MIDDLE: &'static str = "\">";

    const CUSTOM_EMOJI_END: &'static str = "</tg-emoji>";

    /// An element for each kind. What a tag carries is written into the
    /// start tag, as the value of an attribute.
    open spec fn tag_text(tag: TagView) -> Seq<char> {
        match tag {
            TagView::BoldStart => "<b>"@,
            TagView::BoldEnd => "</b>"@,
            TagView::ItalicStart => "<i>"@,
            TagView::ItalicEnd => "</i>"@,
            TagView::UnderlineStart => "<u>"@,
            TagView::UnderlineEnd => "</u>"@,
            TagView::StrikethroughStart => "<s>"@,
            TagView::StrikethroughEnd => "</s>"@,
            TagView::SpoilerStart => "<tg-spoiler>"@,
            TagView::SpoilerEnd => "</tg-spoiler>"@,
            TagView::CodeStart => "<code>"@,
            TagView::CodeEnd => "</code>"@,
            TagView::PreStart(Some(language)) => "<pre><code class=\"language-"@ + language
                + "\">"@,
            TagView::PreStart(None) => "<pre>"@,
            TagView::PreEnd(true) => "</code></pre>"@,
            TagView::PreEnd(false) => "</pre>"@,
            TagView::TextLinkStart(url) => "<a href=\""@ + url + "\">"@,
            TagView::TextLinkEnd(_) => "</a>"@,
            TagView::TextMentionStart(id) => "<a href=\"tg://user?id="@ + decimal(id as nat)
                + "\">"@,
            TagView::TextMentionEnd(_) => "</a>"@,
            TagView::CustomEmojiStart(id) => "<tg-emoji emoji-id=\""@ + id + "\">"@,
            TagView::CustomEmojiEnd(_) => "</tg-emoji>"@,
        }
    }

    open spec fn char_text(ch: char) -> Seq<char> {
        html_escaped(ch)
    }

    fn write_tag(tag: &Tag, buf: &mut String) {
        match tag {
            Tag::BoldStart => buf.append(Self::BOLD_START),
            Tag::BoldEnd => buf.append(Self::BOLD_END),
            Tag::ItalicStart => buf.append(Self::ITALIC_START),
            Tag::ItalicEnd => buf.append(Self::ITALIC_END),
            Tag::UnderlineStart => buf.append(Self::UNDERLINE_START),
            Tag::UnderlineEnd => buf.append(Self::UNDERLINE_END),
            Tag::StrikethroughStart => buf.append(Self::STRIKETHROUGH_START),
            Tag::StrikethroughEnd => buf.append(Self::STRIKETHROUGH_END),
            Tag::SpoilerStart => buf.append(Self::SPOILER_START),
            Tag::SpoilerEnd => buf.append(Self::SPOILER_END),
            Tag::CodeStart => buf.append(Self::CODE_START),
            Tag::CodeEnd => buf.append(Self::CODE_END),
            Tag::PreStart(language) => match language {
                Some(language) => {
                    buf.append(Self::PRE_START);
                    buf.append(language);
                    buf.append(Self::PRE_MIDDLE);
                },
                None => buf.append(Self::PRE_NO_LANG_START),
            },
            Tag::PreEnd(has_language) => buf.append(
                if *has_language {
                    Self::PRE_END
                } else {
                    Self::PRE_NO_LANG_END
                },
            ),
            Tag::TextLinkStart(url) => {
                buf.append(Self::TEXT_LINK_START);
                buf.append(url);
                buf.append(Self::TEXT_LINK_MIDDLE);
            },
            Tag::TextLinkEnd(_) => buf.append(Self::TEXT_LINK_END),
            Tag::TextMentionStart(id) => {
                buf.append(Self::TEXT_MENTION_START);
                push_decimal(*id, buf);
                buf.append(Self::TEXT_MENTION_MIDDLE);
            },
            Tag::TextMentionEnd(_) => buf.append(Self::TEXT_MENTION_END),
            Tag::CustomEmojiStart(id) => {
                buf.append(Self::CUSTOM_EMOJI_START);
                buf.append(id);
                buf.append(Self::CUSTOM_EMOJI_MIDDLE);
            },
            Tag::CustomEmojiEnd(_) => buf.append(Self::CUSTOM_EMOJI_END),
        }
    }

    fn write_char(ch: char, buf: &mut String) {
        match ch {
            '&' => buf.append("&amp;"),
            '<' => buf.append("&lt;"),
            '>' => buf.append("&gt;"),
            c => buf.push(c),
        }
    }
}

} // verus!
