//! The abstract tags that entities turn into, before a format gives them
//! their text.

use vstd::prelude::*;
use crate::entity::MessageEntityKind;

verus! {

/// The start or the end of one entity. A tag borrows what its format may
/// need to write it from the entity that it was made from.
#[derive(Debug, Clone, Copy, PartialEq, Eq)]
pub enum Tag<'a> {
    BoldStart,
    BoldEnd,
    ItalicStart,
    ItalicEnd,
    UnderlineStart,
    UnderlineEnd,
    StrikethroughStart,
    StrikethroughEnd,
    SpoilerStart,
    SpoilerEnd,
    CodeStart,
    CodeEnd,
    /// Carries the language of the code block, if it has one.
    PreStart(Option<&'a str>),
    /// Carries whether the code block has a language.
    PreEnd(bool),
    TextLinkStart(&'a str),
    TextLinkEnd(&'a str),
    TextMentionStart(u64),
    TextMentionEnd(u64),
    CustomEmojiStart(&'a str),
    CustomEmojiEnd(&'a str),
}

/// A tag as contracts see it: the borrowed strings are replaced by the
/// characters that they hold.
pub enum TagView {
    BoldStart,
    BoldEnd,
    ItalicStart,
    ItalicEnd,
    UnderlineStart,
    UnderlineEnd,
    StrikethroughStart,
    StrikethroughEnd,
    SpoilerStart,
    SpoilerEnd,
    CodeStart,
    CodeEnd,
    PreStart(Option<Seq<char>>),
    PreEnd(bool),
    TextLinkStart(Seq<char>),
    TextLinkEnd(Seq<char>),
    TextMentionStart(u64),
    TextMentionEnd(u64),
    CustomEmojiStart(Seq<char>),
    CustomEmojiEnd(Seq<char>),
}

impl<'a> View for Tag<'a> {
    type V = TagView;

    open spec fn view(&self) -> TagView {
        match *self {
            Tag::BoldStart => TagView::BoldStart,
            Tag::BoldEnd => TagView::BoldEnd,
            Tag::ItalicStart => TagView::ItalicStart,
            Tag::ItalicEnd => TagView::ItalicEnd,
            Tag::UnderlineStart => TagView::UnderlineStart,
            Tag::UnderlineEnd => TagView::UnderlineEnd,
            Tag::StrikethroughStart => TagView::StrikethroughStart,
            Tag::StrikethroughEnd => TagView::StrikethroughEnd,
            Tag::SpoilerStart => TagView::SpoilerStart,
            Tag::SpoilerEnd => TagView::SpoilerEnd,
            Tag::CodeStart => TagView::CodeStart,
            Tag::CodeEnd => TagView::CodeEnd,
            Tag::PreStart(language) => TagView::PreStart(
                match language {
                    Some(l) => Some(l@),
                    None => None,
                },
            ),
            Tag::PreEnd(has_language) => TagView::PreEnd(has_language),
            Tag::TextLinkStart(url) => TagView::TextLinkStart(url@),
            Tag::TextLinkEnd(url) => TagView::TextLinkEnd(url@),
            Tag::TextMentionStart(id) => TagView::TextMentionStart(id),
            Tag::TextMentionEnd(id) => TagView::TextMentionEnd(id),
            Tag::CustomEmojiStart(id) => TagView::CustomEmojiStart(id@),
            Tag::CustomEmojiEnd(id) => TagView::CustomEmojiEnd(id@),
        }
    }
}

impl MessageEntityKind {
    /// The start tag and the end tag of an entity of this kind, or `None`
    /// where the kind is not rendered.
    pub open spec fn tags(&self) -> Option<(TagView, TagView)> {
        match *self {
            MessageEntityKind::Bold => Some((TagView::BoldStart, TagView::BoldEnd)),
            MessageEntityKind::Italic => Some((TagView::ItalicStart, TagView::ItalicEnd)),
            MessageEntityKind::Underline => Some((TagView::UnderlineStart, TagView::UnderlineEnd)),
            MessageEntityKind::Strikethrough => Some(
                (TagView::StrikethroughStart, TagView::StrikethroughEnd),
            ),
            MessageEntityKind::Spoiler => Some((TagView::SpoilerStart, TagView::SpoilerEnd)),
            MessageEntityKind::Code => Some((TagView::CodeStart, TagView::CodeEnd)),
            MessageEntityKind::Pre { language } => Some(
                (
                    TagView::PreStart(
                        match language {
                            Some(l) => Some(l@),
                            None => None,
                        },
                    ),
                    TagView::PreEnd(language is Some),
                ),
            ),
            MessageEntityKind::TextLink { url } => Some(
                (TagView::TextLinkStart(url@), TagView::TextLinkEnd(url@)),
            ),
            MessageEntityKind::TextMention { user_id } => Some(
                (TagView::TextMentionStart(user_id), TagView::TextMentionEnd(user_id)),
            ),
            MessageEntityKind::CustomEmoji { custom_emoji_id } => Some(
                (
                    TagView::CustomEmojiStart(custom_emoji_id@),
                    TagView::CustomEmojiEnd(custom_emoji_id@),
                ),
            ),
            _ => None,
        }
    }

    /// Whether entities of this kind are written as a pair of tags. The
    /// other kinds leave no trace in the output.
    pub open spec fn is_rendered(&self) -> bool {
        self.tags() is Some
    }

    /// The tag that opens an entity of this kind.
    pub open spec fn start_tag(&self) -> TagView
        recommends
            self.is_rendered(),
    {
        let (start, _) = self.tags().unwrap();
        start
    }

    /// The tag that closes an entity of this kind.
    pub open spec fn end_tag(&self) -> TagView
        recommends
            self.is_rendered(),
    {
        let (_, end) = self.tags().unwrap();
        end
    }

    /// The two tags of an entity of this kind, borrowing from it, or `None`
    /// where the kind is not rendered.
    pub fn tag_pair<'a>(&'a self) -> (r: Option<(Tag<'a>, Tag<'a>)>)
        ensures
            match r {
                Some((start, end)) => self.tags() == Some((start@, end@)),
                None => self.tags() is None,
            },
    {
        match self {
            MessageEntityKind::Bold => Some((Tag::BoldStart, Tag::BoldEnd)),
            MessageEntityKind::Italic => Some((Tag::ItalicStart, Tag::ItalicEnd)),
            MessageEntityKind::Underline => Some((Tag::UnderlineStart, Tag::UnderlineEnd)),
            MessageEntityKind::Strikethrough => Some(
                (Tag::StrikethroughStart, Tag::StrikethroughEnd),
            ),
            MessageEntityKind::Spoiler => Some((Tag::SpoilerStart, Tag::SpoilerEnd)),
            MessageEntityKind::Code => Some((Tag::CodeStart, Tag::CodeEnd)),
            MessageEntityKind::Pre { language } => {
                match language {
                    Some(l) => Some((Tag::PreStart(Some(l.as_str())), Tag::PreEnd(true))),
                    None => Some((Tag::PreStart(None), Tag::PreEnd(false))),
                }
            },
            MessageEntityKind::TextLink { url } => Some(
                (Tag::TextLinkStart(url.as_str()), Tag::TextLinkEnd(url.as_str())),
            ),
            MessageEntityKind::TextMention { user_id } => Some(
                (Tag::TextMentionStart(*user_id), Tag::TextMentionEnd(*user_id)),
            ),
            MessageEntityKind::CustomEmoji { custom_emoji_id } => Some(
                (
                    Tag::CustomEmojiStart(custom_emoji_id.as_str()),
                    Tag::CustomEmojiEnd(custom_emoji_id.as_str()),
                ),
            ),
            _ => None,
        }
    }
}

} // verus!
