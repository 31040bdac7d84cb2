//! The annotations that a caller attaches to a text.

use vstd::prelude::*;

verus! {

/// What an entity says about the span of text that it covers.
#[derive(Debug, Clone, PartialEq, Eq)]
pub enum MessageEntityKind {
    Mention,
    Hashtag,
    Cashtag,
    BotCommand,
    Url,
    Email,
    PhoneNumber,
    Bold,
    Blockquote,
    ExpandableBlockquote,
    Italic,
    Underline,
    Strikethrough,
    Spoiler,
    Code,
    Pre { language: Option<String> },
    TextLink { url: String },
    TextMention { user_id: u64 },
    CustomEmoji { custom_emoji_id: String },
}

/// One span of the text together with its kind.
///
/// `offset` and `length` count UTF-16 code units. Nothing is asked of them:
/// spans may overlap, be empty, or reach past the end of the text.
#[derive(Debug, Clone, PartialEq, Eq)]
pub struct MessageEntity {
    pub kind: MessageEntityKind,
    pub offset: usize,
    pub length: usize,
}

impl MessageEntity {
    /// The UTF-16 index at which the span ends.
    pub open spec fn end(&self) -> int {
        self.offset + self.length
    }
}

} // verus!
