//! Rendering of the text or the caption of a whole message.

use vstd::prelude::*;
use crate::engine::Unparser;
use crate::entity::MessageEntity;
use crate::html::Html;
use crate::markdown::Markdown;
use crate::render::rendering;
use crate::writer::TagWriter;

verus! {

/// A text message: the text and its entities.
#[derive(Debug, Clone, PartialEq, Eq)]
pub struct MediaText {
    pub text: String,
    pub entities: Vec<MessageEntity>,
}

/// An animation, with the caption below it and the entities of the caption.
#[derive(Debug, Clone, PartialEq, Eq)]
pub struct MediaAnimation {
    pub caption: Option<String>,
    pub caption_entities: Vec<MessageEntity>,
}

/// An audio file, with its caption and the entities of the caption.
#[derive(Debug, Clone, PartialEq, Eq)]
pub struct MediaAudio {
    pub caption: Option<String>,
    pub caption_entities: Vec<MessageEntity>,
}

/// A document, with its caption and the entities of the caption.
#[derive(Debug, Clone, PartialEq, Eq)]
pub struct MediaDocument {
    pub caption: Option<String>,
    pub caption_entities: Vec<MessageEntity>,
}

/// A photo, with its caption and the entities of the caption.
#[derive(Debug, Clone, PartialEq, Eq)]
pub struct MediaPhoto {
    pub caption: Option<String>,
    pub caption_entities: Vec<MessageEntity>,
}

/// A video, with its caption and the entities of the caption.
#[derive(Debug, Clone, PartialEq, Eq)]
pub struct MediaVideo {
    pub caption: Option<String>,
    pub caption_entities: Vec<MessageEntity>,
}

/// A voice message, with its caption and the entities of the caption.
#[derive(Debug, Clone, PartialEq, Eq)]
pub struct MediaVoice {
    pub caption: Option<String>,
    pub caption_entities: Vec<MessageEntity>,
}

/// What a common message holds.
#[derive(Debug, Clone, PartialEq, Eq)]
pub enum MediaKind {
    Animation(MediaAnimation),
    Audio(MediaAudio),
    Document(MediaDocument),
    Photo(MediaPhoto),
    Text(MediaText),
    Video(MediaVideo),
    Voice(MediaVoice),
    /// Any other content. It has neither text nor caption.
    Other,
}

/// A message that a user or a bot has sent.
#[derive(Debug, Clone, PartialEq, Eq)]
pub struct MessageCommon {
    pub media_kind: MediaKind,
}

/// The kinds of messages.
#[derive(Debug, Clone, PartialEq, Eq)]
pub enum MessageKind {
    Common(MessageCommon),
    /// A service message. It has neither text nor caption.
    Other,
}

/// A message, as far as its text and caption go.
#[derive(Debug, Clone, PartialEq, Eq)]
pub struct Message {
    pub kind: MessageKind,
}

/// A text and the entities that annotate it.
pub type Annotated = (Seq<char>, Seq<MessageEntity>);

/// Whether `out` is what rendering `source` in the format `W` gives: the
/// rendered text where there is a source, and nothing where there is none.
pub open spec fn is_rendering_of<W: TagWriter>(
    out: Option<String>,
    source: Option<Annotated>,
) -> bool {
    match source {
        Some((text, entities)) => out matches Some(s) && s@ == rendering::<W>(text, entities),
        None => out is None,
    }
}

/// Rendering of the text and of the caption of a message.
pub trait MessageTextUnparser {
    /// The text of the message with its entities, where the message has a
    /// text.
    spec fn annotated_text(&self) -> Option<Annotated>;

    /// The caption of the message with its entities, where the message has
    /// a caption.
    spec fn annotated_caption(&self) -> Option<Annotated>;

    /// The text of the message as HTML, where the message has a text.
    fn html_text(&self) -> (out: Option<String>)
        ensures
            is_rendering_of::<Html>(out, self.annotated_text()),
    ;

    /// The text of the message as Markdown, where the message has a text.
    fn markdown_text(&self) -> (out: Option<String>)
        ensures
            is_rendering_of::<Markdown>(out, self.annotated_text()),
    ;

    /// The caption of the message as HTML, where the message has a caption.
    fn html_caption(&self) -> (out: Option<String>)
        ensures
            is_rendering_of::<Html>(out, self.annotated_caption()),
    ;

    /// The caption of the message as Markdown, where the message has a
    /// caption.
    fn markdown_caption(&self) -> (out: Option<String>)
        ensures
            is_rendering_of::<Markdown>(out, self.annotated_caption()),
    ;
}

/// The caption `caption` with the entities `entities`, where there is a
/// caption.
pub open spec fn annotated(caption: Option<String>, entities: Vec<MessageEntity>) -> Option<
    Annotated,
> {
    match caption {
        Some(c) => Some((c@, entities@)),
        None => None,
    }
}

impl MessageTextUnparser for Message {
    /// Only a common message that holds a text has one.
    open spec fn annotated_text(&self) -> Option<Annotated> {
        match self.kind {
            MessageKind::Common(MessageCommon { media_kind: MediaKind::Text(media) }) => Some(
                (media.text@, media.entities@),
            ),
            _ => None,
        }
    }

    /// Only a common message that holds an animation, an audio file, a
    /// document, a photo, a video or a voice message can have a caption.
    open spec fn annotated_caption(&self) -> Option<Annotated> {
        match self.kind {
            MessageKind::Common(MessageCommon { media_kind }) => match media_kind {
                MediaKind::Animation(media) => annotated(media.caption, media.caption_entities),
                MediaKind::Audio(media) => annotated(media.caption, media.caption_entities),
                MediaKind::Document(media) => annotated(media.caption, media.caption_entities),
                MediaKind::Photo(media) => annotated(media.caption, media.caption_entities),
                MediaKind::Video(media) => annotated(media.caption, media.caption_entities),
                MediaKind::Voice(media) => annotated(media.caption, media.caption_entities),
                _ => None,
            },
            _ => None,
        }
    }

    fn html_text(&self) -> (out: Option<String>) {
        match &self.kind {
            MessageKind::Common(MessageCommon { media_kind: MediaKind::Text(media) }) => Some(
                Unparser::new(media.text.as_str(), media.entities.as_slice()).as_html(),
            ),
            _ => None,
        }
    }

    fn markdown_text(&self) -> (out: Option<String>) {
        match &self.kind {
            MessageKind::Common(MessageCommon { media_kind: MediaKind::Text(media) }) => Some(
                Unparser::new(media.text.as_str(), media.entities.as_slice()).as_markdown(),
            ),
            _ => None,
        }
    }

    fn html_caption(&self) -> (out: Option<String>) {
        match &self.kind {
            MessageKind::Common(MessageCommon { media_kind }) => {
                let (caption, caption_entities) = match media_kind {
                    MediaKind::Animation(media) => (&media.caption, &media.caption_entities),
                    MediaKind::Audio(media) => (&media.caption, &media.caption_entities),
                    MediaKind::Document(media) => (&media.caption, &media.caption_entities),
                    MediaKind::Photo(media) => (&media.caption, &media.caption_entities),
                    MediaKind::Video(media) => (&media.caption, &media.caption_entities),
                    MediaKind::Voice(media) => (&media.caption, &media.caption_entities),
                    _ => { return None; },
                };
                match caption {
                    Some(c) => Some(
                        Unparser::new(c.as_str(), caption_entities.as_slice()).as_html(),
                    ),
                    None => None,
                }
            },
            _ => None,
        }
    }

    fn markdown_caption(&self) -> (out: Option<String>) {
        match &self.kind {
            MessageKind::Common(MessageCommon { media_kind }) => {
                let (caption, caption_entities) = match media_kind {
                    MediaKind::Animation(media) => (&media.caption, &media.caption_entities),
                    MediaKind::Audio(media) => (&media.caption, &media.caption_entities),
                    MediaKind::Document(media) => (&media.caption, &media.caption_entities),
                    MediaKind::Photo(media) => (&media.caption, &media.caption_entities),
                    MediaKind::Video(media) => (&media.caption, &media.caption_entities),
                    MediaKind::Voice(media) => (&media.caption, &media.caption_entities),
                    _ => { return None; },
                };
                match caption {
                    Some(c) => Some(
                        Unparser::new(c.as_str(), caption_entities.as_slice()).as_markdown(),
                    ),
                    None => None,
                }
            },
            _ => None,
        }
    }
}

} // verus!
