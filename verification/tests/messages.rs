use unparser::helper::{
    MediaAnimation, MediaAudio, MediaDocument, MediaKind, MediaPhoto, MediaText, MediaVideo,
    MediaVoice, Message, MessageCommon, MessageKind,
};
use unparser::{MessageEntity, MessageEntityKind, MessageTextUnparser};

fn bold(offset: usize, length: usize) -> MessageEntity {
    MessageEntity { kind: MessageEntityKind::Bold, offset, length }
}

fn common(media_kind: MediaKind) -> Message {
    Message { kind: MessageKind::Common(MessageCommon { media_kind }) }
}

#[test]
fn text_message_has_text_and_no_caption() {
    let message = common(MediaKind::Text(MediaText {
        text: "a <b> c".to_owned(),
        entities: vec![bold(2, 3)],
    }));
    assert_eq!(message.html_text(), Some("a <b>&lt;b&gt;</b> c".to_owned()));
    assert_eq!(message.markdown_text(), Some("a **<b\\>** c".to_owned()));
    assert_eq!(message.html_caption(), None);
    assert_eq!(message.markdown_caption(), None);
}

#[test]
fn text_message_without_entities_keeps_its_text() {
    let message =
        common(MediaKind::Text(MediaText { text: "1 < 2".to_owned(), entities: vec![] }));
    assert_eq!(message.html_text(), Some("1 < 2".to_owned()));
    assert_eq!(message.markdown_text(), Some("1 < 2".to_owned()));
}

#[test]
fn media_with_caption_has_caption_and_no_text() {
    let caption = Some("see this".to_owned());
    let entities = vec![bold(4, 4)];
    let messages = vec![
        common(MediaKind::Animation(MediaAnimation {
            caption: caption.clone(),
            caption_entities: entities.clone(),
        })),
        common(MediaKind::Audio(MediaAudio {
            caption: caption.clone(),
            caption_entities: entities.clone(),
        })),
        common(MediaKind::Document(MediaDocument {
            caption: caption.clone(),
            caption_entities: entities.clone(),
        })),
        common(MediaKind::Photo(MediaPhoto {
            caption: caption.clone(),
            caption_entities: entities.clone(),
        })),
        common(MediaKind::Video(MediaVideo {
            caption: caption.clone(),
            caption_entities: entities.clone(),
        })),
        common(MediaKind::Voice(MediaVoice {
            caption: caption.clone(),
            caption_entities: entities.clone(),
        })),
    ];
    for message in messages {
        assert_eq!(message.html_caption(), Some("see <b>this</b>".to_owned()));
        assert_eq!(message.markdown_caption(), Some("see **this**".to_owned()));
        assert_eq!(message.html_text(), None);
        assert_eq!(message.markdown_text(), None);
    }
}

#[test]
fn media_without_caption_has_nothing() {
    let message =
        common(MediaKind::Photo(MediaPhoto { caption: None, caption_entities: vec![bold(0, 1)] }));
    assert_eq!(message.html_caption(), None);
    assert_eq!(message.markdown_caption(), None);
    assert_eq!(message.html_text(), None);
    assert_eq!(message.markdown_text(), None);
}

#[test]
fn other_messages_have_nothing() {
    for message in [common(MediaKind::Other), Message { kind: MessageKind::Other }] {
        assert_eq!(message.html_text(), None);
        assert_eq!(message.markdown_text(), None);
        assert_eq!(message.html_caption(), None);
        assert_eq!(message.markdown_caption(), None);
    }
}
