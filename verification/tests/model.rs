use unparser::tag::Tag;
use unparser::writer::TagWriter;
use unparser::{Html, Markdown, MessageEntity, MessageEntityKind, Unparser};

/// Renders by the book, with what the standard library offers: the tags
/// are sorted by key, the text is turned into code units, and the
/// characters are put together again from the code units.
fn by_the_book<W: TagWriter>(text: &str, entities: &[MessageEntity]) -> String {
    let mut tags: Vec<((u128, u8, i128), Tag)> = Vec::new();
    for (index, entity) in entities.iter().enumerate() {
        if let Some((start, end)) = entity.kind.tag_pair() {
            let open = entity.offset as u128;
            let close = entity.offset as u128 + entity.length as u128;
            tags.push(((open, 1, index as i128), start));
            tags.push(((close, 0, -(index as i128)), end));
        }
    }
    if tags.is_empty() {
        return text.to_owned();
    }
    tags.sort_by_key(|tag| tag.0);
    let mut out = String::new();
    let mut next = 0;
    let mut pending = None;
    for (idx, unit) in text.encode_utf16().enumerate() {
        while next < tags.len() && tags[next].0 .0 == idx as u128 {
            W::write_tag(&tags[next].1, &mut out);
            next += 1;
        }
        let units = match pending.take() {
            Some(high) => vec![high, unit],
            None => vec![unit],
        };
        match char::decode_utf16(units).next().unwrap() {
            Ok(ch) => W::write_char(ch, &mut out),
            Err(_) => pending = Some(unit),
        }
    }
    while next < tags.len() {
        W::write_tag(&tags[next].1, &mut out);
        next += 1;
    }
    out
}

struct Dice(u64);

impl Dice {
    fn roll(&mut self, sides: u64) -> u64 {
        self.0 = self.0.wrapping_mul(6364136223846793005).wrapping_add(1442695040888963407);
        (self.0 >> 33) % sides
    }
}

fn some_text(dice: &mut Dice) -> String {
    let alphabet = ['a', 'Z', ' ', '<', '>', '&', '_', '*', '\\', '.', '\u{e9}', '\u{4e2d}', '\u{1F600}', '\u{10FFFF}', '\n'];
    let length = dice.roll(12);
    let mut text = String::new();
    for _ in 0..length {
        text.push(alphabet[dice.roll(alphabet.len() as u64) as usize]);
    }
    text
}

fn some_kind(dice: &mut Dice) -> MessageEntityKind {
    match dice.roll(13) {
        0 => MessageEntityKind::Bold,
        1 => MessageEntityKind::Italic,
        2 => MessageEntityKind::Underline,
        3 => MessageEntityKind::Strikethrough,
        4 => MessageEntityKind::Spoiler,
        5 => MessageEntityKind::Code,
        6 => MessageEntityKind::Pre { language: None },
        7 => MessageEntityKind::Pre { language: Some("rs".to_owned()) },
        8 => MessageEntityKind::TextLink { url: "https://t.me/".to_owned() },
        9 => MessageEntityKind::TextMention { user_id: dice.roll(1000) },
        10 => MessageEntityKind::CustomEmoji { custom_emoji_id: "77".to_owned() },
        11 => MessageEntityKind::Mention,
        _ => MessageEntityKind::Url,
    }
}

#[test]
fn rendering_agrees_with_the_book() {
    let mut dice = Dice(2024);
    for _ in 0..2000 {
        let text = some_text(&mut dice);
        let units = text.encode_utf16().count() as u64;
        let mut entities = Vec::new();
        for _ in 0..dice.roll(6) {
            let offset = dice.roll(units + 3) as usize;
            let length = dice.roll(units + 3) as usize;
            entities.push(MessageEntity { kind: some_kind(&mut dice), offset, length });
        }
        let unparser = Unparser::new(&text, &entities);
        assert_eq!(unparser.as_html(), by_the_book::<Html>(&text, &entities));
        assert_eq!(unparser.as_markdown(), by_the_book::<Markdown>(&text, &entities));
    }
}
