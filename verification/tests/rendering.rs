use unparser::engine::Unparser;
use unparser::entity::{MessageEntity, MessageEntityKind as MEK};
use unparser::html::Html;
use unparser::markdown::Markdown;

fn entity(kind: MEK, offset: usize, length: usize) -> MessageEntity {
    MessageEntity { kind, offset, length }
}

fn html(text: &str, entities: &[MessageEntity]) -> String {
    Unparser::new(text, entities).as_html()
}

fn markdown(text: &str, entities: &[MessageEntity]) -> String {
    Unparser::new(text, entities).as_markdown()
}

#[test]
fn text_without_entities_is_given_back() {
    for text in ["", "plain", "a < b && c > d", "_*[]()~`>#+-=|{}.!\\", "astral \u{1F600} plane"] {
        assert_eq!(html(text, &[]), text);
        assert_eq!(markdown(text, &[]), text);
    }
}

#[test]
fn kinds_that_are_not_rendered_leave_the_text_alone() {
    let text = "@user #tag $USD /start <b> _x_";
    let entities = vec![
        entity(MEK::Mention, 0, 5),
        entity(MEK::Hashtag, 6, 4),
        entity(MEK::Cashtag, 11, 4),
        entity(MEK::BotCommand, 16, 6),
        entity(MEK::Url, 0, 3),
        entity(MEK::Email, 0, 3),
        entity(MEK::PhoneNumber, 0, 3),
        entity(MEK::Blockquote, 0, 3),
        entity(MEK::ExpandableBlockquote, 0, 3),
    ];
    assert_eq!(html(text, &entities), text);
    assert_eq!(markdown(text, &entities), text);
}

#[test]
fn kinds_that_are_not_rendered_do_not_disturb_the_others() {
    let text = "one <two> three";
    let entities =
        vec![entity(MEK::Mention, 0, 3), entity(MEK::Bold, 4, 5), entity(MEK::Hashtag, 4, 5)];
    assert_eq!(html(text, &entities), "one <b>&lt;two&gt;</b> three");
    assert_eq!(markdown(text, &entities), "one **<two\\>** three");
}

#[test]
fn text_is_escaped_as_soon_as_one_entity_is_rendered() {
    let entities = vec![entity(MEK::Code, 0, 1)];
    assert_eq!(html("a & b < c", &entities), "<code>a</code> &amp; b &lt; c");
    assert_eq!(markdown("a.b!c", &entities), "`a`\\.b\\!c");
}

#[test]
fn html_escapes_inside_bold() {
    let entities = vec![entity(MEK::Bold, 0, 3)];
    assert_eq!(html("<&>", &entities), "<b>&lt;&amp;&gt;</b>");
    assert_eq!(html("x<&>y", &[entity(MEK::Bold, 1, 3)]), "x<b>&lt;&amp;&gt;</b>y");
}

#[test]
fn html_leaves_other_characters_alone() {
    let entities = vec![entity(MEK::Bold, 0, 1)];
    assert_eq!(html("a\"b'c;d_e*f", &entities), "<b>a</b>\"b'c;d_e*f");
}

#[test]
fn markdown_escapes_inside_italic() {
    let entities = vec![entity(MEK::Italic, 0, 5)];
    assert_eq!(markdown("a_b*c", &entities), "_\ra\\_b\\*c_\r");
}

#[test]
fn markdown_escapes_each_reserved_character() {
    let reserved = "\\_*[]()~`>#+-=|{}.!";
    let entities = vec![entity(MEK::Bold, 0, 19)];
    assert_eq!(
        markdown(reserved, &entities),
        "**\\\\\\_\\*\\[\\]\\(\\)\\~\\`\\>\\#\\+\\-\\=\\|\\{\\}\\.\\!**"
    );
}

#[test]
fn markdown_leaves_other_characters_alone() {
    let entities = vec![entity(MEK::Bold, 0, 1)];
    assert_eq!(markdown("a<b&c\"d ?,:;/@$%^'", &entities), "**a**<b&c\"d ?,:;/@$%^'");
}

#[test]
fn payloads_are_written_without_escaping() {
    let link = entity(MEK::TextLink { url: "https://t.me/a_b?c=<d>&e".to_owned() }, 0, 1);
    assert_eq!(html("x", &[link.clone()]), "<a href=\"https://t.me/a_b?c=<d>&e\">x</a>");
    assert_eq!(markdown("x", &[link]), "[x](https://t.me/a_b?c=<d>&e)");
}

#[test]
fn same_start_opens_in_given_order_and_closes_in_reverse() {
    let text = "text";
    let entities = vec![
        entity(MEK::Bold, 0, 4),
        entity(MEK::Italic, 0, 4),
        entity(MEK::Underline, 0, 4),
    ];
    assert_eq!(html(text, &entities), "<b><i><u>text</u></i></b>");
    assert_eq!(markdown(text, &entities), "**_\r__\rtext__\r_\r**");

    let entities = vec![
        entity(MEK::Underline, 0, 4),
        entity(MEK::Italic, 0, 4),
        entity(MEK::Bold, 0, 4),
    ];
    assert_eq!(html(text, &entities), "<u><i><b>text</b></i></u>");
}

#[test]
fn same_end_closes_in_reverse_of_given_order() {
    let text = "abcd";
    let entities = vec![entity(MEK::Bold, 2, 2), entity(MEK::Italic, 0, 4)];
    assert_eq!(html(text, &entities), "<i>ab<b>cd</i></b>");
    let entities = vec![entity(MEK::Italic, 0, 4), entity(MEK::Bold, 2, 2)];
    assert_eq!(html(text, &entities), "<i>ab<b>cd</b></i>");
}

#[test]
fn close_comes_before_open_at_one_offset() {
    let text = "abcd";
    let entities = vec![entity(MEK::Italic, 2, 2), entity(MEK::Bold, 0, 2)];
    assert_eq!(html(text, &entities), "<b>ab</b><i>cd</i>");
    assert_eq!(markdown(text, &entities), "**ab**_\rcd_\r");
}

#[test]
fn four_entities_at_one_offset() {
    let text = "Hi how are you?\nnested entities are cool";
    let entities = vec![
        entity(MEK::Bold, 16, 1),
        entity(MEK::Bold, 17, 5),
        entity(MEK::Underline, 17, 4),
        entity(MEK::Strikethrough, 17, 4),
    ];
    assert_eq!(
        html(text, &entities),
        "Hi how are you?\n<b>n</b><b><u><s>este</s></u>d</b> entities are cool"
    );
    assert_eq!(
        markdown(text, &entities),
        "Hi how are you?\n**n****__\r~este~__\rd** entities are cool"
    );
}

#[test]
fn empty_entity_is_closed_before_it_is_opened() {
    let entities = vec![entity(MEK::Bold, 1, 0)];
    assert_eq!(html("ab", &entities), "a</b><b>b");
    assert_eq!(html("", &[entity(MEK::Italic, 0, 0)]), "</i><i>");
}

#[test]
fn overlapping_entities_are_written_as_they_are() {
    let text = "Some bold both italics";
    let entities = vec![entity(MEK::Italic, 10, 12), entity(MEK::Bold, 5, 9)];
    assert_eq!(html(text, &entities), "Some <b>bold <i>both</b> italics</i>");
}

#[test]
fn tags_stand_around_a_surrogate_pair() {
    let text = "a\u{1F600}b";
    let entities = vec![entity(MEK::Bold, 1, 2)];
    assert_eq!(html(text, &entities), "a<b>\u{1F600}</b>b");
    assert_eq!(markdown(text, &entities), "a**\u{1F600}**b");
}

#[test]
fn offsets_behind_a_surrogate_pair_count_two_units() {
    let text = "\u{1F600}\u{1F601}xy";
    let entities = vec![entity(MEK::Italic, 2, 2), entity(MEK::Code, 4, 1), entity(MEK::Bold, 5, 1)];
    assert_eq!(
        html(text, &entities),
        "\u{1F600}<i>\u{1F601}</i><code>x</code><b>y</b>"
    );
}

#[test]
fn tag_inside_a_surrogate_pair_stands_before_the_character() {
    let text = "a\u{1F600}b";
    assert_eq!(html(text, &[entity(MEK::Bold, 2, 1)]), "a<b>\u{1F600}</b>b");
    assert_eq!(html(text, &[entity(MEK::Bold, 1, 1)]), "a<b></b>\u{1F600}b");
    assert_eq!(
        html(text, &[entity(MEK::Bold, 1, 2), entity(MEK::Italic, 2, 1)]),
        "a<b><i>\u{1F600}</i></b>b"
    );
}

#[test]
fn characters_of_two_and_three_bytes_count_one_unit() {
    let text = "\u{e9}\u{4e2d}z";
    let entities = vec![entity(MEK::Bold, 1, 1), entity(MEK::Italic, 2, 1)];
    assert_eq!(html(text, &entities), "\u{e9}<b>\u{4e2d}</b><i>z</i>");
}

#[test]
fn entity_that_reaches_the_end_is_closed_behind_the_text() {
    assert_eq!(html("abc", &[entity(MEK::Bold, 1, 2)]), "a<b>bc</b>");
    assert_eq!(markdown("abc", &[entity(MEK::Bold, 1, 2)]), "a**bc**");
}

#[test]
fn tags_behind_the_end_are_written_behind_the_text() {
    assert_eq!(html("abc", &[entity(MEK::Bold, 2, 10)]), "ab<b>c</b>");
    assert_eq!(html("abc", &[entity(MEK::Bold, 5, 2)]), "abc<b></b>");
    assert_eq!(
        html("abc", &[entity(MEK::Bold, 7, 2), entity(MEK::Italic, 5, 1)]),
        "abc<i></i><b></b>"
    );
    assert_eq!(html("", &[entity(MEK::Code, 0, 3)]), "<code></code>");
}

#[test]
fn spans_that_do_not_fit_the_machine_word_are_taken_as_they_are() {
    let entities = vec![entity(MEK::Bold, usize::MAX, usize::MAX), entity(MEK::Italic, 1, usize::MAX)];
    assert_eq!(html("abc", &entities), "a<i>bc<b></i></b>");
}

#[test]
fn each_kind_in_html() {
    let text = "x";
    let cases = vec![
        (MEK::Bold, "<b>x</b>"),
        (MEK::Italic, "<i>x</i>"),
        (MEK::Underline, "<u>x</u>"),
        (MEK::Strikethrough, "<s>x</s>"),
        (MEK::Spoiler, "<tg-spoiler>x</tg-spoiler>"),
        (MEK::Code, "<code>x</code>"),
        (MEK::Pre { language: None }, "<pre>x</pre>"),
        (
            MEK::Pre { language: Some("rust".to_owned()) },
            "<pre><code class=\"language-rust\">x</code></pre>",
        ),
        (MEK::TextLink { url: "https://t.me/".to_owned() }, "<a href=\"https://t.me/\">x</a>"),
        (MEK::TextMention { user_id: 1234567 }, "<a href=\"tg://user?id=1234567\">x</a>"),
        (
            MEK::CustomEmoji { custom_emoji_id: "5368324170671202286".to_owned() },
            "<tg-emoji emoji-id=\"5368324170671202286\">x</tg-emoji>",
        ),
    ];
    for (kind, expected) in cases {
        assert_eq!(html(text, &[entity(kind, 0, 1)]), expected);
    }
}

#[test]
fn each_kind_in_markdown() {
    let text = "x";
    let cases = vec![
        (MEK::Bold, "**x**"),
        (MEK::Italic, "_\rx_\r"),
        (MEK::Underline, "__\rx__\r"),
        (MEK::Strikethrough, "~x~"),
        (MEK::Spoiler, "||x||"),
        (MEK::Code, "`x`"),
        (MEK::Pre { language: None }, "```\nx```\n"),
        (MEK::Pre { language: Some("rust".to_owned()) }, "```rust\nx```\n"),
        (MEK::TextLink { url: "https://t.me/".to_owned() }, "[x](https://t.me/)"),
        (MEK::TextMention { user_id: 1234567 }, "[x](tg://user?id=1234567)"),
        (
            MEK::CustomEmoji { custom_emoji_id: "5368324170671202286".to_owned() },
            "[x](tg://emoji?id=5368324170671202286)",
        ),
    ];
    for (kind, expected) in cases {
        assert_eq!(markdown(text, &[entity(kind, 0, 1)]), expected);
    }
}

#[test]
fn user_ids_are_written_in_decimal() {
    for (id, digits) in [
        (0u64, "0"),
        (7, "7"),
        (10, "10"),
        (909, "909"),
        (u64::MAX, "18446744073709551615"),
    ] {
        let entities = vec![entity(MEK::TextMention { user_id: id }, 0, 1)];
        assert_eq!(html("u", &entities), format!("<a href=\"tg://user?id={digits}\">u</a>"));
        assert_eq!(markdown("u", &entities), format!("[u](tg://user?id={digits})"));
    }
}

#[test]
fn one_unparser_renders_both_formats_again_and_again() {
    let text = "a<b";
    let entities = vec![entity(MEK::Spoiler, 0, 3)];
    let unparser = Unparser::new(text, &entities);
    let first = unparser.as_html();
    assert_eq!(first, "<tg-spoiler>a&lt;b</tg-spoiler>");
    assert_eq!(unparser.as_markdown(), "||a<b||");
    assert_eq!(unparser.as_html(), first);
    assert_eq!(unparser.unparse::<Html>(), first);
    assert_eq!(unparser.unparse::<Markdown>(), "||a<b||");
}

#[test]
fn clone_renders_the_same() {
    let text = "x y";
    let entities = vec![entity(MEK::Bold, 0, 1), entity(MEK::Code, 2, 1)];
    let unparser = Unparser::new(text, &entities);
    let copy = unparser.clone();
    assert_eq!(copy, unparser);
    assert_eq!(copy.as_html(), "<b>x</b> <code>y</code>");
    assert_eq!(copy.as_html(), unparser.as_html());
    assert_eq!(copy.as_markdown(), unparser.as_markdown());
}

#[test]
fn every_entity_gives_a_start_and_an_end() {
    let text = "0123456789";
    let entities = vec![
        entity(MEK::Bold, 0, 3),
        entity(MEK::Bold, 2, 5),
        entity(MEK::Bold, 9, 40),
        entity(MEK::Bold, 4, 0),
        entity(MEK::Mention, 1, 1),
    ];
    let out = html(text, &entities);
    assert_eq!(out.matches("<b>").count(), 4);
    assert_eq!(out.matches("</b>").count(), 4);
    assert_eq!(out.replace("<b>", "").replace("</b>", ""), text);
    assert_eq!(out, "<b>01<b>2</b>3</b><b>456</b>78<b>9</b>");
}

#[test]
fn many_entities_are_sorted() {
    let text = "abcdefghijklmnopqrstuvwxyz";
    let mut entities = Vec::new();
    for i in (0..26).rev() {
        entities.push(entity(MEK::Code, i, 1));
    }
    let mut expected = String::new();
    for ch in text.chars() {
        expected.push_str("<code>");
        expected.push(ch);
        expected.push_str("</code>");
    }
    assert_eq!(html(text, &entities), expected);
}
