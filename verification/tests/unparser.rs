use unparser::{MessageEntity, MessageEntityKind as MEK, Unparser};

#[test]
fn test_unparser_simple() {
    let text = "Bold italic <underline_";
    let entities = vec![
        MessageEntity { kind: MEK::Bold, offset: 0, length: 4 },
        MessageEntity { kind: MEK::Italic, offset: 5, length: 6 },
        MessageEntity { kind: MEK::Underline, offset: 12, length: 10 },
    ];

    let unparser = Unparser::new(text, &entities);

    assert_eq!(unparser.as_html(), "<b>Bold</b> <i>italic</i> <u>&lt;underline</u>_");
    assert_eq!(unparser.as_markdown(), "**Bold** _\ritalic_\r __\r<underline__\r\\_");
}

#[test]
fn test_unparser_pre_with_lang() {
    let text = "Some pre, normal and rusty code";
    let entities = vec![
        MessageEntity { kind: MEK::Pre { language: None }, offset: 5, length: 3 },
        MessageEntity { kind: MEK::Code, offset: 10, length: 6 },
        MessageEntity {
            kind: MEK::Pre { language: Some("rust".to_owned()) },
            offset: 21,
            length: 5,
        },
    ];

    let unparser = Unparser::new(text, &entities);

    assert_eq!(
        unparser.as_html(),
        "Some <pre>pre</pre>, <code>normal</code> and <pre><code \
         class=\"language-rust\">rusty</code></pre> code",
    );
    assert_eq!(
        unparser.as_markdown(),
        "Some ```\npre```\n, `normal` and ```rust\nrusty```\n code",
    );
}

#[test]
fn test_unparser_nested() {
    let text = "Some bold both italics";
    let entities = vec![
        MessageEntity { kind: MEK::Bold, offset: 5, length: 9 },
        MessageEntity { kind: MEK::Italic, offset: 10, length: 12 },
    ];

    let unparser = Unparser::new(text, &entities);

    assert_eq!(unparser.as_html(), "Some <b>bold <i>both</b> italics</i>");
    assert_eq!(unparser.as_markdown(), "Some **bold _\rboth** italics_\r");
}

#[test]
fn test_unparser_complex() {
    let text = "Hi how are you?\nnested entities are cool";
    let entities = vec![
        MessageEntity { kind: MEK::Bold, offset: 0, length: 2 },
        MessageEntity { kind: MEK::Italic, offset: 3, length: 3 },
        MessageEntity { kind: MEK::Underline, offset: 7, length: 3 },
        MessageEntity { kind: MEK::Strikethrough, offset: 11, length: 3 },
        MessageEntity { kind: MEK::Bold, offset: 16, length: 1 },
        MessageEntity { kind: MEK::Bold, offset: 17, length: 5 },
        MessageEntity { kind: MEK::Underline, offset: 17, length: 4 },
        MessageEntity { kind: MEK::Strikethrough, offset: 17, length: 4 },
        MessageEntity {
            kind: MEK::TextLink { url: "https://t.me/".to_owned() },
            offset: 23,
            length: 8,
        },
        MessageEntity {
            kind: MEK::TextLink { url: "tg://user?id=1234567".to_owned() },
            offset: 32,
            length: 3,
        },
        MessageEntity { kind: MEK::Code, offset: 36, length: 4 },
    ];

    let unparser = Unparser::new(text, &entities);

    assert_eq!(
        unparser.as_html(),
        "<b>Hi</b> <i>how</i> <u>are</u> <s>you</s>?\n<b>n</b><b><u><s>este</s></u>d</b> \
        <a href=\"https://t.me/\">entities</a> <a href=\"tg://user?id=1234567\">are</a> <code>cool</code>"
    );
    assert_eq!(
        unparser.as_markdown(),
        "**Hi** _\rhow_\r __\rare__\r ~you~?\n**n****__\r~este~__\rd** [entities](https://t.me/) \
         [are](tg://user?id=1234567) `cool`"
    );
}
