//! Rendering of a text with formatting entities into HTML or Markdown.
//!
//! A text comes with entities: spans, given by a UTF-16 offset and a length,
//! that mark a part of the text as bold, as a link, as code and so on. An
//! [`Unparser`] turns each entity into a start tag and an end tag, puts the
//! tags into the order in which they have to be written, and writes them
//! into the text in the markup of a format, escaping the characters of the
//! text that the format would read as markup.
//!
//! ```
//! use unparser::{MessageEntity, MessageEntityKind, Unparser};
//!
//! let entities = [MessageEntity { kind: MessageEntityKind::Bold, offset: 2, length: 3 }];
//! let unparser = Unparser::new("a <b> c", &entities);
//! assert_eq!(unparser.as_html(), "a <b>&lt;b&gt;</b> c");
//! assert_eq!(unparser.as_markdown(), "a **<b\\>** c");
//! ```
//!
//! What the rendered text is, is said in [`render`]; what holds of every
//! rendering is proved in [`laws`].

pub mod engine;
pub mod entity;
pub mod helper;
pub mod html;
pub mod laws;
pub mod markdown;
pub mod position;
pub mod render;
pub mod sorting;
pub mod tag;
pub mod utf16;
pub mod writer;

pub use engine::Unparser;
pub use entity::{MessageEntity, MessageEntityKind};
pub use helper::MessageTextUnparser;
pub use html::Html;
pub use markdown::Markdown;
