//! The engine: it lays the tags of the entities out in the order in which
//! they are written, and writes them into the text.

use vstd::prelude::*;
use crate::entity::{MessageEntity, MessageEntityKind};
use crate::html::Html;
use crate::markdown::Markdown;
use crate::position::{Position, Side};
use crate::render::{
    Boundary,
    Piece,
    closing,
    lemma_tags_within_is_range,
    lemma_text_of_concat,
    lemma_text_of_push,
    opening,
    pieces_upto,
    raw_boundaries,
    rendered,
    sorted_boundaries,
    tag_pieces,
    tags_from,
    text_of,
};
use crate::sorting::{
    in_order,
    inserted,
    keyed,
    lemma_offsets_rise,
    sort_by_position,
    sorted_by_position,
};
use crate::tag::Tag;
use crate::utf16::{
    char_start,
    char_units,
    decode_pair,
    decode_unit,
    encode_utf16,
    lemma_char_start_monotonic,
    lemma_char_start_step,
    lemma_char_units,
    lemma_char_units_injective,
    lemma_units_at,
    lemma_units_len,
    unit_is_surrogate,
    utf16_len,
    utf16_units,
    utf16_width,
};
use crate::writer::{TagWriter, get_tags_sizes};

verus! {

/// A text and the tags of its entities, ready to be rendered into any
/// format, any number of times.
#[derive(Debug, PartialEq, Eq)]
pub struct Unparser<'a> {
    text: &'a str,
    pos_tags: Vec<(Position, Tag<'a>)>,
}

/// The positioned tags as contracts see them.
pub open spec fn views(s: Seq<(Position, Tag)>) -> Seq<Boundary> {
    Seq::new(s.len(), |i: int| (s[i].0, s[i].1@))
}

/// Putting an item in is the same before and after taking views.
proof fn lemma_inserted_views(s: Seq<(Position, Tag)>, x: (Position, Tag))
    ensures
        views(inserted(s, x)) =~= inserted(views(s), (x.0, x.1@)),
    decreases s.len(),
{
    if s.len() > 0 && crate::position::precedes(x.0, s.last().0) {
        lemma_inserted_views(s.drop_last(), x);
        assert(views(s).drop_last() =~= views(s.drop_last()));
    }
}

/// Sorting is the same before and after taking views.
proof fn lemma_sorted_views(s: Seq<(Position, Tag)>)
    ensures
        views(sorted_by_position(s)) =~= sorted_by_position(views(s)),
    decreases s.len(),
{
    if s.len() > 0 {
        lemma_sorted_views(s.drop_last());
        lemma_inserted_views(sorted_by_position(s.drop_last()), s.last());
        assert(views(s).drop_last() =~= views(s.drop_last()));
    }
}

/// An empty string with room for the text and its tags, where that much
/// room can be asked for.
fn buffer_for(text_len: usize, tags_len: usize) -> (buffer: String)
    ensures
        buffer@ == Seq::<char>::empty(),
{
    let room = text_len.saturating_add(tags_len);
    if room <= isize::MAX as usize {
        String::with_capacity(room)
    } else {
        String::new()
    }
}

/// Twice the number of rendered entities, for sizing the list of tags in
/// advance; `usize::MAX` where the number is greater than that.
fn needed_size(entities: &[MessageEntity]) -> (size: usize)
    ensures
        size == if 2 * crate::render::rendered_count(entities@) <= usize::MAX {
            2 * crate::render::rendered_count(entities@)
        } else {
            usize::MAX as nat
        },
{
    let mut size: usize = 0;
    let mut i: usize = 0;
    while i < entities.len()
        invariant
            i <= entities.len(),
            size == if 2 * crate::render::rendered_count(entities@.take(i as int)) <= usize::MAX {
                2 * crate::render::rendered_count(entities@.take(i as int))
            } else {
                usize::MAX as nat
            },
        decreases entities.len() - i,
    {
        proof {
            assert(entities@.take(i + 1).drop_last() =~= entities@.take(i as int));
        }
        let tags: usize = match entities[i].kind {
            MessageEntityKind::Bold
            | MessageEntityKind::Italic
            | MessageEntityKind::Underline
            | MessageEntityKind::Strikethrough
            | MessageEntityKind::Spoiler
            | MessageEntityKind::Code
            | MessageEntityKind::Pre { .. }
            | MessageEntityKind::TextLink { .. }
            | MessageEntityKind::TextMention { .. }
            | MessageEntityKind::CustomEmoji { .. } => 2,
            _ => 0,
        };
        size = size.saturating_add(tags);
        i = i + 1;
    }
    proof {
        assert(entities@.take(i as int) =~= entities@);
    }
    size
}

impl<'a> Clone for Unparser<'a> {
    /// A second unparser for the same text with the same tags.
    fn clone(&self) -> (r: Self)
        ensures
            r.text() == self.text(),
            r.boundaries() == self.boundaries(),
    {
        proof {
            use_type_invariant(self);
        }
        let mut pos_tags: Vec<(Position, Tag<'a>)> = Vec::with_capacity(self.pos_tags.len());
        let mut i: usize = 0;
        while i < self.pos_tags.len()
            invariant
                i <= self.pos_tags.len(),
                pos_tags@ =~= self.pos_tags@.take(i as int),
            decreases self.pos_tags.len() - i,
        {
            pos_tags.push(self.pos_tags[i]);
            i = i + 1;
        }
        Unparser { text: self.text, pos_tags }
    }
}

impl<'a> Unparser<'a> {
    #[verifier::type_invariant]
    spec fn well_formed(self) -> bool {
        in_order(self.pos_tags@)
    }

    /// The text that is rendered.
    pub closed spec fn text(&self) -> Seq<char> {
        self.text@
    }

    /// The tags that are written into the text, each with its place, in the
    /// order in which they are written.
    pub closed spec fn boundaries(&self) -> Seq<Boundary> {
        views(self.pos_tags@)
    }

    /// Prepares `text` and `entities` for rendering: each rendered entity
    /// gives a tag at its start and a tag at its end, and the tags are put
    /// into the order in which they are written.
    #[must_use]
    pub fn new(text: &'a str, entities: &'a [MessageEntity]) -> (r: Self)
        ensures
            r.text() == text@,
            r.boundaries() == sorted_boundaries(entities@),
    {
        let mut pos_tags: Vec<(Position, Tag<'a>)> = Vec::with_capacity(needed_size(entities));
        let mut index: usize = 0;
        while index < entities.len()
            invariant
                index <= entities.len(),
                views(pos_tags@) =~= raw_boundaries(entities@.take(index as int)),
                keyed(pos_tags@),
                forall|k: int|
                    0 <= k < pos_tags.len() ==> (#[trigger] pos_tags@[k]).0.index < index,
            decreases entities.len() - index,
        {
            let entity = &entities[index];
            proof {
                assert(entities@.take(index + 1).drop_last() =~= entities@.take(index as int));
            }
            match entity.kind.tag_pair() {
                Some((start, end)) => {
                    let open = (
                        Position { offset: entity.offset as u128, side: Side::Before, index },
                        start,
                    );
                    let close = (
                        Position {
                            offset: entity.offset as u128 + entity.length as u128,
                            side: Side::After,
                            index,
                        },
                        end,
                    );
                    pos_tags.push(open);
                    pos_tags.push(close);
                },
                None => {},
            }
            index = index + 1;
        }
        let ghost raw = pos_tags@;
        let pos_tags = sort_by_position(pos_tags);
        proof {
            assert(entities@.take(index as int) =~= entities@);
            lemma_sorted_views(raw);
        }
        Unparser { text, pos_tags }
    }

    /// Renders the text in the format `W`.
    ///
    /// The text is walked by UTF-16 code unit. Before each unit the tags
    /// that stand at its index are written; a character is written once all
    /// its units are read. The tags that are left when the text ends are
    /// written behind it. Where there is no tag at all, the text is given
    /// back as it is.
    #[must_use]
    pub fn unparse<W: TagWriter>(&self) -> (out: String)
        ensures
            out@ == rendered::<W>(self.text(), self.boundaries()),
    {
        proof {
            use_type_invariant(self);
        }
        if self.pos_tags.is_empty() {
            return self.text.to_owned();
        }
        let ghost text = self.text@;
        let ghost bs = views(self.pos_tags@);
        let units = encode_utf16(self.text);
        let mut buffer = buffer_for(
            self.text.len(),
            get_tags_sizes::<W>(self.pos_tags.as_slice()),
        );
        let mut current: usize = 0;
        let mut prev_point: Option<u16> = None;
        let mut idx: usize = 0;
        // `done` characters are written, and `group` is the first of the
        // tags that belong to the character that is read next.
        let ghost mut done: int = 0;
        let ghost mut group: int = 0;
        proof {
            lemma_char_start_monotonic(text, 0, 0);
            lemma_units_len(text);
        }
        while idx < units.len()
            invariant
                text == self.text@,
                bs == views(self.pos_tags@),
                in_order(self.pos_tags@),
                units@ == utf16_units(text),
                units.len() == utf16_len(text),
                0 <= done <= text.len(),
                idx <= units.len(),
                0 <= group <= current <= self.pos_tags.len(),
                prev_point is None ==> idx == char_start(text, done) && group == current,
                prev_point matches Some(high) ==> done < text.len() && utf16_width(text[done]) == 2
                    && idx == char_start(text, done) + 1 && high == char_units(text[done])[0],
                forall|k: int|
                    0 <= k < group ==> (#[trigger] bs[k]).0.offset < char_start(text, done),
                forall|k: int|
                    group <= k < current ==> char_start(text, done) <= (#[trigger] bs[k]).0.offset
                        < idx,
                forall|k: int| current <= k < bs.len() ==> (#[trigger] bs[k]).0.offset >= idx,
                buffer@ =~= text_of::<W>(pieces_upto(text, bs, done)) + text_of::<W>(
                    tag_pieces(bs.subrange(group, current as int)),
                ),
            decreases units.len() - idx,
        {
            while current < self.pos_tags.len() && self.pos_tags[current].0.offset == idx as u128
                invariant
                    bs == views(self.pos_tags@),
                    in_order(self.pos_tags@),
                    0 <= group <= current <= self.pos_tags.len(),
                    forall|k: int|
                        group <= k < current ==> char_start(text, done) <= (
                        #[trigger] bs[k]).0.offset <= idx,
                    forall|k: int| current <= k < bs.len() ==> (#[trigger] bs[k]).0.offset >= idx,
                    char_start(text, done) <= idx,
                    buffer@ =~= text_of::<W>(pieces_upto(text, bs, done)) + text_of::<W>(
                        tag_pieces(bs.subrange(group, current as int)),
                    ),
                decreases self.pos_tags.len() - current,
            {
                W::write_tag(&self.pos_tags[current].1, &mut buffer);
                proof {
                    assert(tag_pieces(bs.subrange(group, current + 1)) =~= tag_pieces(
                        bs.subrange(group, current as int),
                    ).push(Piece::Tag(bs[current as int].1)));
                    lemma_text_of_push::<W>(
                        tag_pieces(bs.subrange(group, current as int)),
                        Piece::Tag(bs[current as int].1),
                    );
                }
                current = current + 1;
            }
            proof {
                // The tags that are left stand behind this code unit.
                assert forall|k: int| current <= k < bs.len() implies (#[trigger] bs[k]).0.offset
                    >= idx + 1 by {
                    lemma_offsets_rise(self.pos_tags@, current as int, k);
                    assert(bs[current as int].0 == self.pos_tags@[current as int].0);
                }
                // The code unit belongs to the character `text[done]`.
                lemma_char_start_monotonic(text, done, text.len() as int);
                lemma_units_at(text, done);
                lemma_char_units(text[done]);
                lemma_char_start_step(text, done);
            }
            let point = units[idx];
            let complete: Option<char> = match prev_point {
                Some(previous) => Some(decode_pair(previous, point)),
                None => if unit_is_surrogate(point) {
                    None
                } else {
                    Some(decode_unit(point))
                },
            };
            match complete {
                Some(ch) => {
                    proof {
                        lemma_char_units_injective(ch, text[done]);
                    }
                    W::write_char(ch, &mut buffer);
                    prev_point = None;
                    proof {
                        // The tags since `group` are those of this
                        // character, which is now written behind them.
                        let here = tag_pieces(bs.subrange(group, current as int));
                        lemma_tags_within_is_range(
                            bs,
                            group,
                            current as int,
                            char_start(text, done),
                            char_start(text, done + 1),
                        );
                        lemma_text_of_push::<W>(here, Piece::Char(text[done]));
                        lemma_text_of_concat::<W>(
                            pieces_upto(text, bs, done),
                            here.push(Piece::Char(text[done])),
                        );
                        done = done + 1;
                        group = current as int;
                    }
                },
                None => {
                    prev_point = Some(point);
                },
            }
            idx = idx + 1;
        }
        proof {
            // No character is left half read, so the whole text is written.
            lemma_char_start_monotonic(text, done, text.len() as int);
            if prev_point is Some {
                lemma_units_at(text, done);
            }
        }
        while current < self.pos_tags.len()
            invariant
                bs == views(self.pos_tags@),
                0 <= group <= current <= self.pos_tags.len(),
                buffer@ =~= text_of::<W>(pieces_upto(text, bs, done)) + text_of::<W>(
                    tag_pieces(bs.subrange(group, current as int)),
                ),
            decreases self.pos_tags.len() - current,
        {
            W::write_tag(&self.pos_tags[current].1, &mut buffer);
            proof {
                assert(tag_pieces(bs.subrange(group, current + 1)) =~= tag_pieces(
                    bs.subrange(group, current as int),
                ).push(Piece::Tag(bs[current as int].1)));
                lemma_text_of_push::<W>(
                    tag_pieces(bs.subrange(group, current as int)),
                    Piece::Tag(bs[current as int].1),
                );
            }
            current = current + 1;
        }
        proof {
            lemma_tags_within_is_range(
                bs,
                group,
                bs.len() as int,
                utf16_len(text) as int,
                u128::MAX + 1,
            );
            lemma_text_of_concat::<W>(
                pieces_upto(text, bs, done),
                tags_from(bs, utf16_len(text) as int),
            );
        }
        buffer
    }

    /// Renders the text as HTML.
    #[must_use]
    pub fn as_html(&self) -> (out: String)
        ensures
            out@ == rendered::<Html>(self.text(), self.boundaries()),
    {
        self.unparse::<Html>()
    }

    /// Renders the text as Markdown.
    #[must_use]
    pub fn as_markdown(&self) -> (out: String)
        ensures
            out@ == rendered::<Markdown>(self.text(), self.boundaries()),
    {
        self.unparse::<Markdown>()
    }
}

} // verus!
