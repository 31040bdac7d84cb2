//! What the rendered text is: the boundaries that the entities give, their
//! order, and how tags and characters alternate in the output.

use vstd::prelude::*;
use crate::entity::MessageEntity;
use crate::position::{Position, Side};
use crate::sorting::sorted_by_position;
use crate::tag::TagView;
use crate::utf16::{char_start, utf16_len};
use crate::writer::TagWriter;

verus! {

/// A tag together with the place at which it is written.
pub type Boundary = (Position, TagView);

/// The boundary at which the entity `e`, given as number `index`, opens.
pub open spec fn opening(e: MessageEntity, index: int) -> Boundary
    recommends
        e.kind.is_rendered(),
{
    (
        Position { offset: e.offset as u128, side: Side::Before, index: index as usize },
        e.kind.start_tag(),
    )
}

/// The boundary at which the entity `e`, given as number `index`, closes.
pub open spec fn closing(e: MessageEntity, index: int) -> Boundary
    recommends
        e.kind.is_rendered(),
{
    (
        Position { offset: (e.offset + e.length) as u128, side: Side::After, index: index as usize },
        e.kind.end_tag(),
    )
}

/// The boundaries of the entities in the order in which the entities are
/// given: for each rendered entity its opening and then its closing, and
/// nothing for the others.
pub open spec fn raw_boundaries(entities: Seq<MessageEntity>) -> Seq<Boundary>
    decreases entities.len(),
{
    if entities.len() == 0 {
        Seq::empty()
    } else {
        let front = raw_boundaries(entities.drop_last());
        let e = entities.last();
        let index = entities.len() - 1;
        if e.kind.is_rendered() {
            front.push(opening(e, index)).push(closing(e, index))
        } else {
            front
        }
    }
}

/// The boundaries of the entities in the order in which their tags are
/// written.
pub open spec fn sorted_boundaries(entities: Seq<MessageEntity>) -> Seq<Boundary> {
    sorted_by_position(raw_boundaries(entities))
}

/// The number of rendered entities among `entities`.
pub open spec fn rendered_count(entities: Seq<MessageEntity>) -> nat
    decreases entities.len(),
{
    if entities.len() == 0 {
        0
    } else if entities.last().kind.is_rendered() {
        rendered_count(entities.drop_last()) + 1
    } else {
        rendered_count(entities.drop_last())
    }
}

/// One item of the output: a tag, or a character of the text.
pub enum Piece {
    Tag(TagView),
    Char(char),
}

/// The tags of `bs`, as pieces.
pub open spec fn tag_pieces(bs: Seq<Boundary>) -> Seq<Piece> {
    Seq::new(bs.len(), |i: int| Piece::Tag(bs[i].1))
}

/// The tags of the boundaries of `bs` whose offset is at least `lo` and
/// less than `hi`, in the order of `bs`.
pub open spec fn tags_within(bs: Seq<Boundary>, lo: int, hi: int) -> Seq<Piece>
    decreases bs.len(),
{
    if bs.len() == 0 {
        Seq::empty()
    } else if lo <= bs.last().0.offset < hi {
        tags_within(bs.drop_last(), lo, hi).push(Piece::Tag(bs.last().1))
    } else {
        tags_within(bs.drop_last(), lo, hi)
    }
}

/// The tags of the boundaries of `bs` whose offset is at least `lo`, in the
/// order of `bs`.
pub open spec fn tags_from(bs: Seq<Boundary>, lo: int) -> Seq<Piece> {
    tags_within(bs, lo, u128::MAX + 1)
}

/// The output for the first `n` characters of `text`: before each character
/// stand the tags whose offset falls on one of its code units.
pub open spec fn pieces_upto(text: Seq<char>, bs: Seq<Boundary>, n: int) -> Seq<Piece>
    decreases n,
{
    if n <= 0 {
        Seq::empty()
    } else {
        pieces_upto(text, bs, n - 1) + tags_within(
            bs,
            char_start(text, n - 1),
            char_start(text, n),
        ).push(Piece::Char(text[n - 1]))
    }
}

/// The whole output: the characters with their tags, and behind them the
/// tags whose offset is at or behind the end of the text.
pub open spec fn pieces(text: Seq<char>, bs: Seq<Boundary>) -> Seq<Piece> {
    pieces_upto(text, bs, text.len() as int) + tags_from(bs, utf16_len(text) as int)
}

/// The text of one piece in the format `W`.
pub open spec fn piece_text<W: TagWriter>(p: Piece) -> Seq<char> {
    match p {
        Piece::Tag(tag) => W::tag_text(tag),
        Piece::Char(ch) => W::char_text(ch),
    }
}

/// The texts of the pieces in the format `W`, one after the other.
pub open spec fn text_of<W: TagWriter>(ps: Seq<Piece>) -> Seq<char>
    decreases ps.len(),
{
    if ps.len() == 0 {
        Seq::empty()
    } else {
        text_of::<W>(ps.drop_last()) + piece_text::<W>(ps.last())
    }
}

/// `text` with the tags of the boundaries `bs`, in the format `W`. A text
/// without boundaries is given back as it is, with nothing escaped.
pub open spec fn rendered<W: TagWriter>(text: Seq<char>, bs: Seq<Boundary>) -> Seq<char> {
    if bs.len() == 0 {
        text
    } else {
        text_of::<W>(pieces(text, bs))
    }
}

/// `text` with the tags of `entities`, in the format `W`.
pub open spec fn rendering<W: TagWriter>(
    text: Seq<char>,
    entities: Seq<MessageEntity>,
) -> Seq<char> {
    rendered::<W>(text, sorted_boundaries(entities))
}

/// The text of a sequence of pieces is the text of its front part followed
/// by the text of the rest.
pub proof fn lemma_text_of_concat<W: TagWriter>(a: Seq<Piece>, b: Seq<Piece>)
    ensures
        text_of::<W>(a + b) =~= text_of::<W>(a) + text_of::<W>(b),
    decreases b.len(),
{
    if b.len() > 0 {
        lemma_text_of_concat::<W>(a, b.drop_last());
        assert((a + b).drop_last() =~= a + b.drop_last());
    }
}

/// The text of a sequence of pieces with one more piece behind it.
pub proof fn lemma_text_of_push<W: TagWriter>(a: Seq<Piece>, p: Piece)
    ensures
        text_of::<W>(a.push(p)) =~= text_of::<W>(a) + piece_text::<W>(p),
{
    assert(a.push(p).drop_last() =~= a);
}

/// Where the offsets of `bs` do not fall, the boundaries from `a` up to `b`
/// are those with an offset from `lo` up to `hi`.
pub proof fn lemma_tags_within_is_range(bs: Seq<Boundary>, a: int, b: int, lo: int, hi: int)
    requires
        0 <= a <= b <= bs.len(),
        forall|k: int| 0 <= k < a ==> (#[trigger] bs[k]).0.offset < lo,
        forall|k: int| a <= k < b ==> lo <= (#[trigger] bs[k]).0.offset < hi,
        forall|k: int| b <= k < bs.len() ==> (#[trigger] bs[k]).0.offset >= hi,
    ensures
        tags_within(bs, lo, hi) =~= tag_pieces(bs.subrange(a, b)),
    decreases bs.len(),
{
    if bs.len() > 0 {
        let front = bs.drop_last();
        let n = bs.len() - 1;
        if b <= n {
            lemma_tags_within_is_range(front, a, b, lo, hi);
        } else if a <= n {
            lemma_tags_within_is_range(front, a, n, lo, hi);
        } else {
            lemma_tags_within_is_range(front, n, n, lo, hi);
        }
    }
}

} // verus!
