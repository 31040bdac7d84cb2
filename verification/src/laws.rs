//! What holds of every rendering: which tags are written, in which order,
//! and what becomes of the text.

use vstd::prelude::*;
use vstd::seq_lib::*;
use crate::entity::MessageEntity;
use crate::position::{precedes, precedes_is_total};
use crate::html::{Html, html_escaped};
use crate::markdown::{Markdown, markdown_escaped};
use crate::render::{
    Boundary,
    Piece,
    closing,
    lemma_tags_within_is_range,
    lemma_text_of_concat,
    lemma_text_of_push,
    opening,
    pieces,
    pieces_upto,
    raw_boundaries,
    rendered_count,
    rendering,
    sorted_boundaries,
    tag_pieces,
    tags_from,
    tags_within,
    text_of,
};
use crate::tag::TagView;
use crate::utf16::{char_start, lemma_char_is_scalar, lemma_char_start_monotonic, utf16_len};
use crate::sorting::{
    in_order,
    keyed,
    lemma_offsets_rise,
    lemma_keyed_is_kept,
    lemma_order_is_unique,
    lemma_sorted_by_position,
    sorted_by_position,
    strictly_ordered,
};
use crate::writer::TagWriter;

verus! {

/// `b` is one of the two boundaries of entity number `i`, which is
/// rendered.
pub open spec fn is_boundary_of(entities: Seq<MessageEntity>, i: int, b: Boundary) -> bool {
    &&& 0 <= i < entities.len()
    &&& entities[i].kind.is_rendered()
    &&& (b == opening(entities[i], i) || b == closing(entities[i], i))
}

/// `b` is a boundary of one of the rendered entities.
pub open spec fn is_entity_boundary(entities: Seq<MessageEntity>, b: Boundary) -> bool {
    exists|i: int| is_boundary_of(entities, i, b)
}

/// Each rendered entity gives two boundaries.
proof fn lemma_raw_len(entities: Seq<MessageEntity>)
    ensures
        raw_boundaries(entities).len() == 2 * rendered_count(entities),
    decreases entities.len(),
{
    if entities.len() > 0 {
        lemma_raw_len(entities.drop_last());
    }
}

/// Each boundary belongs to a rendered entity.
proof fn lemma_raw_members(entities: Seq<MessageEntity>, k: int)
    requires
        0 <= k < raw_boundaries(entities).len(),
    ensures
        is_entity_boundary(entities, raw_boundaries(entities)[k]),
    decreases entities.len(),
{
    let front = entities.drop_last();
    let raw_front = raw_boundaries(front);
    let last = entities.len() - 1;
    let b = raw_boundaries(entities)[k];
    if k < raw_front.len() {
        lemma_raw_members(front, k);
        let i = choose|i: int| is_boundary_of(front, i, raw_front[k]);
        assert(is_boundary_of(entities, i, b));
    } else {
        assert(is_boundary_of(entities, last, b));
    }
}

/// Both boundaries of each rendered entity are there.
proof fn lemma_raw_holds(entities: Seq<MessageEntity>, i: int)
    requires
        0 <= i < entities.len(),
        entities[i].kind.is_rendered(),
    ensures
        raw_boundaries(entities).contains(opening(entities[i], i)),
        raw_boundaries(entities).contains(closing(entities[i], i)),
    decreases entities.len(),
{
    let front = entities.drop_last();
    let raw_front = raw_boundaries(front);
    let raw = raw_boundaries(entities);
    let last = entities.len() - 1;
    if i < last {
        lemma_raw_holds(front, i);
        let a = choose|a: int| 0 <= a < raw_front.len() && raw_front[a] == opening(front[i], i);
        let b = choose|b: int| 0 <= b < raw_front.len() && raw_front[b] == closing(front[i], i);
        assert(raw[a] == raw_front[a]);
        assert(raw[b] == raw_front[b]);
    } else {
        assert(raw[raw.len() - 2] == opening(entities[i], i));
        assert(raw[raw.len() - 1] == closing(entities[i], i));
    }
}

/// No two boundaries stand at the same position, so none stands twice.
proof fn lemma_raw_distinct(entities: Seq<MessageEntity>)
    requires
        entities.len() <= usize::MAX,
    ensures
        forall|a: int, b: int|
            #![trigger raw_boundaries(entities)[a], raw_boundaries(entities)[b]]
            0 <= a < b < raw_boundaries(entities).len() ==> raw_boundaries(entities)[a].0
                != raw_boundaries(entities)[b].0,
        keyed(raw_boundaries(entities)),
        raw_boundaries(entities).no_duplicates(),
    decreases entities.len(),
{
    let raw = raw_boundaries(entities);
    if entities.len() > 0 {
        let front = entities.drop_last();
        let raw_front = raw_boundaries(front);
        lemma_raw_distinct(front);
        assert forall|a: int, b: int| 0 <= a < b < raw.len() implies (#[trigger] raw[a]).0 != (
        #[trigger] raw[b]).0 by {
            if a < raw_front.len() <= b {
                lemma_raw_members(front, a);
            }
        }
    }
    assert forall|a: int, b: int|
        0 <= a < raw.len() && 0 <= b < raw.len() && (#[trigger] raw[a]).0 == (
        #[trigger] raw[b]).0 implies a == b by {
        if a != b {
            assert(raw[a].0 != raw[b].0);
        }
    }
}

/// An ordered sequence in which no item stands twice and no two items
/// share a position is strictly ordered.
proof fn lemma_strictly_ordered(s: Seq<Boundary>)
    requires
        in_order(s),
        keyed(s),
        s.no_duplicates(),
    ensures
        strictly_ordered(s),
{
    assert forall|i: int, j: int| 0 <= i < j < s.len() implies precedes(
        (#[trigger] s[i]).0,
        (#[trigger] s[j]).0,
    ) by {
        precedes_is_total(s[i].0, s[j].0);
    }
}

/// The list of boundaries holds two boundaries for each rendered entity,
/// its opening and its closing, and nothing else; and each boundary in it
/// belongs strictly before all that follow it.
pub proof fn boundaries_are_the_sorted_entity_tags(entities: Seq<MessageEntity>)
    requires
        entities.len() <= usize::MAX,
    ensures
        sorted_boundaries(entities).len() == 2 * rendered_count(entities),
        sorted_boundaries(entities).to_multiset() =~= raw_boundaries(entities).to_multiset(),
        strictly_ordered(sorted_boundaries(entities)),
        forall|i: int|
            0 <= i < entities.len() && (#[trigger] entities[i]).kind.is_rendered()
                ==> sorted_boundaries(entities).contains(opening(entities[i], i))
                && sorted_boundaries(entities).contains(closing(entities[i], i)),
        forall|k: int|
            0 <= k < sorted_boundaries(entities).len() ==> is_entity_boundary(
                entities,
                #[trigger] sorted_boundaries(entities)[k],
            ),
{
    broadcast use group_to_multiset_ensures;

    let raw = raw_boundaries(entities);
    let sorted = sorted_boundaries(entities);
    lemma_raw_len(entities);
    lemma_raw_distinct(entities);
    lemma_sorted_by_position(raw);
    lemma_keyed_is_kept(raw, sorted);
    raw.lemma_multiset_has_no_duplicates();
    sorted.lemma_multiset_has_no_duplicates_conv();
    lemma_strictly_ordered(sorted);
    assert forall|i: int|
        0 <= i < entities.len() && (#[trigger] entities[i]).kind.is_rendered() implies sorted.contains(
        opening(entities[i], i),
    ) && sorted.contains(closing(entities[i], i)) by {
        lemma_raw_holds(entities, i);
        assert(raw.to_multiset().count(opening(entities[i], i)) > 0);
        assert(raw.to_multiset().count(closing(entities[i], i)) > 0);
    }
    assert forall|k: int| 0 <= k < sorted.len() implies is_entity_boundary(
        entities,
        #[trigger] sorted[k],
    ) by {
        assert(sorted.to_multiset().count(sorted[k]) > 0);
        let a = choose|a: int| 0 <= a < raw.len() && raw[a] == sorted[k];
        lemma_raw_members(entities, a);
    }
}

/// There is one order only: whatever holds the boundaries of the entities
/// with none of them before an earlier one is the list of boundaries.
pub proof fn boundary_order_is_unique(entities: Seq<MessageEntity>, bs: Seq<Boundary>)
    requires
        entities.len() <= usize::MAX,
        in_order(bs),
        bs.to_multiset() =~= raw_boundaries(entities).to_multiset(),
    ensures
        bs == sorted_boundaries(entities),
{
    let raw = raw_boundaries(entities);
    lemma_raw_distinct(entities);
    lemma_sorted_by_position(raw);
    lemma_keyed_is_kept(raw, sorted_by_position(raw));
    lemma_order_is_unique(sorted_by_position(raw), bs);
}

/// Of two items of an ordered sequence, the one that belongs before the
/// other stands before it.
proof fn lemma_order_of_members(s: Seq<Boundary>, x: Boundary, y: Boundary)
    requires
        in_order(s),
        s.contains(x),
        s.contains(y),
        precedes(x.0, y.0),
    ensures
        stands_before(s, x, y),
{
    let a = choose|a: int| 0 <= a < s.len() && s[a] == x;
    let b = choose|b: int| 0 <= b < s.len() && s[b] == y;
    assert(a < b) by {
        if b < a {
            assert(!precedes(s[a].0, s[b].0));
        }
    }
}

/// `x` stands in `s` at an earlier place than `y`.
pub open spec fn stands_before(s: Seq<Boundary>, x: Boundary, y: Boundary) -> bool {
    exists|a: int, b: int| 0 <= a < b < s.len() && #[trigger] s[a] == x && #[trigger] s[b] == y
}

/// Entities that start at the same offset are opened in the order in which
/// they were given.
pub proof fn same_start_opens_in_given_order(entities: Seq<MessageEntity>, i: int, j: int)
    requires
        entities.len() <= usize::MAX,
        0 <= i < j < entities.len(),
        entities[i].kind.is_rendered(),
        entities[j].kind.is_rendered(),
        entities[i].offset == entities[j].offset,
    ensures
        stands_before(
            sorted_boundaries(entities),
            opening(entities[i], i),
            opening(entities[j], j),
        ),
{
    boundaries_are_the_sorted_entity_tags(entities);
    lemma_sorted_by_position(raw_boundaries(entities));
    lemma_order_of_members(
        sorted_boundaries(entities),
        opening(entities[i], i),
        opening(entities[j], j),
    );
}

/// Entities that end at the same offset are closed in the reverse of the
/// order in which they were given.
pub proof fn same_end_closes_in_reverse_order(entities: Seq<MessageEntity>, i: int, j: int)
    requires
        entities.len() <= usize::MAX,
        0 <= i < j < entities.len(),
        entities[i].kind.is_rendered(),
        entities[j].kind.is_rendered(),
        entities[i].end() == entities[j].end(),
    ensures
        stands_before(
            sorted_boundaries(entities),
            closing(entities[j], j),
            closing(entities[i], i),
        ),
{
    boundaries_are_the_sorted_entity_tags(entities);
    lemma_sorted_by_position(raw_boundaries(entities));
    lemma_order_of_members(
        sorted_boundaries(entities),
        closing(entities[j], j),
        closing(entities[i], i),
    );
}

/// Where one entity ends at the offset at which another starts, the first
/// is closed before the second is opened. This holds of an empty entity
/// too, which is closed before it is opened.
pub proof fn close_comes_before_open(entities: Seq<MessageEntity>, i: int, j: int)
    requires
        entities.len() <= usize::MAX,
        0 <= i < entities.len(),
        0 <= j < entities.len(),
        entities[i].kind.is_rendered(),
        entities[j].kind.is_rendered(),
        entities[i].end() == entities[j].offset,
    ensures
        stands_before(
            sorted_boundaries(entities),
            closing(entities[i], i),
            opening(entities[j], j),
        ),
{
    boundaries_are_the_sorted_entity_tags(entities);
    lemma_sorted_by_position(raw_boundaries(entities));
    lemma_order_of_members(
        sorted_boundaries(entities),
        closing(entities[i], i),
        opening(entities[j], j),
    );
}

/// An entity that is not empty is opened before it is closed.
pub proof fn open_comes_before_close(entities: Seq<MessageEntity>, i: int)
    requires
        entities.len() <= usize::MAX,
        0 <= i < entities.len(),
        entities[i].kind.is_rendered(),
        entities[i].length > 0,
    ensures
        stands_before(
            sorted_boundaries(entities),
            opening(entities[i], i),
            closing(entities[i], i),
        ),
{
    boundaries_are_the_sorted_entity_tags(entities);
    lemma_sorted_by_position(raw_boundaries(entities));
    lemma_order_of_members(
        sorted_boundaries(entities),
        opening(entities[i], i),
        closing(entities[i], i),
    );
}

/// A text without entities is rendered as itself, as HTML and as Markdown:
/// nothing is added and nothing is escaped.
pub proof fn text_without_entities_is_unchanged(text: Seq<char>)
    ensures
        rendering::<Html>(text, Seq::<MessageEntity>::empty()) == text,
        rendering::<Markdown>(text, Seq::<MessageEntity>::empty()) == text,
{
}

/// A text whose entities are all of kinds that are not rendered is rendered
/// as itself, in every format.
pub proof fn text_without_rendered_entities_is_unchanged<W: TagWriter>(
    text: Seq<char>,
    entities: Seq<MessageEntity>,
)
    requires
        rendered_count(entities) == 0,
    ensures
        rendering::<W>(text, entities) == text,
{
    lemma_raw_len(entities);
    lemma_sorted_by_position(raw_boundaries(entities));
}

/// The characters among `ps`, in their order.
pub open spec fn chars_of(ps: Seq<Piece>) -> Seq<char>
    decreases ps.len(),
{
    if ps.len() == 0 {
        Seq::empty()
    } else {
        match ps.last() {
            Piece::Char(ch) => chars_of(ps.drop_last()).push(ch),
            Piece::Tag(_) => chars_of(ps.drop_last()),
        }
    }
}

/// The tags among `ps`, in their order.
pub open spec fn tags_of(ps: Seq<Piece>) -> Seq<TagView>
    decreases ps.len(),
{
    if ps.len() == 0 {
        Seq::empty()
    } else {
        match ps.last() {
            Piece::Char(_) => tags_of(ps.drop_last()),
            Piece::Tag(tag) => tags_of(ps.drop_last()).push(tag),
        }
    }
}

/// The tags of `bs`, in their order.
pub open spec fn boundary_tags(bs: Seq<Boundary>) -> Seq<TagView> {
    Seq::new(bs.len(), |k: int| bs[k].1)
}

/// The characters of two runs of pieces, one after the other.
proof fn lemma_chars_of_concat(a: Seq<Piece>, b: Seq<Piece>)
    ensures
        chars_of(a + b) =~= chars_of(a) + chars_of(b),
    decreases b.len(),
{
    if b.len() > 0 {
        lemma_chars_of_concat(a, b.drop_last());
        assert((a + b).drop_last() =~= a + b.drop_last());
    }
}

/// The tags of two runs of pieces, one after the other.
proof fn lemma_tags_of_concat(a: Seq<Piece>, b: Seq<Piece>)
    ensures
        tags_of(a + b) =~= tags_of(a) + tags_of(b),
    decreases b.len(),
{
    if b.len() > 0 {
        lemma_tags_of_concat(a, b.drop_last());
        assert((a + b).drop_last() =~= a + b.drop_last());
    }
}

/// A run of tags holds its tags and no character.
proof fn lemma_tag_pieces(bs: Seq<Boundary>)
    ensures
        chars_of(tag_pieces(bs)) =~= Seq::<char>::empty(),
        tags_of(tag_pieces(bs)) =~= boundary_tags(bs),
    decreases bs.len(),
{
    if bs.len() > 0 {
        lemma_tag_pieces(bs.drop_last());
        assert(tag_pieces(bs).drop_last() =~= tag_pieces(bs.drop_last()));
    }
}

/// There is no character among the tags of a range of offsets.
proof fn lemma_no_chars_among_tags(bs: Seq<Boundary>, lo: int, hi: int)
    ensures
        chars_of(tags_within(bs, lo, hi)) =~= Seq::<char>::empty(),
    decreases bs.len(),
{
    if bs.len() > 0 {
        lemma_no_chars_among_tags(bs.drop_last(), lo, hi);
        if lo <= bs.last().0.offset < hi {
            assert(tags_within(bs, lo, hi).drop_last() =~= tags_within(bs.drop_last(), lo, hi));
        }
    }
}

/// A character behind a run of pieces adds that character and no tag.
proof fn lemma_push_char(tags: Seq<Piece>, ch: char)
    ensures
        chars_of(tags.push(Piece::Char(ch))) =~= chars_of(tags).push(ch),
        tags_of(tags.push(Piece::Char(ch))) =~= tags_of(tags),
{
    assert(tags.push(Piece::Char(ch)).drop_last() =~= tags);
}

/// The characters of the output for the first `n` characters are these
/// characters.
proof fn lemma_chars_upto(text: Seq<char>, bs: Seq<Boundary>, n: int)
    requires
        0 <= n <= text.len(),
    ensures
        chars_of(pieces_upto(text, bs, n)) =~= text.take(n),
    decreases n,
{
    if n > 0 {
        lemma_chars_upto(text, bs, n - 1);
        lemma_char_is_scalar(text[n - 1]);
        let tags = tags_within(bs, char_start(text, n - 1), char_start(text, n));
        lemma_no_chars_among_tags(bs, char_start(text, n - 1), char_start(text, n));
        lemma_chars_of_concat(pieces_upto(text, bs, n - 1), tags.push(Piece::Char(text[n - 1])));
        lemma_push_char(tags, text[n - 1]);
    }
}

/// The characters of the output are the characters of the text, whatever
/// the tags are: nothing of the text is lost, doubled or moved.
pub proof fn text_is_kept(text: Seq<char>, bs: Seq<Boundary>)
    ensures
        chars_of(pieces(text, bs)) == text,
{
    lemma_chars_upto(text, bs, text.len() as int);
    lemma_no_chars_among_tags(bs, utf16_len(text) as int, u128::MAX + 1);
    lemma_chars_of_concat(
        pieces_upto(text, bs, text.len() as int),
        tags_from(bs, utf16_len(text) as int),
    );
}

/// The number of boundaries of `bs` whose offset is below `limit`.
spec fn count_below(bs: Seq<Boundary>, limit: int) -> int
    decreases bs.len(),
{
    if bs.len() == 0 {
        0
    } else if bs.last().0.offset < limit {
        count_below(bs.drop_last(), limit) + 1
    } else {
        count_below(bs.drop_last(), limit)
    }
}

/// In an ordered sequence the boundaries below a limit stand in front of
/// all others.
proof fn lemma_count_below(bs: Seq<Boundary>, limit: int)
    requires
        in_order(bs),
    ensures
        0 <= count_below(bs, limit) <= bs.len(),
        forall|k: int| 0 <= k < count_below(bs, limit) ==> (#[trigger] bs[k]).0.offset < limit,
        forall|k: int|
            count_below(bs, limit) <= k < bs.len() ==> (#[trigger] bs[k]).0.offset >= limit,
        limit <= 0 ==> count_below(bs, limit) == 0,
        limit > u128::MAX ==> count_below(bs, limit) == bs.len(),
    decreases bs.len(),
{
    if bs.len() > 0 {
        let front = bs.drop_last();
        lemma_count_below(front, limit);
        let c = count_below(front, limit);
        assert forall|k: int| 0 <= k < front.len() implies front[k] == bs[k] by {}
        if bs.last().0.offset < limit {
            if c < front.len() {
                lemma_offsets_rise(bs, c, bs.len() - 1);
            }
        }
    }
}

/// The higher the limit, the more boundaries are below it.
proof fn lemma_below_grows(bs: Seq<Boundary>, lo: int, hi: int)
    requires
        lo <= hi,
    ensures
        count_below(bs, lo) <= count_below(bs, hi),
    decreases bs.len(),
{
    if bs.len() > 0 {
        lemma_below_grows(bs.drop_last(), lo, hi);
    }
}

/// The tags of the output for the first `n` characters are the tags of the
/// boundaries whose offset is below the end of these characters.
proof fn lemma_tags_upto(text: Seq<char>, bs: Seq<Boundary>, n: int)
    requires
        in_order(bs),
        0 <= n <= text.len(),
    ensures
        tags_of(pieces_upto(text, bs, n)) =~= boundary_tags(
            bs.subrange(0, count_below(bs, char_start(text, n))),
        ),
    decreases n,
{
    lemma_char_start_monotonic(text, n, n);
    lemma_count_below(bs, char_start(text, n));
    if n > 0 {
        let lo = char_start(text, n - 1);
        let hi = char_start(text, n);
        let a = count_below(bs, lo);
        let b = count_below(bs, hi);
        lemma_tags_upto(text, bs, n - 1);
        lemma_char_is_scalar(text[n - 1]);
        lemma_char_start_monotonic(text, n - 1, n);
        lemma_count_below(bs, lo);
        lemma_below_grows(bs, lo, hi);
        lemma_tags_within_is_range(bs, a, b, lo, hi);
        let tags = tags_within(bs, lo, hi);
        lemma_tags_of_concat(pieces_upto(text, bs, n - 1), tags.push(Piece::Char(text[n - 1])));
        lemma_push_char(tags, text[n - 1]);
        lemma_tag_pieces(bs.subrange(a, b));
    }
}

/// The tags of the output are the tags of the boundaries, each written
/// once, in the order of the boundaries: no tag is left out, whatever its
/// offset, and none is written twice.
pub proof fn every_tag_is_written_once(text: Seq<char>, bs: Seq<Boundary>)
    requires
        in_order(bs),
    ensures
        tags_of(pieces(text, bs)) == boundary_tags(bs),
{
    let n = text.len() as int;
    let end = utf16_len(text) as int;
    lemma_char_start_monotonic(text, n, n);
    lemma_tags_upto(text, bs, n);
    lemma_count_below(bs, end);
    let a = count_below(bs, end);
    lemma_tags_within_is_range(bs, a, bs.len() as int, end, u128::MAX + 1);
    lemma_tag_pieces(bs.subrange(a, bs.len() as int));
    lemma_tags_of_concat(pieces_upto(text, bs, n), tags_from(bs, end));
}

/// Each rendered entity has its start tag and its end tag in the output,
/// once each; where the entity is not empty, the start tag is written
/// before the end tag.
pub proof fn tags_are_balanced(text: Seq<char>, entities: Seq<MessageEntity>)
    requires
        entities.len() <= usize::MAX,
    ensures
        tags_of(pieces(text, sorted_boundaries(entities))) == boundary_tags(
            sorted_boundaries(entities),
        ),
        sorted_boundaries(entities).no_duplicates(),
        forall|i: int|
            0 <= i < entities.len() && (#[trigger] entities[i]).kind.is_rendered()
                ==> sorted_boundaries(entities).contains(opening(entities[i], i))
                && sorted_boundaries(entities).contains(closing(entities[i], i)),
        forall|i: int|
            0 <= i < entities.len() && (#[trigger] entities[i]).kind.is_rendered()
                && entities[i].length > 0 ==> stands_before(
                sorted_boundaries(entities),
                opening(entities[i], i),
                closing(entities[i], i),
            ),
{
    let sorted = sorted_boundaries(entities);
    boundaries_are_the_sorted_entity_tags(entities);
    lemma_sorted_by_position(raw_boundaries(entities));
    lemma_raw_distinct(entities);
    raw_boundaries(entities).lemma_multiset_has_no_duplicates();
    sorted.lemma_multiset_has_no_duplicates_conv();
    every_tag_is_written_once(text, sorted);
    assert forall|i: int|
        0 <= i < entities.len() && (#[trigger] entities[i]).kind.is_rendered() && entities[i].length
            > 0 implies stands_before(sorted, opening(entities[i], i), closing(entities[i], i)) by {
        open_comes_before_close(entities, i);
    }
}

/// What HTML writes for a character tells which character it was.
pub proof fn html_escaping_can_be_undone(a: char, b: char)
    requires
        html_escaped(a) == html_escaped(b),
    ensures
        a == b,
{
    reveal_strlit("&amp;");
    reveal_strlit("&lt;");
    reveal_strlit("&gt;");
    let x = html_escaped(a);
    let y = html_escaped(b);
    let plain_a = a != '&' && a != '<' && a != '>';
    if plain_a {
        assert(x.len() == 1);
        assert(x[0] == a && y[0] == b);
    } else {
        assert(x.len() >= 4);
        assert(x[1] == 'a' || x[1] == 'l' || x[1] == 'g');
    }
}

/// What Markdown writes for a character ends in that character, so it tells
/// which character it was.
pub proof fn markdown_escaping_can_be_undone(a: char, b: char)
    ensures
        markdown_escaped(a).last() == a,
        markdown_escaped(a) == markdown_escaped(b) ==> a == b,
{
    if markdown_escaped(a) == markdown_escaped(b) {
        assert(markdown_escaped(b).last() == b);
    }
}

/// The characters of `s`, as pieces.
pub open spec fn char_pieces(s: Seq<char>) -> Seq<Piece>
    decreases s.len(),
{
    if s.len() == 0 {
        Seq::empty()
    } else {
        char_pieces(s.drop_last()).push(Piece::Char(s.last()))
    }
}

/// The characters of `s` as the format `W` writes them, each escaped where
/// the format asks for it.
pub open spec fn escaped<W: TagWriter>(s: Seq<char>) -> Seq<char> {
    text_of::<W>(char_pieces(s))
}

/// Escaping goes character by character.
pub proof fn escaped_by_character<W: TagWriter>(s: Seq<char>, ch: char)
    ensures
        escaped::<W>(Seq::empty()) == Seq::<char>::empty(),
        escaped::<W>(s.push(ch)) == escaped::<W>(s) + W::char_text(ch),
{
    lemma_char_pieces_push(s, ch);
    lemma_text_of_push::<W>(char_pieces(s), Piece::Char(ch));
}

/// The pieces of a run of characters with one more character behind it.
proof fn lemma_char_pieces_push(s: Seq<char>, ch: char)
    ensures
        char_pieces(s.push(ch)) =~= char_pieces(s).push(Piece::Char(ch)),
{
    assert(s.push(ch).drop_last() =~= s);
}

/// The list of boundaries of a single entity that is not empty: its
/// opening, then its closing.
proof fn lemma_boundaries_of_one(entity: MessageEntity)
    requires
        entity.kind.is_rendered(),
        entity.length > 0,
    ensures
        sorted_boundaries(seq![entity]) =~= seq![opening(entity, 0), closing(entity, 0)],
{
    let entities = seq![entity];
    let o = opening(entity, 0);
    assert(raw_boundaries(entities.drop_last()) =~= Seq::<Boundary>::empty());
    let raw = raw_boundaries(entities);
    assert(sorted_by_position(raw.drop_last().drop_last()) =~= Seq::<Boundary>::empty());
    assert(sorted_by_position(raw.drop_last()) =~= seq![o]);
}

/// Which of two boundaries have their offset from `lo` up to `hi`.
proof fn lemma_tags_within_pair(o: Boundary, c: Boundary, lo: int, hi: int)
    ensures
        tags_within(seq![o, c], lo, hi) =~= (if lo <= o.0.offset < hi {
            seq![Piece::Tag(o.1)]
        } else {
            Seq::<Piece>::empty()
        }) + (if lo <= c.0.offset < hi {
            seq![Piece::Tag(c.1)]
        } else {
            Seq::<Piece>::empty()
        }),
{
    let bs = seq![o, c];
    assert(tags_within(bs.drop_last().drop_last(), lo, hi) =~= Seq::<Piece>::empty());
    assert(tags_within(bs.drop_last(), lo, hi) =~= (if lo <= o.0.offset < hi {
        seq![Piece::Tag(o.1)]
    } else {
        Seq::<Piece>::empty()
    }));
}

/// The output for the first `n` characters where one entity covers the
/// characters from `from` up to `to`.
proof fn lemma_span_upto(text: Seq<char>, o: Boundary, c: Boundary, from: int, to: int, n: int)
    requires
        0 <= from < to <= text.len(),
        0 <= n <= text.len(),
        o.0.offset == char_start(text, from),
        c.0.offset == char_start(text, to),
    ensures
        pieces_upto(text, seq![o, c], n) =~= if n <= from {
            char_pieces(text.take(n))
        } else if n <= to {
            char_pieces(text.take(from)).push(Piece::Tag(o.1)) + char_pieces(
                text.subrange(from, n),
            )
        } else {
            char_pieces(text.take(from)).push(Piece::Tag(o.1)) + char_pieces(
                text.subrange(from, to),
            ).push(Piece::Tag(c.1)) + char_pieces(text.subrange(to, n))
        },
    decreases n,
{
    if n > 0 {
        let m = n - 1;
        let ch = text[m];
        lemma_span_upto(text, o, c, from, to, m);
        lemma_char_is_scalar(ch);
        lemma_char_start_monotonic(text, m, n);
        lemma_tags_within_pair(o, c, char_start(text, m), char_start(text, n));
        if from <= m {
            lemma_char_start_monotonic(text, from, m);
        } else {
            lemma_char_start_monotonic(text, n, from);
        }
        if to <= m {
            lemma_char_start_monotonic(text, to, m);
        } else {
            lemma_char_start_monotonic(text, n, to);
        }
        if m < from {
            assert(text.take(n) =~= text.take(m).push(ch));
            lemma_char_pieces_push(text.take(m), ch);
        } else if m == from {
            assert(text.subrange(from, n) =~= Seq::<char>::empty().push(ch));
            lemma_char_pieces_push(Seq::<char>::empty(), ch);
        } else if m < to {
            assert(text.subrange(from, n) =~= text.subrange(from, m).push(ch));
            lemma_char_pieces_push(text.subrange(from, m), ch);
        } else if m == to {
            assert(text.subrange(to, n) =~= Seq::<char>::empty().push(ch));
            lemma_char_pieces_push(Seq::<char>::empty(), ch);
        } else {
            assert(text.subrange(to, n) =~= text.subrange(to, m).push(ch));
            lemma_char_pieces_push(text.subrange(to, m), ch);
        }
    }
}

/// The tags of an entity that covers a run of whole characters stand
/// directly before the first and directly behind the last character of the
/// run. No tag can come to stand inside a character, between the two code
/// units of a surrogate pair.
pub proof fn tags_enclose_the_characters(
    text: Seq<char>,
    entity: MessageEntity,
    from: int,
    to: int,
)
    requires
        0 <= from < to <= text.len(),
        entity.kind.is_rendered(),
        entity.offset == char_start(text, from),
        entity.end() == char_start(text, to),
    ensures
        pieces(text, sorted_boundaries(seq![entity])) == char_pieces(text.take(from)).push(
            Piece::Tag(entity.kind.start_tag()),
        ) + char_pieces(text.subrange(from, to)).push(Piece::Tag(entity.kind.end_tag()))
            + char_pieces(text.skip(to)),
{
    let o = opening(entity, 0);
    let c = closing(entity, 0);
    let n = text.len() as int;
    let end = utf16_len(text) as int;
    lemma_char_start_monotonic(text, from, to);
    lemma_char_start_monotonic(text, to, n);
    lemma_boundaries_of_one(entity);
    lemma_span_upto(text, o, c, from, to, n);
    lemma_tags_within_pair(o, c, end, u128::MAX + 1);
}

/// The rendering of a text with one entity that covers a run of whole
/// characters: the characters before the run, the start tag, the
/// characters of the run, the end tag, and the characters behind the run.
/// The characters are escaped; the tags are written as the format gives
/// them.
pub proof fn rendering_of_one_span<W: TagWriter>(
    text: Seq<char>,
    entity: MessageEntity,
    from: int,
    to: int,
)
    requires
        0 <= from < to <= text.len(),
        entity.kind.is_rendered(),
        entity.offset == char_start(text, from),
        entity.end() == char_start(text, to),
    ensures
        rendering::<W>(text, seq![entity]) == escaped::<W>(text.take(from)) + W::tag_text(
            entity.kind.start_tag(),
        ) + escaped::<W>(text.subrange(from, to)) + W::tag_text(entity.kind.end_tag())
            + escaped::<W>(text.skip(to)),
{
    let start = Piece::Tag(entity.kind.start_tag());
    let end = Piece::Tag(entity.kind.end_tag());
    let before = char_pieces(text.take(from));
    let inside = char_pieces(text.subrange(from, to));
    let behind = char_pieces(text.skip(to));
    tags_enclose_the_characters(text, entity, from, to);
    lemma_char_start_monotonic(text, from, to);
    lemma_boundaries_of_one(entity);
    lemma_text_of_push::<W>(before, start);
    lemma_text_of_push::<W>(inside, end);
    lemma_text_of_concat::<W>(before.push(start), inside.push(end));
    lemma_text_of_concat::<W>(before.push(start) + inside.push(end), behind);
}

} // verus!
