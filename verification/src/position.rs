//! Where a tag is inserted into the text, and the order in which tags that
//! meet at one place are written.

use std::cmp::Ordering;
use vstd::prelude::*;

verus! {

/// The side of an entity that a boundary marks.
///
/// `Before` is the start of the span and `After` is its end. At one offset
/// every `After` boundary comes first, so that the spans which end there are
/// closed before the spans which start there are opened.
#[derive(Debug, Clone, Copy, PartialEq, Eq, Structural)]
pub enum Side {
    After,
    Before,
}

/// A place in the text at which one tag of one entity is written.
#[derive(Debug, Clone, Copy, PartialEq, Eq, Structural)]
pub struct Position {
    /// Index into the text, counted in UTF-16 code units. It is wide enough
    /// to hold the sum of any entity's offset and length.
    pub offset: u128,
    /// Whether the tag opens or closes the entity.
    pub side: Side,
    /// Index of the entity in the sequence that was given.
    pub index: usize,
}

/// `a` is written strictly before `b`.
///
/// The smaller offset comes first. At one offset a closing boundary comes
/// before an opening one; opening boundaries follow the order in which their
/// entities were given, and closing boundaries the reverse of it.
pub open spec fn precedes(a: Position, b: Position) -> bool {
    if a.offset != b.offset {
        a.offset < b.offset
    } else if a.side != b.side {
        a.side == Side::After
    } else if a.side == Side::Before {
        a.index < b.index
    } else {
        a.index > b.index
    }
}

/// The three-way comparison that belongs to [`precedes`].
pub open spec fn compare(a: Position, b: Position) -> Ordering {
    if precedes(a, b) {
        Ordering::Less
    } else if precedes(b, a) {
        Ordering::Greater
    } else {
        Ordering::Equal
    }
}

impl Position {
    /// Compares two positions: by offset, then the closing side before the
    /// opening side, then by entity index, ascending among opening
    /// boundaries and descending among closing ones.
    pub fn cmp(&self, other: &Self) -> (r: Ordering)
        ensures
            r == compare(*self, *other),
    {
        if self.offset < other.offset {
            Ordering::Less
        } else if self.offset > other.offset {
            Ordering::Greater
        } else {
            match (self.side, other.side) {
                (Side::After, Side::Before) => Ordering::Less,
                (Side::Before, Side::After) => Ordering::Greater,
                (Side::Before, Side::Before) => {
                    if self.index < other.index {
                        Ordering::Less
                    } else if self.index > other.index {
                        Ordering::Greater
                    } else {
                        Ordering::Equal
                    }
                },
                (Side::After, Side::After) => {
                    if self.index > other.index {
                        Ordering::Less
                    } else if self.index < other.index {
                        Ordering::Greater
                    } else {
                        Ordering::Equal
                    }
                },
            }
        }
    }
}

impl PartialOrd for Position {
    fn partial_cmp(&self, other: &Self) -> (r: Option<Ordering>) {
        Some(self.cmp(other))
    }
}

impl vstd::std_specs::cmp::PartialOrdSpecImpl for Position {
    open spec fn obeys_partial_cmp_spec() -> bool {
        true
    }

    open spec fn partial_cmp_spec(&self, other: &Self) -> Option<Ordering> {
        Some(compare(*self, *other))
    }
}

/// No position precedes itself, and of two positions at most one precedes
/// the other.
pub proof fn precedes_is_strict(a: Position, b: Position)
    ensures
        !precedes(a, a),
        !(precedes(a, b) && precedes(b, a)),
{
}

/// The order is transitive.
pub proof fn precedes_is_transitive(a: Position, b: Position, c: Position)
    requires
        precedes(a, b),
        precedes(b, c),
    ensures
        precedes(a, c),
{
}

/// The order is total: two different positions are always ordered, so the
/// comparison is `Equal` only for one and the same position.
pub proof fn precedes_is_total(a: Position, b: Position)
    ensures
        a == b || precedes(a, b) || precedes(b, a),
        compare(a, b) == Ordering::Equal <==> a == b,
{
}

} // verus!
