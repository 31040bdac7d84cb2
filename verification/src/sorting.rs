//! Sorting of positioned items by their position.

use vstd::prelude::*;
use vstd::seq_lib::*;
use vstd::multiset::*;
use crate::position::{Position, precedes};

verus! {

/// No item of `s` belongs before an item that stands earlier in `s`.
pub open spec fn in_order<T>(s: Seq<(Position, T)>) -> bool {
    forall|i: int, j: int|
        #![trigger s[i], s[j]]
        0 <= i < j < s.len() ==> !precedes(s[j].0, s[i].0)
}

/// Every item of `s` belongs before all the items that stand later in `s`.
pub open spec fn strictly_ordered<T>(s: Seq<(Position, T)>) -> bool {
    forall|i: int, j: int|
        #![trigger s[i], s[j]]
        0 <= i < j < s.len() ==> precedes(s[i].0, s[j].0)
}

/// Two items of `s` that stand at the same position are the same item.
pub open spec fn keyed<T>(s: Seq<(Position, T)>) -> bool {
    forall|i: int, j: int|
        #![trigger s[i], s[j]]
        0 <= i < s.len() && 0 <= j < s.len() && s[i].0 == s[j].0 ==> s[i] == s[j]
}

/// `s` with `x` put in behind the last item that does not belong after it.
pub open spec fn inserted<T>(s: Seq<(Position, T)>, x: (Position, T)) -> Seq<(Position, T)>
    decreases s.len(),
{
    if s.len() > 0 && precedes(x.0, s.last().0) {
        inserted(s.drop_last(), x).push(s.last())
    } else {
        s.push(x)
    }
}

/// The items of `s`, sorted by position: each item in turn is put in among
/// those before it.
pub open spec fn sorted_by_position<T>(s: Seq<(Position, T)>) -> Seq<(Position, T)>
    decreases s.len(),
{
    if s.len() == 0 {
        s
    } else {
        inserted(sorted_by_position(s.drop_last()), s.last())
    }
}

/// What can be neither before nor after is at the same place, so "not
/// after" is transitive.
pub proof fn lemma_not_after_is_transitive(a: Position, b: Position, c: Position)
    requires
        !precedes(b, a),
        !precedes(c, b),
    ensures
        !precedes(c, a),
{
}

/// Putting an item into an ordered sequence keeps the order and adds
/// exactly that item.
pub proof fn lemma_inserted<T>(s: Seq<(Position, T)>, x: (Position, T))
    requires
        in_order(s),
    ensures
        in_order(inserted(s, x)),
        inserted(s, x).len() == s.len() + 1,
        inserted(s, x).to_multiset() =~= s.to_multiset().insert(x),
        forall|k: int|
            0 <= k < inserted(s, x).len() ==> #[trigger] inserted(s, x)[k] == x || s.contains(
                inserted(s, x)[k],
            ),
    decreases s.len(),
{
    broadcast use group_to_multiset_ensures;

    if s.len() > 0 && precedes(x.0, s.last().0) {
        let front = s.drop_last();
        let last = s.last();
        lemma_inserted(front, x);
        assert(s =~= front.push(last));
    } else {
        assert forall|i: int, j: int| 0 <= i < j < s.push(x).len() implies !precedes(
            #[trigger] s.push(x)[j].0,
            #[trigger] s.push(x)[i].0,
        ) by {
            if j == s.len() {
                lemma_not_after_is_transitive(s[i].0, s.last().0, x.0);
            }
        }
    }
}

/// Sorting yields an ordered sequence that holds the same items.
pub proof fn lemma_sorted_by_position<T>(s: Seq<(Position, T)>)
    ensures
        in_order(sorted_by_position(s)),
        sorted_by_position(s).len() == s.len(),
        sorted_by_position(s).to_multiset() =~= s.to_multiset(),
    decreases s.len(),
{
    broadcast use group_to_multiset_ensures;

    if s.len() > 0 {
        lemma_sorted_by_position(s.drop_last());
        lemma_inserted(sorted_by_position(s.drop_last()), s.last());
        assert(s =~= s.drop_last().push(s.last()));
    }
}

/// Two ordered sequences that hold the same items are equal, provided that
/// no two different items share a position.
pub proof fn lemma_order_is_unique<T>(x: Seq<(Position, T)>, y: Seq<(Position, T)>)
    requires
        in_order(x),
        in_order(y),
        keyed(x),
        x.to_multiset() =~= y.to_multiset(),
    ensures
        x =~= y,
    decreases x.len(),
{
    broadcast use group_to_multiset_ensures;
    broadcast use group_multiset_axioms;

    assert(x.len() == y.len()) by {
        assert(x.to_multiset().len() == y.to_multiset().len());
    }
    if x.len() > 0 {
        let a = x.first();
        let b = y.first();
        assert(y.to_multiset().count(a) > 0);
        assert(x.to_multiset().count(b) > 0);
        crate::position::precedes_is_total(a.0, b.0);
        let xs = x.drop_first();
        let ys = y.drop_first();
        assert(x =~= seq![a] + xs);
        assert(y =~= seq![b] + ys);
        lemma_multiset_commutative(seq![a], xs);
        lemma_multiset_commutative(seq![b], ys);
        assert(xs.to_multiset() =~= x.to_multiset().remove(a));
        lemma_order_is_unique(xs, ys);
    }
}

/// Whether two different items share a position depends only on which
/// items a sequence holds, not on their order.
pub proof fn lemma_keyed_is_kept<T>(x: Seq<(Position, T)>, y: Seq<(Position, T)>)
    requires
        keyed(x),
        x.to_multiset() =~= y.to_multiset(),
    ensures
        keyed(y),
{
    broadcast use group_to_multiset_ensures;

    assert forall|i: int, j: int|
        0 <= i < y.len() && 0 <= j < y.len() && #[trigger] y[i].0 == #[trigger] y[j].0 implies y[i]
        == y[j] by {
        assert(x.to_multiset().count(y[i]) > 0);
        assert(x.to_multiset().count(y[j]) > 0);
    }
}

/// In an ordered sequence the offsets do not fall.
pub proof fn lemma_offsets_rise<T>(s: Seq<(Position, T)>, i: int, j: int)
    requires
        in_order(s),
        0 <= i <= j < s.len(),
    ensures
        s[i].0.offset <= s[j].0.offset,
{
}

/// A sequence without items holds nothing.
proof fn lemma_nothing_in_empty<A>(s: Seq<A>)
    requires
        s.len() == 0,
    ensures
        s.to_multiset() =~= Multiset::empty(),
{
    broadcast use group_to_multiset_ensures;
    broadcast use group_multiset_axioms;
}

/// Merges two ordered vectors into one. Of two items at the same position
/// the one from `left` comes first.
fn merge<T: Copy>(left: &Vec<(Position, T)>, right: &Vec<(Position, T)>) -> (out: Vec<
    (Position, T),
>)
    requires
        in_order(left@),
        in_order(right@),
    ensures
        in_order(out@),
        out@.to_multiset() =~= left@.to_multiset().add(right@.to_multiset()),
{
    let mut out: Vec<(Position, T)> = Vec::new();
    let mut i: usize = 0;
    let mut j: usize = 0;
    proof {
        lemma_nothing_in_empty(out@);
        lemma_nothing_in_empty(left@.take(0));
        lemma_nothing_in_empty(right@.take(0));
    }
    while i < left.len() || j < right.len()
        invariant
            i <= left.len(),
            j <= right.len(),
            in_order(left@),
            in_order(right@),
            in_order(out@),
            out@.to_multiset() =~= left@.take(i as int).to_multiset().add(
                right@.take(j as int).to_multiset(),
            ),
            forall|k: int, m: int|
                #![trigger out@[k], left@[m]]
                0 <= k < out.len() && i <= m < left.len() ==> !precedes(left@[m].0, out@[k].0),
            forall|k: int, m: int|
                #![trigger out@[k], right@[m]]
                0 <= k < out.len() && j <= m < right.len() ==> !precedes(right@[m].0, out@[k].0),
        decreases left.len() - i + (right.len() - j),
    {
        let from_left = if i == left.len() {
            false
        } else if j == right.len() {
            true
        } else {
            !(right[j].0 < left[i].0)
        };
        let ghost before = out@;
        if from_left {
            let item = left[i];
            out.push(item);
            proof {
                assert(left@.take(i + 1) =~= left@.take(i as int).push(item));
                to_multiset_build(before, item);
                to_multiset_build(left@.take(i as int), item);
                assert forall|k: int, m: int|
                    0 <= k < out.len() && j <= m < right.len() implies !precedes(
                    #[trigger] right@[m].0,
                    #[trigger] out@[k].0,
                ) by {
                    if k == before.len() {
                        lemma_not_after_is_transitive(item.0, right@[j as int].0, right@[m].0);
                    }
                }
            }
            i = i + 1;
        } else {
            let item = right[j];
            out.push(item);
            proof {
                assert(right@.take(j + 1) =~= right@.take(j as int).push(item));
                to_multiset_build(before, item);
                to_multiset_build(right@.take(j as int), item);
                assert forall|k: int, m: int|
                    0 <= k < out.len() && i <= m < left.len() implies !precedes(
                    #[trigger] left@[m].0,
                    #[trigger] out@[k].0,
                ) by {
                    if k == before.len() {
                        crate::position::precedes_is_strict(item.0, left@[i as int].0);
                        lemma_not_after_is_transitive(item.0, left@[i as int].0, left@[m].0);
                    }
                }
            }
            j = j + 1;
        }
    }
    proof {
        assert(left@.take(i as int) =~= left@);
        assert(right@.take(j as int) =~= right@);
    }
    out
}

/// Sorts the items by position. The result is ordered and holds the items
/// that were given, each as often as it was given; where no two different
/// items share a position, that leaves one result only.
pub fn sort_by_position<T: Copy>(items: Vec<(Position, T)>) -> (out: Vec<(Position, T)>)
    ensures
        in_order(out@),
        out@.to_multiset() =~= items@.to_multiset(),
        keyed(items@) ==> out@ == sorted_by_position(items@),
{
    let ghost given = items@;
    let out = merge_sort(items);
    proof {
        if keyed(given) {
            lemma_sorted_by_position(given);
            lemma_keyed_is_kept(given, sorted_by_position(given));
            lemma_order_is_unique(sorted_by_position(given), out@);
        }
    }
    out
}

/// Sorts the items by position: the two halves are sorted each by itself
/// and then merged.
fn merge_sort<T: Copy>(items: Vec<(Position, T)>) -> (out: Vec<(Position, T)>)
    ensures
        in_order(out@),
        out@.to_multiset() =~= items@.to_multiset(),
    decreases items.len(),
{
    let n = items.len();
    if n <= 1 {
        return items;
    }
    let mid = n / 2;
    let mut left: Vec<(Position, T)> = Vec::new();
    let mut right: Vec<(Position, T)> = Vec::new();
    let mut k: usize = 0;
    while k < mid
        invariant
            k <= mid <= n,
            n == items.len(),
            left@ =~= items@.subrange(0, k as int),
        decreases mid - k,
    {
        left.push(items[k]);
        k = k + 1;
    }
    while k < n
        invariant
            mid <= k <= n,
            n == items.len(),
            right@ =~= items@.subrange(mid as int, k as int),
        decreases n - k,
    {
        right.push(items[k]);
        k = k + 1;
    }
    proof {
        assert(items@ =~= left@ + right@);
        lemma_multiset_commutative(left@, right@);
    }
    let left = merge_sort(left);
    let right = merge_sort(right);
    merge(&left, &right)
}

} // verus!
