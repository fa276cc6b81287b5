//! A stable sort.

use vstd::prelude::*;

verus! {

/// A type with a strict weak order: which of two values must stand before the other.
pub trait Ranked: View + Sized {
    spec fn above(a: Self::V, b: Self::V) -> bool;

    proof fn weak_order(a: Self::V, b: Self::V, c: Self::V)
        ensures
            !Self::above(a, a),
            Self::above(a, b) && Self::above(b, c) ==> Self::above(a, c),
            !Self::above(a, b) && !Self::above(b, c) ==> !Self::above(a, c),
    ;

    fn is_above(&self, other: &Self) -> (r: bool)
        ensures
            r == Self::above(self@, other@),
    ;
}

/// The views of a list.
pub open spec fn list_view<T: View>(items: Seq<T>) -> Seq<T::V> {
    Seq::new(items.len(), |i: int| items[i]@)
}

/// `sorted` with `item` put in behind everything that it need not stand before.
pub open spec fn placed<T: Ranked>(sorted: Seq<T::V>, item: T::V) -> Seq<T::V>
    decreases sorted.len(),
{
    if sorted.len() > 0 && T::above(item, sorted.last()) {
        placed::<T>(sorted.drop_last(), item).push(sorted.last())
    } else {
        sorted.push(item)
    }
}

/// `items` sorted, items of equal rank in their original order.
pub open spec fn stably_sorted<T: Ranked>(items: Seq<T::V>) -> Seq<T::V>
    decreases items.len(),
{
    if items.len() == 0 {
        items
    } else {
        placed::<T>(stably_sorted::<T>(items.drop_last()), items.last())
    }
}

/// Whether no item must stand before an earlier one.
pub open spec fn in_order<T: Ranked>(items: Seq<T::V>) -> bool {
    forall|i: int, j: int|
        0 <= i < j < items.len() ==> !T::above(#[trigger] items[j], #[trigger] items[i])
}

proof fn lemma_placed<T: Ranked>(sorted: Seq<T::V>, item: T::V)
    requires
        in_order::<T>(sorted),
    ensures
        in_order::<T>(placed::<T>(sorted, item)),
        placed::<T>(sorted, item).to_multiset() == sorted.to_multiset().insert(item),
        placed::<T>(sorted, item).len() == sorted.len() + 1,
    decreases sorted.len(),
{
    broadcast use vstd::seq_lib::group_to_multiset_ensures;

    let out = placed::<T>(sorted, item);
    if sorted.len() > 0 && T::above(item, sorted.last()) {
        let front = sorted.drop_last();
        assert(in_order::<T>(front)) by {
            assert forall|i: int, j: int| 0 <= i < j < front.len() implies !T::above(
                #[trigger] front[j],
                #[trigger] front[i],
            ) by {
                assert(front[i] == sorted[i] && front[j] == sorted[j]);
            }
        }
        lemma_placed::<T>(front, item);
        let head = placed::<T>(front, item);
        assert(sorted =~= front.push(sorted.last()));
        assert(out.to_multiset() =~= sorted.to_multiset().insert(item));
        assert forall|i: int, j: int| 0 <= i < j < out.len() implies !T::above(
            #[trigger] out[j],
            #[trigger] out[i],
        ) by {
            if j < head.len() {
                assert(out[i] == head[i] && out[j] == head[j]);
            } else {
                let x = head[i];
                assert(head.to_multiset().contains(x)) by {
                    assert(head.contains(x));
                }
                T::weak_order(item, sorted.last(), item);
                if x != item {
                    assert(front.to_multiset().contains(x));
                    assert(front.contains(x));
                    let k = front.index_of(x);
                    assert(sorted[k] == x);
                }
            }
        }
    } else {
        assert forall|i: int, j: int| 0 <= i < j < out.len() implies !T::above(
            #[trigger] out[j],
            #[trigger] out[i],
        ) by {
            if j < sorted.len() {
                assert(out[i] == sorted[i] && out[j] == sorted[j]);
            } else if i < sorted.len() - 1 {
                assert(!T::above(sorted[sorted.len() - 1], sorted[i]));
                T::weak_order(item, sorted.last(), sorted[i]);
            }
        }
    }
}

/// A sorted list is in order and holds the items of the list it came from.
pub proof fn law_sorted_in_order<T: Ranked>(items: Seq<T::V>)
    ensures
        in_order::<T>(stably_sorted::<T>(items)),
        stably_sorted::<T>(items).to_multiset() == items.to_multiset(),
        stably_sorted::<T>(items).len() == items.len(),
    decreases items.len(),
{
    broadcast use vstd::seq_lib::group_to_multiset_ensures;

    if items.len() > 0 {
        law_sorted_in_order::<T>(items.drop_last());
        lemma_placed::<T>(stably_sorted::<T>(items.drop_last()), items.last());
        assert(items =~= items.drop_last().push(items.last()));
    }
}

/// Adds `item` to a sorted list.
pub fn place<T: Ranked>(sorted: &mut Vec<T>, item: T)
    ensures
        list_view(final(sorted)@) == placed::<T>(list_view(old(sorted)@), item@),
{
    let ghost before = list_view(sorted@);
    let ghost x = item@;
    let mut at: usize = sorted.len();
    assert(before.take(at as int) =~= before);
    assert(before.skip(at as int) =~= Seq::<T::V>::empty());
    assert(placed::<T>(before, x) =~= placed::<T>(before.take(at as int), x) + before.skip(
        at as int,
    ));
    while at > 0 && item.is_above(&sorted[at - 1])
        invariant
            at <= sorted@.len(),
            before == list_view(sorted@),
            x == item@,
            placed::<T>(before, x) == placed::<T>(before.take(at as int), x) + before.skip(
                at as int,
            ),
        decreases at,
    {
        proof {
            let head = before.take(at as int);
            assert(head.last() == before[at - 1]);
            assert(head.drop_last() =~= before.take(at - 1));
            assert(before.skip(at - 1) =~= seq![before[at - 1]] + before.skip(at as int));
            assert(placed::<T>(head.drop_last(), x).push(head.last()) + before.skip(at as int)
                =~= placed::<T>(head.drop_last(), x) + before.skip(at - 1));
        }
        at = at - 1;
    }
    sorted.insert(at, item);
    assert(at > 0 ==> before.take(at as int).last() == before[at - 1]);
    assert(list_view(sorted@) =~= before.take(at as int).push(x) + before.skip(at as int));
}

} // verus!
