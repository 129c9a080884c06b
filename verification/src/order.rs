//! Sorting by insertion under a "goes before" relation that need not be a
//! total order.

use vstd::prelude::*;

verus! {

/// `sorted` with `item` put in: `item` moves from the end toward the front
/// past every element that it goes before, and stops at the first that it
/// does not go before.
pub open spec fn insert_sorted<T>(sorted: Seq<T>, item: T, before: spec_fn(T, T) -> bool) -> Seq<
    T,
>
    decreases sorted.len(),
{
    if sorted.len() == 0 || !before(item, sorted.last()) {
        sorted.push(item)
    } else {
        insert_sorted(sorted.drop_last(), item, before).push(sorted.last())
    }
}

/// The items put in one after the other, from the first to the last.
pub open spec fn insertion_sorted<T>(items: Seq<T>, before: spec_fn(T, T) -> bool) -> Seq<T>
    decreases items.len(),
{
    if items.len() == 0 {
        items
    } else {
        insert_sorted(insertion_sorted(items.drop_last(), before), items.last(), before)
    }
}

/// Whether no element goes before the one right in front of it.
pub open spec fn neighbours_in_order<T>(items: Seq<T>, before: spec_fn(T, T) -> bool) -> bool {
    forall|k: int| 0 <= k < items.len() - 1 ==> !before(#[trigger] items[k + 1], items[k])
}

/// Whether `before` never holds both ways round.
pub open spec fn one_way<T>(before: spec_fn(T, T) -> bool) -> bool {
    forall|a: T, b: T| #[trigger] before(a, b) ==> !before(b, a)
}

/// Putting an item in places it at the position behind which it goes before
/// everything and in front of which stands an element it does not go before.
pub proof fn lemma_insert_position<T>(
    sorted: Seq<T>,
    item: T,
    before: spec_fn(T, T) -> bool,
    pos: int,
)
    requires
        0 <= pos <= sorted.len(),
        forall|k: int| pos <= k < sorted.len() ==> before(item, #[trigger] sorted[k]),
        pos > 0 ==> !before(item, sorted[pos - 1]),
    ensures
        insert_sorted(sorted, item, before) == sorted.insert(pos, item),
    decreases sorted.len(),
{
    if sorted.len() == 0 || pos == sorted.len() {
        assert(sorted.insert(pos, item) =~= sorted.push(item));
    } else {
        assert(before(item, sorted[sorted.len() - 1]));
        lemma_insert_position(sorted.drop_last(), item, before, pos);
        assert(sorted.drop_last().insert(pos, item).push(sorted.last()) =~= sorted.insert(
            pos,
            item,
        ));
    }
}

/// Putting an item in keeps the length plus one and the items.
pub proof fn lemma_insert_contents<T>(sorted: Seq<T>, item: T, before: spec_fn(T, T) -> bool)
    ensures
        insert_sorted(sorted, item, before).len() == sorted.len() + 1,
        insert_sorted(sorted, item, before).to_multiset() == sorted.to_multiset().insert(item),
        insert_sorted(sorted, item, before).last() == item || (sorted.len() > 0
            && insert_sorted(sorted, item, before).last() == sorted.last()),
    decreases sorted.len(),
{
    broadcast use vstd::seq_lib::group_to_multiset_ensures;

    if sorted.len() == 0 || !before(item, sorted.last()) {
    } else {
        lemma_insert_contents(sorted.drop_last(), item, before);
        assert(sorted.drop_last().push(sorted.last()) =~= sorted);
    }
}

/// Sorting keeps the length and the items.
pub proof fn lemma_sorted_contents<T>(items: Seq<T>, before: spec_fn(T, T) -> bool)
    ensures
        insertion_sorted(items, before).len() == items.len(),
        insertion_sorted(items, before).to_multiset() == items.to_multiset(),
    decreases items.len(),
{
    broadcast use vstd::seq_lib::group_to_multiset_ensures;

    if items.len() > 0 {
        lemma_sorted_contents(items.drop_last(), before);
        lemma_insert_contents(insertion_sorted(items.drop_last(), before), items.last(), before);
        assert(items.drop_last().push(items.last()) =~= items);
    }
}

/// Putting an item into a list whose neighbours are in order leaves the
/// neighbours in order, where `before` never holds both ways round.
pub proof fn lemma_insert_keeps_order<T>(sorted: Seq<T>, item: T, before: spec_fn(T, T) -> bool)
    requires
        one_way(before),
        neighbours_in_order(sorted, before),
    ensures
        neighbours_in_order(insert_sorted(sorted, item, before), before),
    decreases sorted.len(),
{
    let out = insert_sorted(sorted, item, before);
    if sorted.len() == 0 || !before(item, sorted.last()) {
        assert forall|k: int| 0 <= k < out.len() - 1 implies !before(
            #[trigger] out[k + 1],
            out[k],
        ) by {
            if k + 1 < sorted.len() {
                assert(!before(sorted[k + 1], sorted[k]));
            }
        }
    } else {
        let front = sorted.drop_last();
        assert forall|k: int| 0 <= k < front.len() - 1 implies !before(
            #[trigger] front[k + 1],
            front[k],
        ) by {
            assert(!before(sorted[k + 1], sorted[k]));
        }
        lemma_insert_keeps_order(front, item, before);
        lemma_insert_contents(front, item, before);
        let inner = insert_sorted(front, item, before);
        assert forall|k: int| 0 <= k < out.len() - 1 implies !before(
            #[trigger] out[k + 1],
            out[k],
        ) by {
            if k + 1 < inner.len() {
                assert(!before(inner[k + 1], inner[k]));
            } else {
                assert(out[k + 1] == sorted.last());
                assert(out[k] == inner.last());
                if inner.last() == item {
                    assert(before(item, sorted.last()));
                } else {
                    assert(inner.last() == front.last());
                    assert(!before(sorted[front.len() - 1 + 1], sorted[front.len() - 1]));
                }
            }
        }
    }
}

/// A sorted list has its neighbours in order, where `before` never holds
/// both ways round.
pub proof fn lemma_sorted_in_order<T>(items: Seq<T>, before: spec_fn(T, T) -> bool)
    requires
        one_way(before),
    ensures
        neighbours_in_order(insertion_sorted(items, before), before),
    decreases items.len(),
{
    if items.len() > 0 {
        lemma_sorted_in_order(items.drop_last(), before);
        lemma_insert_keeps_order(
            insertion_sorted(items.drop_last(), before),
            items.last(),
            before,
        );
    }
}

/// Sorting a list whose neighbours are in order changes nothing.
pub proof fn lemma_sort_of_ordered<T>(items: Seq<T>, before: spec_fn(T, T) -> bool)
    requires
        neighbours_in_order(items, before),
    ensures
        insertion_sorted(items, before) == items,
    decreases items.len(),
{
    if items.len() > 0 {
        let front = items.drop_last();
        assert forall|k: int| 0 <= k < front.len() - 1 implies !before(
            #[trigger] front[k + 1],
            front[k],
        ) by {
            assert(!before(items[k + 1], items[k]));
        }
        lemma_sort_of_ordered(front, before);
        if front.len() > 0 {
            assert(!before(items[front.len() - 1 + 1], items[front.len() - 1]));
        }
        assert(front.push(items.last()) =~= items);
    }
}

/// Sorting twice gives what sorting once gives, where `before` never holds
/// both ways round.
pub proof fn lemma_sort_idempotent<T>(items: Seq<T>, before: spec_fn(T, T) -> bool)
    requires
        one_way(before),
    ensures
        insertion_sorted(insertion_sorted(items, before), before) == insertion_sorted(
            items,
            before,
        ),
{
    lemma_sorted_in_order(items, before);
    lemma_sort_of_ordered(insertion_sorted(items, before), before);
}

} // verus!
