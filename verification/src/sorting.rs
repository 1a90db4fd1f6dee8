//! Stable sorting.
use vstd::prelude::*;

verus! {

/// `sorted` with `item` in its place: behind everything that it does not come before.
pub open spec fn placed<T>(sorted: Seq<T>, item: T, less: spec_fn(T, T) -> bool) -> Seq<T>
    decreases sorted.len(),
{
    if sorted.len() > 0 && less(item, sorted.last()) {
        placed(sorted.drop_last(), item, less).push(sorted.last())
    } else {
        sorted.push(item)
    }
}

/// `items` in order. Items of which neither comes before the other stay in the
/// order that they had.
pub open spec fn sorted_by<T>(items: Seq<T>, less: spec_fn(T, T) -> bool) -> Seq<T>
    decreases items.len(),
{
    if items.len() == 0 {
        seq![]
    } else {
        placed(sorted_by(items.drop_last(), less), items.last(), less)
    }
}

/// An item that comes before everything from `at` on, and not before what
/// stands in front of it, is placed at `at`.
proof fn lemma_placed_at<T>(sorted: Seq<T>, item: T, less: spec_fn(T, T) -> bool, at: int)
    requires
        0 <= at <= sorted.len(),
        forall|i: int| at <= i < sorted.len() ==> less(item, #[trigger] sorted[i]),
        at > 0 ==> !less(item, sorted[at - 1]),
    ensures
        placed(sorted, item, less) == sorted.insert(at, item),
    decreases sorted.len(),
{
    if at == sorted.len() {
        assert(placed(sorted, item, less) =~= sorted.insert(at, item));
    } else {
        let rest = sorted.drop_last();
        assert(less(item, sorted[sorted.len() - 1]));
        assert forall|i: int| at <= i < rest.len() implies less(item, #[trigger] rest[i]) by {
            assert(rest[i] == sorted[i]);
        }
        lemma_placed_at(rest, item, less, at);
        assert(placed(sorted, item, less) =~= sorted.insert(at, item));
    }
}

/// Sorts `items`, by the order that `before` tells.
pub(crate) fn sort_by<T, F: Fn(&T, &T) -> bool>(
    items: Vec<T>,
    before: F,
    Ghost(less): Ghost<spec_fn(T, T) -> bool>,
) -> (r: Vec<T>)
    requires
        forall|a: &T, b: &T| #[trigger] before.requires((a, b)),
        forall|a: &T, b: &T, r: bool| #[trigger] before.ensures((a, b), r) ==> r == less(*a, *b),
    ensures
        r@ == sorted_by(items@, less),
{
    let ghost all = items@;
    let mut out: Vec<T> = Vec::new();
    assert(all.take(0) =~= seq![]);
    for item in it: items
        invariant
            it.seq() == all,
            forall|a: &T, b: &T| #[trigger] before.requires((a, b)),
            forall|a: &T, b: &T, r: bool| #[trigger]
                before.ensures((a, b), r) ==> r == less(*a, *b),
            out@ == sorted_by(all.take(it.index()), less),
    {
        let ghost k = it.index();
        proof {
            assert(all.take(k + 1).drop_last() =~= all.take(k));
            assert(all.take(k + 1).last() == all[k]);
            assert(item == all[k]);
        }
        let mut at: usize = out.len();
        while at > 0 && before(&item, &out[at - 1])
            invariant
                at <= out@.len(),
                forall|a: &T, b: &T| #[trigger] before.requires((a, b)),
                forall|a: &T, b: &T, r: bool| #[trigger]
                    before.ensures((a, b), r) ==> r == less(*a, *b),
                forall|i: int| at <= i < out@.len() ==> less(item, #[trigger] out@[i]),
            decreases at,
        {
            at -= 1;
        }
        proof {
            lemma_placed_at(out@, item, less, at as int);
        }
        out.insert(at, item);
    }
    assert(all.take(all.len() as int) =~= all);
    out
}

/// Placing an item adds it and nothing else.
proof fn lemma_placed_multiset<T>(sorted: Seq<T>, item: T, less: spec_fn(T, T) -> bool)
    ensures
        placed(sorted, item, less).to_multiset() == sorted.to_multiset().insert(item),
        placed(sorted, item, less).len() == sorted.len() + 1,
    decreases sorted.len(),
{
    broadcast use vstd::seq_lib::group_to_multiset_ensures;

    if sorted.len() > 0 && less(item, sorted.last()) {
        lemma_placed_multiset(sorted.drop_last(), item, less);
        assert(sorted =~= sorted.drop_last().push(sorted.last()));
        assert(placed(sorted, item, less).to_multiset() =~= sorted.to_multiset().insert(item));
    }
}

/// Sorting neither loses nor adds an item.
pub proof fn law_sorting_keeps_items<T>(items: Seq<T>, less: spec_fn(T, T) -> bool)
    ensures
        sorted_by(items, less).to_multiset() == items.to_multiset(),
        sorted_by(items, less).len() == items.len(),
    decreases items.len(),
{
    broadcast use vstd::seq_lib::group_to_multiset_ensures;

    if items.len() > 0 {
        law_sorting_keeps_items(items.drop_last(), less);
        lemma_placed_multiset(sorted_by(items.drop_last(), less), items.last(), less);
        assert(items =~= items.drop_last().push(items.last()));
    }
}

/// What is placed among items is one of them or the new one.
proof fn lemma_placed_elements<T>(sorted: Seq<T>, item: T, less: spec_fn(T, T) -> bool)
    ensures
        forall|i: int|
            0 <= i < placed(sorted, item, less).len() ==> (#[trigger] placed(sorted, item, less)[i]
                == item || sorted.contains(placed(sorted, item, less)[i])),
    decreases sorted.len(),
{
    let shown = placed(sorted, item, less);
    if sorted.len() > 0 && less(item, sorted.last()) {
        let rest = sorted.drop_last();
        lemma_placed_elements(rest, item, less);
        let front = placed(rest, item, less);
        assert forall|i: int| 0 <= i < shown.len() implies (#[trigger] shown[i] == item
            || sorted.contains(shown[i])) by {
            if i < front.len() {
                assert(shown[i] == front[i]);
                if front[i] != item {
                    let k = choose|k: int| 0 <= k < rest.len() && rest[k] == front[i];
                    assert(sorted[k] == shown[i]);
                }
            } else {
                assert(sorted[sorted.len() - 1] == shown[i]);
            }
        }
    } else {
        assert forall|i: int| 0 <= i < shown.len() implies (#[trigger] shown[i] == item
            || sorted.contains(shown[i])) by {
            if i < sorted.len() {
                assert(sorted[i] == shown[i]);
            }
        }
    }
}

/// What stands among sorted items is one of them.
pub proof fn lemma_sorted_elements<T>(items: Seq<T>, less: spec_fn(T, T) -> bool)
    ensures
        forall|i: int|
            0 <= i < sorted_by(items, less).len() ==> items.contains(
                #[trigger] sorted_by(items, less)[i],
            ),
    decreases items.len(),
{
    if items.len() > 0 {
        let rest = items.drop_last();
        lemma_sorted_elements(rest, less);
        lemma_placed_elements(sorted_by(rest, less), items.last(), less);
        let shown = sorted_by(items, less);
        let front = sorted_by(rest, less);
        assert forall|i: int| 0 <= i < shown.len() implies items.contains(#[trigger] shown[i]) by {
            if shown[i] == items.last() {
                assert(items[items.len() - 1] == shown[i]);
            } else {
                let k = choose|k: int| 0 <= k < front.len() && front[k] == shown[i];
                assert(rest.contains(front[k]));
                let j = choose|j: int| 0 <= j < rest.len() && rest[j] == front[k];
                assert(items[j] == shown[i]);
            }
        }
    }
}

/// Whether nothing stands behind an item that it comes before.
pub open spec fn in_order<T>(items: Seq<T>, less: spec_fn(T, T) -> bool) -> bool {
    forall|i: int, j: int|
        0 <= i < j < items.len() ==> !less(#[trigger] items[j], #[trigger] items[i])
}

/// Placing an item keeps the order.
proof fn lemma_placed_in_order<T>(sorted: Seq<T>, item: T, less: spec_fn(T, T) -> bool)
    requires
        in_order(sorted, less),
        forall|a: T, b: T| #[trigger] less(a, b) ==> !less(b, a),
        forall|a: T, b: T, c: T|
            #[trigger] less(a, c) ==> (#[trigger] less(a, b) || less(b, c)),
    ensures
        in_order(placed(sorted, item, less), less),
        forall|i: int|
            0 <= i < placed(sorted, item, less).len() ==> (#[trigger] placed(
                sorted,
                item,
                less,
            )[i] == item || sorted.contains(placed(sorted, item, less)[i])),
    decreases sorted.len(),
{
    let shown = placed(sorted, item, less);
    if sorted.len() > 0 && less(item, sorted.last()) {
        let rest = sorted.drop_last();
        lemma_placed_in_order(rest, item, less);
        let front = placed(rest, item, less);
        assert forall|i: int| 0 <= i < shown.len() implies (#[trigger] shown[i] == item
            || sorted.contains(shown[i])) by {
            if i < front.len() {
                assert(shown[i] == front[i]);
                if front[i] != item {
                    let k = choose|k: int| 0 <= k < rest.len() && rest[k] == front[i];
                    assert(sorted[k] == shown[i]);
                }
            } else {
                assert(sorted[sorted.len() - 1] == shown[i]);
            }
        }
        assert forall|i: int, j: int| 0 <= i < j < shown.len() implies !less(
            #[trigger] shown[j],
            #[trigger] shown[i],
        ) by {
            if j < front.len() {
                assert(shown[i] == front[i] && shown[j] == front[j]);
            } else {
                assert(shown[j] == sorted.last());
                assert(shown[i] == front[i]);
                if front[i] == item {
                    assert(less(item, sorted.last()));
                } else {
                    let k = choose|k: int| 0 <= k < rest.len() && rest[k] == front[i];
                    assert(sorted[k] == front[i]);
                    assert(!less(sorted[sorted.len() - 1], sorted[k]));
                }
            }
        }
    } else {
        assert forall|i: int, j: int| 0 <= i < j < shown.len() implies !less(
            #[trigger] shown[j],
            #[trigger] shown[i],
        ) by {
            if j < sorted.len() {
                assert(shown[i] == sorted[i] && shown[j] == sorted[j]);
            } else {
                assert(shown[i] == sorted[i]);
                assert(!less(item, sorted.last()));
                if less(item, sorted[i]) {
                    if i < sorted.len() - 1 {
                        assert(!less(sorted[sorted.len() - 1], sorted[i]));
                        assert(less(item, sorted.last()) || less(sorted.last(), sorted[i]));
                    }
                }
            }
        }
        assert forall|i: int| 0 <= i < shown.len() implies (#[trigger] shown[i] == item
            || sorted.contains(shown[i])) by {
            if i < sorted.len() {
                assert(sorted[i] == shown[i]);
            }
        }
    }
}

/// Sorting by an order puts the items in that order.
pub proof fn law_sorting_orders_items<T>(items: Seq<T>, less: spec_fn(T, T) -> bool)
    requires
        forall|a: T, b: T| #[trigger] less(a, b) ==> !less(b, a),
        forall|a: T, b: T, c: T|
            #[trigger] less(a, c) ==> (#[trigger] less(a, b) || less(b, c)),
    ensures
        in_order(sorted_by(items, less), less),
    decreases items.len(),
{
    if items.len() > 0 {
        law_sorting_orders_items(items.drop_last(), less);
        lemma_placed_in_order(sorted_by(items.drop_last(), less), items.last(), less);
    }
}

} // verus!
