//! Sums of a weight over the items of a sequence, and how they change when the
//! sequence does.

use vstd::prelude::*;

verus! {

/// The sum of `weight(x)` over every item `x` of `items`.
pub open spec fn weighted_sum<T>(items: Seq<T>, weight: spec_fn(T) -> int) -> int
    decreases items.len(),
{
    if items.len() == 0 {
        0
    } else {
        weighted_sum(items.drop_last(), weight) + weight(items.last())
    }
}

/// Appending an item adds its weight.
pub proof fn lemma_sum_push<T>(items: Seq<T>, weight: spec_fn(T) -> int, item: T)
    ensures
        weighted_sum(items.push(item), weight) == weighted_sum(items, weight) + weight(item),
{
    assert(items.push(item).drop_last() =~= items);
}

/// A sum of weights that are never negative is not negative.
pub proof fn lemma_sum_nonnegative<T>(items: Seq<T>, weight: spec_fn(T) -> int)
    requires
        forall|x: T| #[trigger] weight(x) >= 0,
    ensures
        weighted_sum(items, weight) >= 0,
    decreases items.len(),
{
    if items.len() > 0 {
        lemma_sum_nonnegative(items.drop_last(), weight);
    }
}

/// Items that all weigh nothing sum to nothing.
pub proof fn lemma_sum_of_nothing<T>(items: Seq<T>, weight: spec_fn(T) -> int)
    requires
        forall|i: int| 0 <= i < items.len() ==> weight(#[trigger] items[i]) == 0,
    ensures
        weighted_sum(items, weight) == 0,
    decreases items.len(),
{
    if items.len() > 0 {
        assert forall|i: int| 0 <= i < items.drop_last().len() implies weight(
            #[trigger] items.drop_last()[i],
        ) == 0 by {
            assert(items.drop_last()[i] == items[i]);
        }
        lemma_sum_of_nothing(items.drop_last(), weight);
        assert(items.last() == items[items.len() - 1]);
    }
}

/// Each item's weight is at most the whole sum, when no weight is negative.
pub proof fn lemma_sum_bounds_item<T>(items: Seq<T>, weight: spec_fn(T) -> int, i: int)
    requires
        forall|x: T| #[trigger] weight(x) >= 0,
        0 <= i < items.len(),
    ensures
        weight(items[i]) <= weighted_sum(items, weight),
    decreases items.len(),
{
    lemma_sum_nonnegative(items.drop_last(), weight);
    if i < items.len() - 1 {
        lemma_sum_bounds_item(items.drop_last(), weight, i);
    }
}

/// Taking an item out takes its weight out.
pub proof fn lemma_sum_remove<T>(items: Seq<T>, weight: spec_fn(T) -> int, i: int)
    requires
        0 <= i < items.len(),
    ensures
        weighted_sum(items.remove(i), weight) == weighted_sum(items, weight) - weight(items[i]),
    decreases items.len(),
{
    if i == items.len() - 1 {
        assert(items.remove(i) =~= items.drop_last());
    } else {
        lemma_sum_remove(items.drop_last(), weight, i);
        assert(items.remove(i).drop_last() =~= items.drop_last().remove(i));
        assert(items.remove(i).last() == items.last());
    }
}

/// Replacing an item swaps its weight for the new one.
pub proof fn lemma_sum_update<T>(items: Seq<T>, weight: spec_fn(T) -> int, i: int, item: T)
    requires
        0 <= i < items.len(),
    ensures
        weighted_sum(items.update(i, item), weight) == weighted_sum(items, weight) - weight(
            items[i],
        ) + weight(item),
    decreases items.len(),
{
    if i == items.len() - 1 {
        assert(items.update(i, item).drop_last() =~= items.drop_last());
    } else {
        lemma_sum_update(items.drop_last(), weight, i, item);
        assert(items.update(i, item).drop_last() =~= items.drop_last().update(i, item));
    }
}

/// Putting an item in at any place adds its weight.
pub proof fn lemma_sum_insert<T>(items: Seq<T>, weight: spec_fn(T) -> int, i: int, item: T)
    requires
        0 <= i <= items.len(),
    ensures
        weighted_sum(items.insert(i, item), weight) == weighted_sum(items, weight) + weight(item),
{
    lemma_sum_remove(items.insert(i, item), weight, i);
    assert(items.insert(i, item).remove(i) =~= items);
}

/// Weights that agree on every item of the sequence give the same sum.
pub proof fn lemma_sum_same_weights<T>(
    items: Seq<T>,
    first: spec_fn(T) -> int,
    second: spec_fn(T) -> int,
)
    requires
        forall|i: int| 0 <= i < items.len() ==> first(#[trigger] items[i]) == second(items[i]),
    ensures
        weighted_sum(items, first) == weighted_sum(items, second),
    decreases items.len(),
{
    if items.len() > 0 {
        assert forall|i: int| 0 <= i < items.drop_last().len() implies first(
            #[trigger] items.drop_last()[i],
        ) == second(items.drop_last()[i]) by {
            assert(items.drop_last()[i] == items[i]);
        }
        lemma_sum_same_weights(items.drop_last(), first, second);
        assert(items.last() == items[items.len() - 1]);
    }
}

/// A weight that is the sum of two others gives the sum of their sums.
pub proof fn lemma_sum_of_sums<T>(
    items: Seq<T>,
    whole: spec_fn(T) -> int,
    first: spec_fn(T) -> int,
    second: spec_fn(T) -> int,
)
    requires
        forall|x: T| #[trigger] whole(x) == first(x) + second(x),
    ensures
        weighted_sum(items, whole) == weighted_sum(items, first) + weighted_sum(items, second),
    decreases items.len(),
{
    if items.len() > 0 {
        lemma_sum_of_sums(items.drop_last(), whole, first, second);
    }
}

/// A longer prefix of the sequence sums to at least as much, when no weight is
/// negative.
pub proof fn lemma_sum_prefix_grows<T>(
    items: Seq<T>,
    weight: spec_fn(T) -> int,
    shorter: int,
    longer: int,
)
    requires
        forall|x: T| #[trigger] weight(x) >= 0,
        0 <= shorter <= longer <= items.len(),
    ensures
        weighted_sum(items.take(shorter), weight) <= weighted_sum(items.take(longer), weight),
    decreases longer - shorter,
{
    if shorter < longer {
        lemma_sum_prefix_grows(items, weight, shorter, longer - 1);
        assert(items.take(longer).drop_last() =~= items.take(longer - 1));
    }
}

} // verus!
