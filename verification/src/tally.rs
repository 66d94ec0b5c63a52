//! Sums over sequences, the arithmetic that the ownership ledger and the army
//! accounts are stated in.
use vstd::prelude::*;

verus! {

/// The sum of `weight` over the elements of `items`.
pub open spec fn sum_by<T>(items: Seq<T>, weight: spec_fn(T) -> int) -> int
    decreases items.len(),
{
    if items.len() == 0 {
        0
    } else {
        sum_by(items.drop_last(), weight) + weight(items.last())
    }
}

/// The sum of a sequence of counters.
pub open spec fn total(counters: Seq<u32>) -> int {
    sum_by(counters, |c: u32| c as int)
}

/// Replacing one element changes the sum by the difference of the two weights.
pub proof fn lemma_sum_by_update<T>(items: Seq<T>, weight: spec_fn(T) -> int, at: int, item: T)
    requires
        0 <= at < items.len(),
    ensures
        sum_by(items.update(at, item), weight) == sum_by(items, weight) - weight(items[at])
            + weight(item),
    decreases items.len(),
{
    let changed = items.update(at, item);
    if at == items.len() - 1 {
        assert(changed.drop_last() == items.drop_last());
    } else {
        assert(changed.drop_last() == items.drop_last().update(at, item));
        lemma_sum_by_update(items.drop_last(), weight, at, item);
    }
}

/// Appending an element adds its weight to the sum.
pub proof fn lemma_sum_by_push<T>(items: Seq<T>, weight: spec_fn(T) -> int, item: T)
    ensures
        sum_by(items.push(item), weight) == sum_by(items, weight) + weight(item),
{
    assert(items.push(item).drop_last() == items);
}

/// Where each weight on the left is at most the weight at the same place on
/// the right, the sum on the left is at most the sum on the right.
pub proof fn lemma_sum_by_le<T, U>(
    left: Seq<T>,
    small: spec_fn(T) -> int,
    right: Seq<U>,
    large: spec_fn(U) -> int,
)
    requires
        left.len() == right.len(),
        forall|i: int| 0 <= i < left.len() ==> small(#[trigger] left[i]) <= large(right[i]),
    ensures
        sum_by(left, small) <= sum_by(right, large),
    decreases left.len(),
{
    if left.len() > 0 {
        let l = left.drop_last();
        let r = right.drop_last();
        assert forall|i: int| 0 <= i < l.len() implies small(#[trigger] l[i]) <= large(r[i]) by {
            assert(l[i] == left[i]);
            assert(r[i] == right[i]);
        }
        lemma_sum_by_le(l, small, r, large);
        assert(left.last() == left[left.len() - 1]);
        assert(right.last() == right[right.len() - 1]);
    }
}

/// Where the weights agree place by place, the sums agree.
pub proof fn lemma_sum_by_eq<T, U>(
    left: Seq<T>,
    one: spec_fn(T) -> int,
    right: Seq<U>,
    other: spec_fn(U) -> int,
)
    requires
        left.len() == right.len(),
        forall|i: int| 0 <= i < left.len() ==> one(#[trigger] left[i]) == other(right[i]),
    ensures
        sum_by(left, one) == sum_by(right, other),
    decreases left.len(),
{
    if left.len() > 0 {
        let l = left.drop_last();
        let r = right.drop_last();
        assert forall|i: int| 0 <= i < l.len() implies one(#[trigger] l[i]) == other(r[i]) by {
            assert(l[i] == left[i]);
            assert(r[i] == right[i]);
        }
        lemma_sum_by_eq(l, one, r, other);
        assert(left.last() == left[left.len() - 1]);
        assert(right.last() == right[right.len() - 1]);
    }
}

/// Weights that are zero everywhere sum to zero.
pub proof fn lemma_sum_by_zero<T>(items: Seq<T>, weight: spec_fn(T) -> int)
    requires
        forall|i: int| 0 <= i < items.len() ==> weight(#[trigger] items[i]) == 0,
    ensures
        sum_by(items, weight) == 0,
    decreases items.len(),
{
    if items.len() > 0 {
        let rest = items.drop_last();
        assert forall|i: int| 0 <= i < rest.len() implies weight(#[trigger] rest[i]) == 0 by {
            assert(rest[i] == items[i]);
        }
        lemma_sum_by_zero(rest, weight);
        assert(items.last() == items[items.len() - 1]);
    }
}

/// A sum of weights that are never negative is not negative, and no single
/// weight exceeds it.
pub proof fn lemma_sum_by_bounds<T>(items: Seq<T>, weight: spec_fn(T) -> int, at: int)
    requires
        forall|i: int| 0 <= i < items.len() ==> 0 <= weight(#[trigger] items[i]),
        0 <= at < items.len(),
    ensures
        0 <= weight(items[at]) <= sum_by(items, weight),
    decreases items.len(),
{
    let rest = items.drop_last();
    assert forall|i: int| 0 <= i < rest.len() implies 0 <= weight(#[trigger] rest[i]) by {
        assert(rest[i] == items[i]);
    }
    lemma_sum_by_nonnegative(rest, weight);
    if at < items.len() - 1 {
        lemma_sum_by_bounds(rest, weight, at);
        assert(rest[at] == items[at]);
    }
}

/// A sum of weights that are never negative is not negative.
pub proof fn lemma_sum_by_nonnegative<T>(items: Seq<T>, weight: spec_fn(T) -> int)
    requires
        forall|i: int| 0 <= i < items.len() ==> 0 <= weight(#[trigger] items[i]),
    ensures
        0 <= sum_by(items, weight),
    decreases items.len(),
{
    if items.len() > 0 {
        let rest = items.drop_last();
        assert forall|i: int| 0 <= i < rest.len() implies 0 <= weight(#[trigger] rest[i]) by {
            assert(rest[i] == items[i]);
        }
        lemma_sum_by_nonnegative(rest, weight);
    }
}

/// The sum of two weights is the sum of the sums of each.
pub proof fn lemma_sum_by_add<T>(items: Seq<T>, one: spec_fn(T) -> int, other: spec_fn(T) -> int)
    ensures
        sum_by(items, |item: T| one(item) + other(item)) == sum_by(items, one) + sum_by(
            items,
            other,
        ),
    decreases items.len(),
{
    if items.len() > 0 {
        lemma_sum_by_add(items.drop_last(), one, other);
    }
}

/// The numbers from zero up to but not including `count`, in their order.
pub open spec fn numbers(count: nat) -> Seq<usize> {
    Seq::new(count, |i: int| i as usize)
}

/// Counts the number `wanted`.
pub open spec fn is_number(wanted: usize) -> spec_fn(usize) -> int {
    |number: usize|
        if number == wanted {
            1int
        } else {
            0int
        }
}

/// Among the numbers below `count`, `wanted` occurs once if it is below
/// `count`, and not at all if it is not.
pub proof fn lemma_number_occurs_once(count: nat, wanted: usize)
    requires
        count <= usize::MAX,
    ensures
        sum_by(numbers(count), is_number(wanted)) == if wanted < count {
            1int
        } else {
            0int
        },
    decreases count,
{
    if count > 0 {
        let fewer = (count - 1) as nat;
        assert(numbers(count).drop_last() == numbers(fewer));
        assert(numbers(count).last() == fewer as usize);
        lemma_number_occurs_once(fewer, wanted);
    }
}

/// Weights that are zero or one sum to no more than the number of elements.
pub proof fn lemma_sum_by_count<T>(items: Seq<T>, weight: spec_fn(T) -> int)
    requires
        forall|i: int| 0 <= i < items.len() ==> 0 <= weight(#[trigger] items[i]) <= 1,
    ensures
        0 <= sum_by(items, weight) <= items.len(),
    decreases items.len(),
{
    if items.len() > 0 {
        let rest = items.drop_last();
        assert forall|i: int| 0 <= i < rest.len() implies 0 <= weight(#[trigger] rest[i]) <= 1 by {
            assert(rest[i] == items[i]);
        }
        lemma_sum_by_count(rest, weight);
        assert(items.last() == items[items.len() - 1]);
    }
}

} // verus!
