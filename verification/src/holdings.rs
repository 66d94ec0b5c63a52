//! Lists of what a player holds: territories or continents by their index.
//! A list holds no index twice, and keeps the order in which the indices came.
use vstd::prelude::*;

verus! {

/// Whether no value occurs twice in `items`.
pub open spec fn distinct(items: Seq<usize>) -> bool {
    forall|i: int, j: int| 0 <= i < j < items.len() ==> items[i] != items[j]
}

/// `items` without every occurrence of `item`, the others in their order.
pub open spec fn without(items: Seq<usize>, item: usize) -> Seq<usize> {
    items.filter(|other: usize| other != item)
}

/// `items` with `item` at the end, unless it is there already.
pub open spec fn with(items: Seq<usize>, item: usize) -> Seq<usize> {
    if items.contains(item) {
        items
    } else {
        items.push(item)
    }
}

/// Removing `item` from a list that grew by `last` keeps `last` unless it is `item`.
pub proof fn lemma_without_push(items: Seq<usize>, last: usize, item: usize)
    ensures
        without(items.push(last), item) == if last != item {
            without(items, item).push(last)
        } else {
            without(items, item)
        },
{
    reveal(Seq::filter);
    assert(items.push(last).drop_last() == items);
}

/// What `without` keeps: the values of the list other than `item`, and as few
/// of each as before.
pub proof fn lemma_without_keeps(items: Seq<usize>, item: usize)
    ensures
        forall|other: usize| #[trigger]
            without(items, item).contains(other) <==> items.contains(other) && other != item,
        distinct(items) ==> distinct(without(items, item)),
        without(items, item).len() <= items.len(),
        !items.contains(item) ==> without(items, item) == items,
    decreases items.len(),
{
    reveal(Seq::filter);
    if items.len() > 0 {
        let rest = items.drop_last();
        let last = items.last();
        lemma_without_keeps(rest, item);
        assert(items == rest.push(last));
        lemma_without_push(rest, last, item);
        let kept = without(rest, item);
        assert forall|other: usize| #[trigger]
            without(items, item).contains(other) <==> items.contains(other) && other
                != item by {
            if items.contains(other) {
                let i = choose|i: int| 0 <= i < items.len() && items[i] == other;
                if i < rest.len() {
                    assert(rest[i] == other);
                }
            }
            if rest.contains(other) {
                let i = choose|i: int| 0 <= i < rest.len() && rest[i] == other;
                assert(items[i] == other);
            }
            if last != item {
                assert(kept.push(last)[kept.len() as int] == last);
                if kept.contains(other) {
                    let i = choose|i: int| 0 <= i < kept.len() && kept[i] == other;
                    assert(kept.push(last)[i] == other);
                }
            }
        }
        if distinct(items) {
            assert forall|i: int, j: int| 0 <= i < j < rest.len() implies rest[i] != rest[j] by {
                assert(items[i] != items[j]);
            }
            if last != item {
                assert(!rest.contains(last)) by {
                    if rest.contains(last) {
                        let i = choose|i: int| 0 <= i < rest.len() && rest[i] == last;
                        assert(items[i] != items[items.len() - 1]);
                    }
                }
                assert(!kept.contains(last));
            }
        }
        if !items.contains(item) {
            assert(last != item) by {
                assert(items[items.len() - 1] == last);
            }
            assert(!rest.contains(item)) by {
                if rest.contains(item) {
                    let i = choose|i: int| 0 <= i < rest.len() && rest[i] == item;
                    assert(items[i] == item);
                }
            }
        }
    }
}

/// What `with` holds: the values of the list and `item`, none twice if none
/// was there twice.
pub proof fn lemma_with_holds(items: Seq<usize>, item: usize)
    ensures
        forall|other: usize| #[trigger]
            with(items, item).contains(other) <==> items.contains(other) || other == item,
        distinct(items) ==> distinct(with(items, item)),
{
    if !items.contains(item) {
        let grown = items.push(item);
        assert(grown[items.len() as int] == item);
        assert forall|other: usize|
            #[trigger] grown.contains(other) <==> items.contains(other) || other == item by {
            if items.contains(other) {
                let i = choose|i: int| 0 <= i < items.len() && items[i] == other;
                assert(grown[i] == other);
            }
        }
    }
}

/// Adding what was just added changes nothing.
pub proof fn lemma_with_twice(items: Seq<usize>, item: usize)
    ensures
        with(with(items, item), item) == with(items, item),
{
    lemma_with_holds(items, item);
}

/// Whether `item` occurs in `items`.
pub fn holds(items: &Vec<usize>, item: usize) -> (found: bool)
    ensures
        found == items@.contains(item),
{
    let mut i: usize = 0;
    while i < items.len()
        invariant
            i <= items@.len(),
            forall|j: int| 0 <= j < i ==> items@[j] != item,
        decreases items@.len() - i,
    {
        if items[i] == item {
            return true;
        }
        i += 1;
    }
    false
}

/// Removes every occurrence of `item`, keeping the order of the others.
pub fn discard(items: &mut Vec<usize>, item: usize)
    ensures
        final(items)@ == without(old(items)@, item),
{
    let mut kept: Vec<usize> = Vec::new();
    let mut i: usize = 0;
    while i < items.len()
        invariant
            i <= items@.len(),
            items@ == old(items)@,
            kept@ == without(items@.take(i as int), item),
        decreases items@.len() - i,
    {
        proof {
            let seen = items@.take(i as int);
            assert(items@.take(i + 1) == seen.push(items@[i as int]));
            lemma_without_push(seen, items@[i as int], item);
        }
        if items[i] != item {
            kept.push(items[i]);
        }
        i += 1;
    }
    assert(items@.take(items@.len() as int) == items@);
    *items = kept;
}

} // verus!
