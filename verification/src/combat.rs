//! Combat: how the dice of an attack decide the losses of both sides.
use vstd::multiset::Multiset;
use vstd::prelude::*;
use vstd::relations::{sorted_by, total_ordering};

verus! {

/// The order in which dice are compared: the higher roll first.
pub open spec fn higher_first() -> spec_fn(u32, u32) -> bool {
    |one: u32, other: u32| one >= other
}

/// The rolls from the highest to the lowest.
pub open spec fn descending(rolls: Seq<u32>) -> Seq<u32> {
    rolls.sort_by(higher_first())
}

/// The number of pairs of dice that are compared: as many as the side with
/// fewer dice rolled.
pub open spec fn pairs(attacker_rolls: Seq<u32>, defender_rolls: Seq<u32>) -> int {
    if attacker_rolls.len() <= defender_rolls.len() {
        attacker_rolls.len() as int
    } else {
        defender_rolls.len() as int
    }
}

/// Among the first `upto` pairs of two rows of dice, the number in which the
/// die of the attacker is strictly higher.
pub open spec fn wins(attacker: Seq<u32>, defender: Seq<u32>, upto: int) -> int
    decreases upto,
{
    if upto <= 0 {
        0
    } else {
        wins(attacker, defender, upto - 1) + if attacker[upto - 1] > defender[upto - 1] {
            1int
        } else {
            0int
        }
    }
}

/// Among the first `upto` pairs of two rows of dice, the number in which the
/// die of the attacker is not higher: a tie goes to the defender.
pub open spec fn defeats(attacker: Seq<u32>, defender: Seq<u32>, upto: int) -> int
    decreases upto,
{
    if upto <= 0 {
        0
    } else {
        defeats(attacker, defender, upto - 1) + if attacker[upto - 1] > defender[upto - 1] {
            0int
        } else {
            1int
        }
    }
}

/// The armies that the attacker loses: one for each pair, highest dice
/// first, in which the die of the attacker is not higher.
pub open spec fn attacker_losses(attacker_rolls: Seq<u32>, defender_rolls: Seq<u32>) -> int {
    defeats(
        descending(attacker_rolls),
        descending(defender_rolls),
        pairs(attacker_rolls, defender_rolls),
    )
}

/// The armies that the defender loses: one for each pair, highest dice
/// first, in which the die of the attacker is strictly higher.
pub open spec fn defender_losses(attacker_rolls: Seq<u32>, defender_rolls: Seq<u32>) -> int {
    wins(
        descending(attacker_rolls),
        descending(defender_rolls),
        pairs(attacker_rolls, defender_rolls),
    )
}

/// Every pair costs exactly one of the two sides an army.
pub proof fn lemma_each_pair_costs_one(attacker: Seq<u32>, defender: Seq<u32>, upto: int)
    requires
        0 <= upto,
    ensures
        wins(attacker, defender, upto) + defeats(attacker, defender, upto) == upto,
        0 <= wins(attacker, defender, upto),
        0 <= defeats(attacker, defender, upto),
    decreases upto,
{
    if upto > 0 {
        lemma_each_pair_costs_one(attacker, defender, upto - 1);
    }
}

/// The losses of an attack add up to the number of pairs of dice compared.
pub proof fn lemma_losses_add_up(attacker_rolls: Seq<u32>, defender_rolls: Seq<u32>)
    ensures
        attacker_losses(attacker_rolls, defender_rolls) + defender_losses(
            attacker_rolls,
            defender_rolls,
        ) == pairs(attacker_rolls, defender_rolls),
        0 <= attacker_losses(attacker_rolls, defender_rolls),
        0 <= defender_losses(attacker_rolls, defender_rolls),
{
    lemma_each_pair_costs_one(
        descending(attacker_rolls),
        descending(defender_rolls),
        pairs(attacker_rolls, defender_rolls),
    );
}

/// The higher roll first is a total order of the rolls.
pub proof fn lemma_higher_first_is_total()
    ensures
        total_ordering(higher_first()),
{
    let order = higher_first();
    assert(vstd::relations::reflexive(order));
    assert(vstd::relations::antisymmetric(order));
    assert(vstd::relations::transitive(order));
    assert(vstd::relations::strongly_connected(order));
}

/// An arrangement of the rolls from the highest to the lowest is the
/// arrangement: there is only one.
pub proof fn lemma_descending_is(rolls: Seq<u32>, arranged: Seq<u32>)
    requires
        arranged.to_multiset() == rolls.to_multiset(),
        forall|i: int, j: int| 0 <= i < j < arranged.len() ==> arranged[i] >= arranged[j],
    ensures
        descending(rolls) == arranged,
{
    lemma_higher_first_is_total();
    rolls.lemma_sort_by_ensures(higher_first());
    assert(sorted_by(arranged, higher_first()));
    vstd::seq_lib::lemma_sorted_unique(arranged, descending(rolls), higher_first());
}

/// The position of a highest roll.
fn highest(rolls: &Vec<u32>) -> (at: usize)
    requires
        rolls@.len() > 0,
    ensures
        at < rolls@.len(),
        forall|i: int| 0 <= i < rolls@.len() ==> rolls@[i] <= rolls@[at as int],
{
    let mut at: usize = 0;
    let mut i: usize = 1;
    while i < rolls.len()
        invariant
            at < i <= rolls@.len(),
            forall|j: int| 0 <= j < i ==> rolls@[j] <= rolls@[at as int],
        decreases rolls@.len() - i,
    {
        if rolls[i] > rolls[at] {
            at = i;
        }
        i += 1;
    }
    at
}

/// Orders rolls from the highest to the lowest.
pub fn sort_descending(rolls: &Vec<u32>) -> (sorted: Vec<u32>)
    ensures
        sorted@ == descending(rolls@),
        sorted@.len() == rolls@.len(),
{
    let ghost given = rolls@;
    let mut left: Vec<u32> = rolls.clone();
    assert(left@ =~= given);
    let mut sorted: Vec<u32> = Vec::new();
    proof {
        broadcast use vstd::seq_lib::group_to_multiset_ensures;
        broadcast use vstd::multiset::group_multiset_axioms;

        assert(sorted@.to_multiset() =~= Multiset::<u32>::empty());
        assert(sorted@.to_multiset().add(left@.to_multiset()) =~= given.to_multiset());
    }
    while left.len() > 0
        invariant
            sorted@.to_multiset().add(left@.to_multiset()) == given.to_multiset(),
            sorted_by(sorted@, higher_first()),
            forall|i: int, j: int|
                0 <= i < sorted@.len() && 0 <= j < left@.len() ==> sorted@[i] >= left@[j],
            sorted@.len() + left@.len() == given.len(),
        decreases left@.len(),
    {
        let at: usize = highest(&left);
        let ghost before = left@;
        let ghost sorted_before = sorted@;
        let roll: u32 = left.remove(at);
        sorted.push(roll);
        proof {
            broadcast use vstd::seq_lib::group_to_multiset_ensures;
            broadcast use vstd::multiset::group_multiset_axioms;

            assert(before.contains(roll));
            assert(sorted@.to_multiset() == sorted_before.to_multiset().insert(roll));
            assert(left@.to_multiset() == before.to_multiset().remove(roll));
            assert(before.to_multiset().count(roll) > 0);
            assert(sorted@.to_multiset().add(left@.to_multiset()) =~= sorted_before.to_multiset().add(
                before.to_multiset(),
            ));
            assert forall|i: int, j: int|
                0 <= i < j < sorted@.len()
                implies #[trigger] higher_first()(sorted@[i], sorted@[j]) by {
                if j < sorted_before.len() {
                    assert(higher_first()(sorted_before[i], sorted_before[j]));
                }
            }
            assert forall|i: int, j: int|
                0 <= i < sorted@.len() && 0 <= j < left@.len() implies sorted@[i] >= left@[j] by {
                let was = if j < at { j } else { j + 1 };
                assert(left@[j] == before[was]);
            }
        }
    }
    proof {
        broadcast use vstd::seq_lib::group_to_multiset_ensures;
        broadcast use vstd::multiset::group_multiset_axioms;

        assert(left@.to_multiset() =~= Multiset::<u32>::empty());
        assert(sorted@.to_multiset() =~= given.to_multiset());
        assert forall|i: int, j: int|
            0 <= i < j < sorted@.len() implies sorted@[i] >= sorted@[j] by {
            assert(higher_first()(sorted@[i], sorted@[j]));
        }
        lemma_descending_is(given, sorted@);
    }
    sorted
}

/// Decides an attack from the dice of both sides: the armies that the
/// attacker loses, then those that the defender loses. The dice are compared
/// pair by pair, the highest of each side first; a pair costs the defender an
/// army where the die of the attacker is strictly higher, and the attacker
/// otherwise. Dice without a partner count for nothing.
pub fn battle(attacker_rolls: &Vec<u32>, defender_rolls: &Vec<u32>) -> (losses: (u32, u32))
    requires
        pairs(attacker_rolls@, defender_rolls@) <= u32::MAX,
    ensures
        losses.0 == attacker_losses(attacker_rolls@, defender_rolls@),
        losses.1 == defender_losses(attacker_rolls@, defender_rolls@),
        losses.0 + losses.1 == pairs(attacker_rolls@, defender_rolls@),
{
    let ghost compared = pairs(attacker_rolls@, defender_rolls@);
    let attacker: Vec<u32> = sort_descending(attacker_rolls);
    let defender: Vec<u32> = sort_descending(defender_rolls);
    let mut attacker_lost: u32 = 0;
    let mut defender_lost: u32 = 0;
    let mut pair: usize = 0;
    while pair < attacker.len() && pair < defender.len()
        invariant
            pair <= attacker@.len(),
            pair <= defender@.len(),
            compared == pairs(attacker@, defender@),
            compared <= u32::MAX,
            attacker_lost == defeats(attacker@, defender@, pair as int),
            defender_lost == wins(attacker@, defender@, pair as int),
            attacker_lost + defender_lost == pair,
        decreases attacker@.len() - pair,
    {
        if attacker[pair] > defender[pair] {
            defender_lost += 1;
        } else {
            attacker_lost += 1;
        }
        pair += 1;
    }
    (attacker_lost, defender_lost)
}

} // verus!
