use rist::combat::{battle, sort_descending};
use rist::{first_player, highest_rollers, starting_reserve};

use colored::Color::{Blue, White};
use rist::players::{PlayerState, PlayerType};

#[test]
fn rolls_are_ordered_from_the_highest() {
    assert_eq!(sort_descending(&vec![3, 6, 1]), vec![6, 3, 1]);
    assert_eq!(sort_descending(&vec![2, 2, 5, 1, 5]), vec![5, 5, 2, 2, 1]);
    assert_eq!(sort_descending(&vec![4]), vec![4]);
    assert_eq!(sort_descending(&vec![]), Vec::<u32>::new());
}

#[test]
fn the_highest_dice_are_compared_first() {
    // 6 beats 5, 3 loses to 4.
    assert_eq!(battle(&vec![3, 6, 1], &vec![4, 5]), (1, 1));
    // 6 beats 5, 5 beats 4.
    assert_eq!(battle(&vec![5, 1, 6], &vec![4, 5]), (0, 2));
    // 2 loses to 3, 1 loses to 3.
    assert_eq!(battle(&vec![1, 2, 1], &vec![3, 3]), (2, 0));
}

#[test]
fn a_tie_goes_to_the_defender() {
    assert_eq!(battle(&vec![6], &vec![6]), (1, 0));
    assert_eq!(battle(&vec![4, 4], &vec![4, 4]), (2, 0));
    assert_eq!(battle(&vec![6, 3], &vec![6, 2]), (1, 1));
}

#[test]
fn dice_without_a_partner_count_for_nothing() {
    assert_eq!(battle(&vec![1, 1, 6], &vec![5]), (0, 1));
    assert_eq!(battle(&vec![2], &vec![1, 1]), (0, 1));
    assert_eq!(battle(&vec![2], &vec![1, 3]), (1, 0));
    assert_eq!(battle(&vec![], &vec![1, 3]), (0, 0));
    assert_eq!(battle(&vec![5, 5, 5], &vec![]), (0, 0));
}

#[test]
fn the_losses_are_as_many_as_the_pairs() {
    for first in 1..=6 {
        for second in 1..=6 {
            for third in 1..=6 {
                for parry in 1..=6 {
                    for guard in 1..=6 {
                        let (attacker, defender) =
                            battle(&vec![first, second, third], &vec![parry, guard]);
                        assert_eq!(attacker + defender, 2);
                        let (attacker, defender) = battle(&vec![first, second], &vec![parry]);
                        assert_eq!(attacker + defender, 1);
                        assert_eq!(defender == 1, first.max(second) > parry);
                    }
                }
            }
        }
    }
}

#[test]
fn those_who_rolled_highest_stay() {
    assert_eq!(highest_rollers(&vec![0, 1, 2], &vec![3, 6, 6]), vec![1, 2]);
    assert_eq!(highest_rollers(&vec![1, 2], &vec![2, 1]), vec![1]);
    assert_eq!(highest_rollers(&vec![4, 7, 9, 11], &vec![5, 5, 5, 5]), vec![4, 7, 9, 11]);
    assert_eq!(highest_rollers(&vec![3], &vec![1]), vec![3]);
    assert_eq!(highest_rollers(&vec![], &vec![]), Vec::<usize>::new());
}

#[test]
fn the_first_player_is_one_of_the_players() {
    let players: Vec<PlayerState> = (0..5)
        .map(|index| PlayerState::new(PlayerType::RandomPlayer, "Player", Blue, White).enter(index))
        .collect();
    let mut begun = vec![false; 5];
    for _ in 0..400 {
        let first = first_player(&players);
        assert!(first < 5);
        begun[first] = true;
    }
    assert_eq!(begun, vec![true; 5]);
    assert_eq!(first_player(&players[..1].iter().map(|player| player.enter(0)).collect()), 0);
}

#[test]
fn the_starting_reserve_depends_on_the_number_of_players() {
    assert_eq!(starting_reserve(2), 50);
    assert_eq!(starting_reserve(3), 35);
    assert_eq!(starting_reserve(4), 30);
    assert_eq!(starting_reserve(5), 25);
    assert_eq!(starting_reserve(6), 20);
}
