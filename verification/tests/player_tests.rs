use colored::Color::{Blue, White};
use colored::Colorize;
use rist::players::{generate_ids, Player, PlayerState, PlayerType, RandomPlayer};

/// Test string coloring
#[test]
fn test_colorize() {
    let player = RandomPlayer::new("TestPlayer", Blue, White);

    let state = player.get_state();
    let colored = "I am Blue".color(state.foreground).on_color(state.background);
    println!("{}", colored);
    assert_eq!(&*colored, "I am Blue");
    assert_eq!(colored.fgcolor, Some(White));
    assert_eq!(colored.bgcolor, Some(Blue));
}

#[test]
fn a_new_player_has_nothing() {
    let player = PlayerState::new(PlayerType::RandomPlayer, "TestPlayer", Blue, White);
    assert_eq!(player.player_type, PlayerType::RandomPlayer);
    assert_eq!(player.index, 0);
    assert_eq!(player.name, "TestPlayer");
    assert_eq!(player.armies, 0);
    assert!(player.get_territories().is_empty());
    assert!(player.get_continents().is_empty());
    assert_eq!(player.background, Blue);
    assert_eq!(player.foreground, White);
    assert!(!player.defeated);
}

#[test]
fn adding_twice_is_adding_once() {
    let mut player = PlayerState::new(PlayerType::RandomPlayer, "TestPlayer", Blue, White);
    player.add_territory(4);
    player.add_territory(2);
    let once = player.get_territories().clone();
    player.add_territory(4);
    assert_eq!(player.get_territories(), &once);
    assert_eq!(player.get_territories(), &vec![4, 2]);

    player.add_continent(1);
    player.add_continent(1);
    assert_eq!(player.get_continents(), &vec![1]);
}

#[test]
fn removing_what_is_not_there_changes_nothing() {
    let mut player = PlayerState::new(PlayerType::RandomPlayer, "TestPlayer", Blue, White);
    player.add_territory(4);
    player.add_territory(2);
    player.add_territory(7);
    player.remove_territory(3);
    assert_eq!(player.get_territories(), &vec![4, 2, 7]);
    player.remove_territory(2);
    assert_eq!(player.get_territories(), &vec![4, 7]);
    player.remove_territory(2);
    assert_eq!(player.get_territories(), &vec![4, 7]);

    player.add_continent(0);
    player.add_continent(5);
    player.remove_continent(0);
    player.remove_continent(0);
    assert_eq!(player.get_continents(), &vec![5]);
    player.remove_continent(5);
    assert!(player.get_continents().is_empty());
}

#[test]
fn players_are_numbered_by_position() {
    let mut players = vec![
        PlayerState::new(PlayerType::RandomPlayer, "One", Blue, White),
        PlayerState::new(PlayerType::RandomPlayer, "Two", Blue, White),
        PlayerState::new(PlayerType::RandomPlayer, "Three", Blue, White),
    ];
    generate_ids(&mut players);
    assert_eq!(players[0].index, 0);
    assert_eq!(players[1].index, 1);
    assert_eq!(players[2].index, 2);
    assert_eq!(players[2].name, "Three");
}

#[test]
fn a_player_enters_a_game_with_its_name_and_colors() {
    let mut profile = PlayerState::new(PlayerType::RandomPlayer, "TestPlayer", Blue, White);
    profile.armies = 12;
    profile.add_territory(3);
    profile.defeated = true;
    let state = profile.enter(2);
    assert_eq!(state.index, 2);
    assert_eq!(state.name, "TestPlayer");
    assert_eq!(state.player_type, PlayerType::RandomPlayer);
    assert_eq!(state.background, Blue);
    assert_eq!(state.foreground, White);
    assert_eq!(state.armies, 0);
    assert!(state.territories.is_empty());
    assert!(state.continents.is_empty());
    assert!(!state.defeated);
}
