use colored::Color::{Magenta, White};
use rist::boards::BoardType::Unimplemented;
use rist::boards::{layout_is_sound, BoardStruct, BoardType};
use rist::continent::Continent;
use rist::error::{Decision, GameError};
use rist::players::{PlayerStruct, PlayerType};
use rist::territory::Territory;

fn five_territories() -> (Vec<Continent>, Vec<Territory>) {
    let continent1 = Continent::new("TestContinent1", 4, 5, 3);
    let continent2 = Continent::new("TestContinent2", 4, 3, 2);

    let mut territory1 = Territory::new("TestTerritory1", 0);
    let mut territory2 = Territory::new("TestTerritory2", 0);
    let mut territory3 = Territory::new("TestTerritory3", 0);

    let mut territory4 = Territory::new("TestTerritory4", 1);
    let mut territory5 = Territory::new("TestTerritory5", 1);

    territory1.create_connections(vec![1, 2]);
    territory2.create_connections(vec![0, 3]);
    territory3.create_connections(vec![0, 4]);

    territory4.create_connections(vec![1, 4]);
    territory5.create_connections(vec![3, 2]);

    (
        vec![continent1, continent2],
        vec![territory1, territory2, territory3, territory4, territory5],
    )
}

fn one_territory() -> BoardStruct {
    let continent = Continent::new("TestContinent", 4, 5, 1);
    let territory = Territory::new("TestTerritory", 0);
    BoardStruct::generate_board(BoardType::Unimplemented, vec![continent], vec![territory], 0)
}

/// Test `BoardStruct` creation
#[test]
fn test_new_board_struct() {
    let (continents, territories) = five_territories();
    assert!(layout_is_sound(&continents, &territories));

    let board = BoardStruct::generate_board(Unimplemented, continents, territories, 0);

    println!("{:#?}", board);
    assert_eq!(board.board, Unimplemented);
    assert_eq!(board.free_territories, vec![0, 1, 2, 3, 4]);
    assert_eq!(board.continents[1].index, 1);
    assert_eq!(board.territories[4].index, 4);
    assert_eq!(board.territories[4].connections, vec![3, 2]);
    assert_eq!(board.extra_info_lines, 0);
}

#[test]
fn test_claiming_free_territories() {
    let mut board = one_territory();

    let mut player = PlayerStruct::new(PlayerType::Unimplemented, "TestPlayer", Magenta, White);
    player.armies = 1;

    assert_eq!(board.claim_territory(0, &mut player), Ok(()));

    assert_eq!(board.territories[0].armies, 1);
    assert_eq!(player.armies, 0);

    let mut name = String::from("");
    if let Some(occupant) = board.territories[0].get_player() {
        assert_eq!(occupant, player.index);
        name = String::from(&player.name);
    }

    assert_eq!(name, "TestPlayer");
    assert_eq!(board.continents[0].territories_per_player[0], 1);
    assert!(player.territories.contains(&0));
    assert!(player.continents.contains(&0));
    assert!(board.free_territories.is_empty());
}

#[test]
fn not_enough_armies() {
    let mut board = one_territory();

    let mut player = PlayerStruct::new(PlayerType::Unimplemented, "TestPlayer", Magenta, White);

    assert_eq!(
        board.claim_territory(0, &mut player),
        Err(GameError::InsufficientArmies { player: 0, requested: 1, available: 0 })
    );
    assert_eq!(board.free_territories, vec![0]);
    assert_eq!(board.territories[0].armies, 0);
    assert_eq!(board.territories[0].get_player(), None);
    assert!(player.territories.is_empty());
}

#[test]
fn claim_of_a_territory_that_is_not_on_the_list() {
    let mut board = one_territory();
    let mut player = PlayerStruct::new(PlayerType::Unimplemented, "TestPlayer", Magenta, White);
    player.armies = 3;

    assert_eq!(
        board.claim_territory(1, &mut player),
        Err(GameError::IllegalDecision { player: 0, decision: Decision::Claim })
    );
    assert_eq!(player.armies, 3);
    assert_eq!(board.free_territories, vec![0]);
}

#[test]
fn claim_of_an_occupied_territory() {
    let mut board = one_territory();
    let mut player = PlayerStruct::new(PlayerType::Unimplemented, "TestPlayer", Magenta, White);
    player.armies = 3;
    // A board whose ledger is in order, but whose free list names a
    // territory that another player holds.
    board.territories[0].player = Some(2);
    board.territories[0].armies = 1;
    board.continents[0].territories_per_player[2] = 1;

    assert_eq!(
        board.claim_territory(0, &mut player),
        Err(GameError::TerritoryOccupied { player: 0, territory: 0 })
    );
    assert_eq!(player.armies, 3);
    assert!(player.territories.is_empty());
    assert!(player.continents.is_empty());
    assert_eq!(board.free_territories, vec![0]);
    assert_eq!(board.territories[0].player, Some(2));
    assert_eq!(board.territories[0].armies, 1);
    assert_eq!(board.continents[0].territories_per_player, vec![0, 0, 1, 0]);
}

#[test]
fn claims_count_towards_the_continent() {
    let (continents, territories) = five_territories();
    let mut board = BoardStruct::generate_board(Unimplemented, continents, territories, 0);
    let mut first = PlayerStruct::new(PlayerType::Unimplemented, "First", Magenta, White);
    let mut second = PlayerStruct::new(PlayerType::Unimplemented, "Second", White, Magenta);
    second.index = 1;
    first.armies = 5;
    second.armies = 5;

    // The free list shrinks from the front: the claims are of territories 0, 1, 2, 4, 3.
    assert_eq!(board.claim_territory(0, &mut first), Ok(()));
    assert_eq!(board.claim_territory(0, &mut second), Ok(()));
    assert_eq!(board.claim_territory(0, &mut first), Ok(()));
    assert_eq!(board.claim_territory(1, &mut second), Ok(()));
    assert_eq!(board.claim_territory(0, &mut second), Ok(()));

    assert!(board.free_territories.is_empty());
    assert_eq!(board.continents[0].territories_per_player, vec![2, 1, 0, 0]);
    assert_eq!(board.continents[1].territories_per_player, vec![0, 2, 0, 0]);
    for continent in &board.continents {
        assert_eq!(continent.territories_per_player.iter().sum::<u32>(), continent.size);
    }
    assert_eq!(first.territories, vec![0, 2]);
    assert_eq!(second.territories, vec![1, 4, 3]);
    assert!(first.continents.is_empty());
    assert_eq!(second.continents, vec![1]);
    assert_eq!(first.armies, 3);
    assert_eq!(second.armies, 2);
}

#[test]
fn transfer_moves_a_territory_between_the_records() {
    let (continents, territories) = five_territories();
    let mut board = BoardStruct::generate_board(Unimplemented, continents, territories, 0);
    let mut players = vec![
        PlayerStruct::new(PlayerType::Unimplemented, "First", Magenta, White),
        PlayerStruct::new(PlayerType::Unimplemented, "Second", White, Magenta),
        PlayerStruct::new(PlayerType::Unimplemented, "Third", White, White),
        PlayerStruct::new(PlayerType::Unimplemented, "Fourth", Magenta, Magenta),
    ];
    rist::players::generate_ids(&mut players);
    for player in players.iter_mut() {
        player.armies = 5;
    }
    assert_eq!(board.claim_territory(0, &mut players[0]), Ok(()));
    assert_eq!(board.claim_territory(0, &mut players[0]), Ok(()));
    assert_eq!(board.claim_territory(0, &mut players[1]), Ok(()));
    assert_eq!(board.claim_territory(0, &mut players[1]), Ok(()));
    assert_eq!(board.claim_territory(0, &mut players[1]), Ok(()));
    assert_eq!(players[1].continents, vec![1]);

    board.transfer_ownership(3, &mut players, 1, 0);
    assert_eq!(board.territories[3].get_player(), Some(0));
    assert_eq!(board.territories[3].armies, 1);
    assert_eq!(board.continents[1].territories_per_player, vec![1, 1, 0, 0]);
    assert_eq!(players[0].territories, vec![0, 1, 3]);
    assert_eq!(players[1].territories, vec![2, 4]);
    assert!(players[1].continents.is_empty());
    assert!(players[0].continents.is_empty());

    board.transfer_ownership(2, &mut players, 1, 0);
    assert_eq!(board.continents[0].territories_per_player, vec![3, 0, 0, 0]);
    assert_eq!(players[0].continents, vec![0]);
    assert_eq!(players[1].territories, vec![4]);
}

#[test]
fn a_layout_with_a_one_way_border_is_not_sound() {
    let (continents, mut territories) = five_territories();
    territories[0].create_connections(vec![1, 2, 3]);
    assert!(!layout_is_sound(&continents, &territories));
}

#[test]
fn a_layout_with_a_continent_of_the_wrong_size_is_not_sound() {
    let (mut continents, territories) = five_territories();
    continents[1].size = 3;
    assert!(!layout_is_sound(&continents, &territories));
}

#[test]
fn a_layout_with_a_territory_off_the_map_is_not_sound() {
    let (continents, mut territories) = five_territories();
    territories[4] = Territory::new("Nowhere", 2);
    assert!(!layout_is_sound(&continents, &territories));
    let (continents, mut territories) = five_territories();
    territories[4].create_connections(vec![3, 2, 7]);
    assert!(!layout_is_sound(&continents, &territories));
}

#[test]
fn a_layout_with_an_occupant_is_not_sound() {
    let (continents, mut territories) = five_territories();
    territories[2].player = Some(0);
    assert!(!layout_is_sound(&continents, &territories));
    let (mut continents, territories) = five_territories();
    continents[0].territories_per_player[3] = 1;
    assert!(!layout_is_sound(&continents, &territories));
}

#[test]
fn extra_info_fills_up_and_clears() {
    let continent = Continent::new("TestContinent", 4, 5, 1);
    let territory = Territory::new("TestTerritory", 0);
    let mut board =
        BoardStruct::generate_board(BoardType::Unimplemented, vec![continent], vec![territory], 2);
    assert!(!board.set_extra_info(String::from("one")));
    assert!(board.set_extra_info(String::from("two")));
    assert_eq!(board.extra_info, vec![String::from("one"), String::from("two")]);
    board.clear_extra_info();
    assert!(board.extra_info.is_empty());
    assert_eq!(board.extra_info_lines, 2);
}

#[test]
fn attacks_defenses_and_captures_are_checked() {
    let (continents, territories) = five_territories();
    let mut board = BoardStruct::generate_board(Unimplemented, continents, territories, 0);
    let mut first = PlayerStruct::new(PlayerType::Unimplemented, "First", Magenta, White);
    let mut second = PlayerStruct::new(PlayerType::Unimplemented, "Second", White, Magenta);
    second.index = 1;
    first.armies = 5;
    second.armies = 5;
    assert_eq!(board.claim_territory(0, &mut first), Ok(()));
    assert_eq!(board.claim_territory(0, &mut second), Ok(()));
    assert_eq!(board.claim_territory(0, &mut first), Ok(()));
    assert_eq!(board.claim_territory(0, &mut second), Ok(()));
    assert_eq!(board.claim_territory(0, &mut second), Ok(()));
    board.station(0, 4);
    board.station(1, 2);

    let attack = |dice: u32, attacker: usize, defender: usize| rist::Attack { dice, attacker, defender };
    assert!(board.allows_attack(0, &attack(1, 0, 1)));
    assert!(board.allows_attack(0, &attack(3, 0, 1)));
    // Too many dice, or none.
    assert!(!board.allows_attack(0, &attack(4, 0, 1)));
    assert!(!board.allows_attack(0, &attack(0, 0, 1)));
    // As many dice as armies.
    assert!(!board.allows_attack(1, &attack(2, 1, 0)));
    assert!(board.allows_attack(1, &attack(1, 1, 0)));
    // A single army does not attack.
    assert!(!board.allows_attack(0, &attack(1, 2, 4)));
    // Not a neighbor.
    assert!(!board.allows_attack(0, &attack(1, 0, 3)));
    // An own territory, as target or not as origin.
    assert!(!board.allows_attack(0, &attack(1, 0, 2)));
    assert!(!board.allows_attack(0, &attack(1, 1, 0)));
    // Off the map.
    assert!(!board.allows_attack(0, &attack(1, 0, 5)));
    assert!(!board.allows_attack(0, &attack(1, 5, 0)));

    assert!(board.allows_defense(&attack(1, 0, 1), 1));
    assert!(board.allows_defense(&attack(1, 0, 1), 2));
    assert!(!board.allows_defense(&attack(1, 0, 1), 3));
    assert!(!board.allows_defense(&attack(1, 0, 1), 0));
    // One army defends with one die.
    assert!(board.allows_defense(&attack(1, 1, 0), 2));
    assert!(board.allows_defense(&attack(1, 0, 3), 1));
    assert!(!board.allows_defense(&attack(1, 0, 3), 2));

    assert!(board.allows_capture(&attack(2, 0, 1), 2));
    assert!(board.allows_capture(&attack(2, 0, 1), 3));
    assert!(!board.allows_capture(&attack(2, 0, 1), 1));
    assert!(!board.allows_capture(&attack(2, 0, 1), 4));
}

#[test]
fn answers_against_the_rules_are_judged_as_errors() {
    let (continents, territories) = five_territories();
    let mut board = BoardStruct::generate_board(Unimplemented, continents, territories, 0);
    let mut first = PlayerStruct::new(PlayerType::Unimplemented, "First", Magenta, White);
    let mut second = PlayerStruct::new(PlayerType::Unimplemented, "Second", White, Magenta);
    second.index = 1;
    first.armies = 5;
    second.armies = 5;
    assert_eq!(board.claim_territory(0, &mut first), Ok(()));
    assert_eq!(board.claim_territory(0, &mut second), Ok(()));
    assert_eq!(board.claim_territory(0, &mut first), Ok(()));
    assert_eq!(board.claim_territory(0, &mut second), Ok(()));
    assert_eq!(board.claim_territory(0, &mut second), Ok(()));
    board.station(0, 5);

    let attack = |dice: u32, attacker: usize, defender: usize| rist::Attack { dice, attacker, defender };
    let refused = Err(GameError::IllegalDecision { player: 0, decision: Decision::Attack });
    assert_eq!(board.judge_attack(0, &attack(3, 0, 1)), Ok(1));
    assert_eq!(board.judge_attack(0, &attack(1, 0, 1)), Ok(1));
    // Four dice, with five armies.
    assert_eq!(board.judge_attack(0, &attack(4, 0, 1)), refused);
    // No neighbor.
    assert_eq!(board.judge_attack(0, &attack(1, 0, 3)), refused);
    // An own territory.
    assert_eq!(board.judge_attack(0, &attack(1, 0, 2)), refused);
    assert_eq!(
        board.judge_attack(1, &attack(1, 0, 1)),
        Err(GameError::IllegalDecision { player: 1, decision: Decision::Attack })
    );

    // One army defends with one die.
    assert_eq!(board.judge_defense(1, &attack(3, 0, 1), 1), Ok(1));
    assert_eq!(
        board.judge_defense(1, &attack(3, 0, 1), 2),
        Err(GameError::IllegalDecision { player: 1, decision: Decision::Defense })
    );
    assert_eq!(
        board.judge_defense(1, &attack(3, 0, 1), 0),
        Err(GameError::IllegalDecision { player: 1, decision: Decision::Defense })
    );
    board.station(1, 2);
    assert_eq!(board.judge_defense(1, &attack(3, 0, 1), 2), Ok(2));
    assert_eq!(
        board.judge_defense(1, &attack(3, 0, 1), 3),
        Err(GameError::IllegalDecision { player: 1, decision: Decision::Defense })
    );

    assert_eq!(board.judge_capture(0, &attack(3, 0, 1), 3), Ok(3));
    assert_eq!(board.judge_capture(0, &attack(3, 0, 1), 4), Ok(4));
    assert_eq!(
        board.judge_capture(0, &attack(3, 0, 1), 2),
        Err(GameError::IllegalDecision { player: 0, decision: Decision::Capture })
    );
    assert_eq!(
        board.judge_capture(0, &attack(3, 0, 1), 5),
        Err(GameError::IllegalDecision { player: 0, decision: Decision::Capture })
    );
}

#[test]
fn a_claim_adds_an_army_to_those_that_stand_there() {
    let mut board = one_territory();
    let mut player = PlayerStruct::new(PlayerType::Unimplemented, "TestPlayer", Magenta, White);
    player.armies = 5;
    // Nobody occupies the territory yet, but two armies stand on it.
    assert_eq!(board.territories[0].place_armies(&mut player, 2), Ok(()));
    assert_eq!(board.territories[0].get_player(), None);
    assert_eq!(board.territories[0].armies, 2);

    assert_eq!(board.claim_territory(0, &mut player), Ok(()));
    assert_eq!(board.territories[0].armies, 3);
    assert_eq!(board.territories[0].get_player(), Some(0));
    assert_eq!(player.armies, 2);
    assert_eq!(player.territories, vec![0]);
    assert_eq!(player.continents, vec![0]);
    assert_eq!(board.continents[0].territories_per_player, vec![1, 0, 0, 0]);
    assert!(board.free_territories.is_empty());
}
