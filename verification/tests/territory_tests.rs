use colored::Color::{Magenta, White};
use rist::continent::Continent;
use rist::error::{Decision, GameError};
use rist::players::{PlayerState, PlayerType};
use rist::territory::{generate_ids, Territory};

/// Test the territory display visually
#[test]
fn test_territory_display() {
    let continent = Continent::new("TestContinent", 4, 5, 3);

    let mut territory1 = Territory::new("TestTerritory1", continent.index);
    let mut territory2 = Territory::new("TestTerritory2", continent.index);
    let mut territory3 = Territory::new("TestTerritory3", continent.index);

    territory1.connections = vec![1, 2];
    territory2.connections = vec![0];
    territory3.connections = vec![0];

    println!("{:#?}", territory1);
    println!("{:#?}", territory2);
    println!("{:#?}", territory3);

    assert_eq!(territory1.name, "TestTerritory1");
    assert_eq!(territory1.abbr, "TESTT");
    assert_eq!(territory1.armies, 0);
    assert_eq!(territory1.get_player(), None);
}

/// Test the connection creation
#[test]
fn test_create_connections() {
    let mut territory1 = Territory::new("TestTerritory1", 0);
    let mut territory2 = Territory::new("TestTerritory2", 0);
    let mut territory3 = Territory::new("TestTerritory3", 0);

    territory1.create_connections(vec![1, 2]);
    territory2.create_connections(vec![0]);
    territory3.create_connections(vec![0]);

    let territories = vec![territory1, territory2, territory3];
    println!("{:#?}", territories[0]);

    assert_eq!(territories[territories[0].connections[0]].name, "TestTerritory2");
    assert_eq!(territories[territories[0].connections[1]].name, "TestTerritory3");
    assert_eq!(territories[territories[1].connections[0]].name, "TestTerritory1");
    assert_eq!(territories[territories[2].connections[0]].name, "TestTerritory1");
    assert!(territories[0].borders(2));
    assert!(!territories[1].borders(2));
}

/// Test the territory numbering
#[test]
fn test_territory_id_generation() {
    let territory1 = Territory::new("TestTerritory1", 0);
    let territory2 = Territory::new("TestTerritory2", 0);
    let territory3 = Territory::new("TestTerritory3", 0);

    let mut territories = vec![territory1, territory2, territory3];
    generate_ids(&mut territories);

    assert_eq!(territories[0].index, 0);
    assert_eq!(territories[1].index, 1);
    assert_eq!(territories[2].index, 2);
}

#[test]
fn abbreviations_keep_five_letters_in_upper_case() {
    assert_eq!(Territory::new("Alaska", 0).abbr, "ALASK");
    assert_eq!(Territory::new("Peru", 0).abbr, "PERU");
    assert_eq!(Territory::new("Siam", 0).abbr, "SIAM");
    assert_eq!(Territory::new("", 0).abbr, "");
    assert_eq!(Territory::new("North Africa", 0).abbr, "NORTH");
    assert_eq!(Territory::new("Überwald", 0).abbr, "ÜBERW");
}

#[test]
fn armies_move_from_the_reserve_onto_the_territory() {
    let mut territory = Territory::new("TestTerritory", 0);
    let mut player = PlayerState::new(PlayerType::Unimplemented, "TestPlayer", Magenta, White);
    player.armies = 5;

    assert_eq!(territory.place_armies(&mut player, 2), Ok(()));
    assert_eq!(territory.armies, 2);
    assert_eq!(player.armies, 3);

    territory.player = Some(0);
    assert_eq!(territory.place_armies(&mut player, 3), Ok(()));
    assert_eq!(territory.armies, 5);
    assert_eq!(player.armies, 0);

    assert_eq!(
        territory.place_armies(&mut player, 1),
        Err(GameError::InsufficientArmies { player: 0, requested: 1, available: 0 })
    );
    assert_eq!(territory.armies, 5);
}

#[test]
fn armies_are_not_placed_on_the_territory_of_another() {
    let mut territory = Territory::new("TestTerritory", 0);
    territory.player = Some(1);
    territory.armies = 1;
    let mut player = PlayerState::new(PlayerType::Unimplemented, "TestPlayer", Magenta, White);
    player.armies = 5;

    assert_eq!(
        territory.place_armies(&mut player, 2),
        Err(GameError::IllegalDecision { player: 0, decision: Decision::Placement })
    );
    assert_eq!(territory.armies, 1);
    assert_eq!(player.armies, 5);
}
