use colored::Color::{Blue, Green, Red, White};
use rist::boards::classic_board;
use rist::boards::{layout_is_sound, BoardStruct, BoardType};
use rist::players::PlayerStruct;
use rist::players::PlayerType::Unimplemented;

/// Claims on the classic board
#[test]
fn test_display() {
    let mut board = classic_board::new(4);
    let mut player1 = PlayerStruct::new(Unimplemented, "TestPlayer1", Blue, White);
    let mut player2 = PlayerStruct::new(Unimplemented, "TestPlayer2", Green, White);
    let mut player3 = PlayerStruct::new(Unimplemented, "TestPlayer3", Red, White);
    player2.index = 1;
    player3.index = 2;
    player1.armies = 30;
    player2.armies = 30;
    player3.armies = 30;

    assert_eq!(board.claim_territory(0, &mut player1), Ok(()));
    assert_eq!(board.claim_territory(0, &mut player2), Ok(()));
    assert_eq!(board.claim_territory(0, &mut player2), Ok(()));
    assert_eq!(board.claim_territory(0, &mut player1), Ok(()));
    assert_eq!(board.claim_territory(0, &mut player3), Ok(()));
    assert_eq!(board.claim_territory(0, &mut player3), Ok(()));
    assert_eq!(board.claim_territory(0, &mut player2), Ok(()));
    assert_eq!(board.claim_territory(0, &mut player1), Ok(()));
    assert_eq!(board.claim_territory(0, &mut player1), Ok(()));
    assert_eq!(board.claim_territory(0, &mut player3), Ok(()));
    assert_eq!(board.claim_territory(0, &mut player1), Ok(()));

    println!("{:#?}", board.territories[0]);
    assert_eq!(board.free_territories.len(), 31);
    assert_eq!(board.free_territories[0], 11);
    assert_eq!(player1.territories, vec![0, 3, 7, 8, 10]);
    assert_eq!(player2.territories, vec![1, 2, 6]);
    assert_eq!(player3.territories, vec![4, 5, 9]);
    assert_eq!(player1.armies, 25);
    assert_eq!(player2.armies, 27);
    assert_eq!(player3.armies, 27);
    for territory in 0..11 {
        assert_eq!(board.territories[territory].armies, 1);
    }
    assert_eq!(board.territories[11].armies, 0);
    // North America: Alaska; Northwest Territory, Greenland, Quebec; Alberta, Ontario.
    assert_eq!(board.continents[classic_board::NORTH_AMERICA].territories_per_player, vec![1, 3, 2, 0]);
}

#[test]
fn the_classic_board_has_six_continents_and_forty_two_territories() {
    let board = BoardStruct::new(BoardType::ClassicBoard, 3);
    assert_eq!(board.board, BoardType::ClassicBoard);
    assert_eq!(board.continents.len(), 6);
    assert_eq!(board.territories.len(), 42);
    assert_eq!(board.free_territories, (0..42).collect::<Vec<usize>>());
    assert_eq!(board.extra_info_lines, 6);
    assert!(board.extra_info.is_empty());

    let continents: Vec<(&str, u32, u32)> = board
        .continents
        .iter()
        .map(|continent| (continent.name.as_str(), continent.armies_reward, continent.size))
        .collect();
    assert_eq!(
        continents,
        vec![
            ("North America", 5, 9),
            ("Europe", 5, 7),
            ("Asia", 7, 12),
            ("South America", 2, 4),
            ("Africa", 3, 6),
            ("Australia", 2, 4),
        ]
    );
    for (index, continent) in board.continents.iter().enumerate() {
        assert_eq!(continent.index, index);
        assert_eq!(continent.territories_per_player, vec![0, 0, 0]);
        let members = board
            .territories
            .iter()
            .filter(|territory| territory.continent == index)
            .count();
        assert_eq!(members as u32, continent.size);
    }
}

#[test]
fn the_borders_of_the_classic_board_go_both_ways() {
    let board = classic_board::new(2);
    let mut borders = 0;
    for (index, territory) in board.territories.iter().enumerate() {
        assert_eq!(territory.index, index);
        assert!(!territory.connections.is_empty());
        for neighbor in &territory.connections {
            assert!(board.territories[*neighbor].connections.contains(&index));
            assert_ne!(*neighbor, index);
            borders += 1;
        }
    }
    assert_eq!(borders, 2 * 83);
}

#[test]
fn the_territories_of_the_classic_board_lie_where_they_belong() {
    let board = classic_board::new(2);
    let alaska = &board.territories[classic_board::ALASKA];
    assert_eq!(alaska.name, "Alaska");
    assert_eq!(alaska.abbr, "ALASK");
    assert_eq!(alaska.continent, classic_board::NORTH_AMERICA);
    assert_eq!(
        alaska.connections,
        vec![
            classic_board::NORTHWEST_TERRITORY,
            classic_board::ALBERTA,
            classic_board::KAMCHATKA
        ]
    );
    let siberia = &board.territories[classic_board::SIBERIA];
    assert_eq!(siberia.name, "Siberia");
    assert_eq!(siberia.continent, classic_board::ASIA);
    assert_eq!(
        siberia.connections,
        vec![
            classic_board::URAL,
            classic_board::CHINA,
            classic_board::MONGOLIA,
            classic_board::IRKUTSK,
            classic_board::YAKUTSK
        ]
    );
    let madagascar = &board.territories[classic_board::MADAGASCAR];
    assert_eq!(madagascar.index, 41);
    assert_eq!(madagascar.name, "Madagascar");
    assert_eq!(madagascar.continent, classic_board::AFRICA);
    assert_eq!(
        madagascar.connections,
        vec![classic_board::SOUTH_AFRICA, classic_board::EAST_AFRICA]
    );
    assert_eq!(board.territories[classic_board::UKRAINE].continent, classic_board::EUROPE);
    assert_eq!(board.territories[classic_board::BRAZIL].continent, classic_board::SOUTH_AMERICA);
    assert_eq!(board.territories[classic_board::INDONESIA].continent, classic_board::AUSTRALIA);
}

#[test]
fn the_parts_of_the_classic_board_make_a_sound_layout() {
    let board = classic_board::new(5);
    assert!(layout_is_sound(&board.continents, &board.territories));
}
