use std::cell::{Cell, RefCell};
use std::rc::Rc;

use colored::Color::{Blue, Green, Red, White};
use rist::boards::{BoardStruct, BoardType};
use rist::continent::Continent;
use rist::error::{Decision, GameError};
use rist::players::{Player, PlayerState, PlayerType, RandomPlayer};
use rist::territory::Territory;
use rist::{Attack, BattleReport, Game, Outcome, Played, Progress, Step, ARMIES_PER_PLAYER};

/// A player that answers what it was told to answer.
struct Scripted {
    state: PlayerState,
    claims: RefCell<Vec<usize>>,
    placements: Vec<(usize, u32)>,
    attacks: RefCell<Vec<Attack>>,
    repeat: Option<Attack>,
    capture: Option<u32>,
    defense: u32,
    /// How often the player was asked for placements or for an attack.
    asked: Rc<Cell<usize>>,
}

impl Scripted {
    fn new(name: &str) -> Scripted {
        Scripted {
            state: PlayerState::new(PlayerType::Unimplemented, name, Green, White),
            claims: RefCell::new(vec![]),
            placements: vec![],
            attacks: RefCell::new(vec![]),
            repeat: None,
            capture: None,
            defense: 1,
            asked: Rc::new(Cell::new(0)),
        }
    }

    fn claiming(mut self, claims: Vec<usize>) -> Scripted {
        self.claims = RefCell::new(claims);
        self
    }

    fn placing(mut self, placements: Vec<(usize, u32)>) -> Scripted {
        self.placements = placements;
        self
    }

    fn attacking(mut self, attacks: Vec<Attack>) -> Scripted {
        self.attacks = RefCell::new(attacks);
        self
    }

    fn capturing(mut self, armies: u32) -> Scripted {
        self.capture = Some(armies);
        self
    }

    fn defending(mut self, dice: u32) -> Scripted {
        self.defense = dice;
        self
    }
}

impl Player for Scripted {
    fn get_state(&self) -> &PlayerState {
        &self.state
    }

    fn claim_territory(&self, _board: &BoardStruct) -> usize {
        let mut claims = self.claims.borrow_mut();
        if claims.is_empty() {
            0
        } else {
            claims.remove(0)
        }
    }

    fn place_armies(&self, _player: &PlayerState, _board: &BoardStruct) -> Vec<(usize, u32)> {
        self.asked.set(self.asked.get() + 1);
        self.placements.clone()
    }

    fn attack(&self, player: &PlayerState, board: &BoardStruct) -> Option<Attack> {
        self.asked.set(self.asked.get() + 1);
        if let Some(attack) = self.repeat {
            return if board.allows_attack(player.index, &attack) { Some(attack) } else { None };
        }
        let mut attacks = self.attacks.borrow_mut();
        if attacks.is_empty() {
            None
        } else {
            Some(attacks.remove(0))
        }
    }

    fn capture(&self, _player: &PlayerState, _board: &BoardStruct, attack: &Attack) -> u32 {
        match self.capture {
            Some(armies) => armies,
            None => attack.dice,
        }
    }

    fn defend(&self, _player: &PlayerState, _board: &BoardStruct, _attack: &Attack) -> u32 {
        self.defense
    }
}

/// A board of one continent whose territories lie in a row.
fn row(territories: usize, players: usize, reward: u32) -> BoardStruct {
    let continent = Continent::new("Row", players, reward, territories as u32);
    let mut row: Vec<Territory> = vec![];
    for index in 0..territories {
        let mut territory = Territory::new("Field", 0);
        let mut connections = vec![];
        if index > 0 {
            connections.push(index - 1);
        }
        if index + 1 < territories {
            connections.push(index + 1);
        }
        territory.create_connections(connections);
        row.push(territory);
    }
    BoardStruct::generate_board(BoardType::Unimplemented, vec![continent], row, 0)
}

/// A game on a row of territories in which player `index % players` has
/// claimed territory `index` and nobody has placed anything else.
fn game_on_row(territories: usize, players: Vec<Box<dyn Player>>) -> Game {
    let seats = players.len();
    let mut game = Game::new(players, row(territories, seats, 0));
    for player in 0..seats {
        assert_eq!(game.fund(player, 10), Ok(()));
    }
    for index in 0..territories {
        let player = index % seats;
        assert_eq!(game.board.claim_territory(0, &mut game.states[player]), Ok(()));
    }
    game
}

fn assert_accounts(game: &Game) {
    for (player, state) in game.states.iter().enumerate() {
        let on_board: u32 = game
            .board
            .territories
            .iter()
            .filter(|territory| territory.player == Some(player))
            .map(|territory| territory.armies)
            .sum();
        assert_eq!(state.armies + on_board + game.armies_in_box[player], ARMIES_PER_PLAYER);
        let occupied: Vec<usize> = game
            .board
            .territories
            .iter()
            .filter(|territory| territory.player == Some(player))
            .map(|territory| territory.index)
            .collect();
        let mut listed = state.territories.clone();
        listed.sort();
        assert_eq!(listed, occupied);
    }
    for territory in &game.board.territories {
        assert_eq!(territory.player.is_some(), territory.armies >= 1);
    }
    for (index, continent) in game.board.continents.iter().enumerate() {
        for (player, state) in game.states.iter().enumerate() {
            let occupied = game
                .board
                .territories
                .iter()
                .filter(|territory| territory.continent == index && territory.player == Some(player))
                .count() as u32;
            assert_eq!(continent.territories_per_player[player], occupied);
            assert_eq!(state.continents.contains(&index), occupied == continent.size);
        }
    }
    let defeated = game.states.iter().filter(|state| state.defeated).count();
    assert_eq!(game.defeated_players, defeated);
}

fn random_players(count: usize) -> Vec<Box<dyn Player>> {
    let mut players: Vec<Box<dyn Player>> = vec![];
    for _ in 0..count {
        players.push(Box::new(RandomPlayer::new("Player", Red, White)));
    }
    players
}

#[test]
fn a_new_game_has_every_army_in_the_box() {
    let players: Vec<Box<dyn Player>> = vec![
        Box::new(RandomPlayer::new("One", Red, White)),
        Box::new(Scripted::new("Two")),
        Box::new(RandomPlayer::new("Three", Blue, White)),
    ];
    let game = Game::new(players, BoardStruct::new(BoardType::ClassicBoard, 3));
    assert_eq!(game.armies_in_box, vec![180, 180, 180]);
    assert_eq!(game.defeated_players, 0);
    assert_eq!(game.states.len(), 3);
    assert_eq!(game.states[0].name, "One");
    assert_eq!(game.states[1].name, "Two");
    assert_eq!(game.states[1].player_type, PlayerType::Unimplemented);
    assert_eq!(game.states[2].background, Blue);
    for (index, state) in game.states.iter().enumerate() {
        assert_eq!(state.index, index);
        assert_eq!(state.armies, 0);
        assert!(state.territories.is_empty());
        assert!(!state.defeated);
    }
    assert_accounts(&game);
}

#[test]
fn four_players_set_up_two_territories() {
    let mut game = Game::new(random_players(4), row(2, 4, 0));
    let first = game.setup().unwrap();
    assert!(first < 4);
    let second = (first + 1) % 4;
    assert!(game.board.free_territories.is_empty());
    for player in 0..4 {
        if player == first || player == second {
            assert_eq!(game.states[player].armies, 29);
            assert_eq!(game.states[player].territories.len(), 1);
        } else {
            assert_eq!(game.states[player].armies, 30);
            assert!(game.states[player].territories.is_empty());
        }
        assert_eq!(game.armies_in_box[player], 150);
        assert!(game.states[player].continents.is_empty());
    }
    assert_ne!(game.states[first].territories, game.states[second].territories);
    assert_eq!(game.board.continents[0].territories_per_player.iter().sum::<u32>(), 2);
    assert_accounts(&game);
}

#[test]
fn the_players_claim_in_turn() {
    let players: Vec<Box<dyn Player>> = vec![
        Box::new(Scripted::new("One")),
        Box::new(Scripted::new("Two")),
        Box::new(Scripted::new("Three")),
    ];
    let mut game = Game::new(players, row(8, 3, 0));
    let first = game.setup().unwrap();
    // Everybody claims the first of the free territories.
    for territory in 0..8 {
        assert_eq!(game.board.territories[territory].player, Some((first + territory) % 3));
        assert_eq!(game.board.territories[territory].armies, 1);
    }
    for player in 0..3 {
        let claims = if (player + 3 - first) % 3 < 2 { 3 } else { 2 };
        assert_eq!(game.states[player].territories.len(), claims);
        assert_eq!(game.states[player].armies as usize, 35 - claims);
        assert_eq!(game.armies_in_box[player], 145);
    }
    assert_accounts(&game);
}

#[test]
fn the_classic_board_is_set_up_for_every_number_of_players() {
    for (seats, reserve) in [(2, 50), (3, 35), (4, 30), (5, 25), (6, 20)] {
        let mut game = Game::new(random_players(seats), BoardStruct::new(BoardType::ClassicBoard, seats));
        let first = game.setup().unwrap();
        assert!(first < seats);
        assert!(game.board.free_territories.is_empty());
        let mut occupied = 0;
        for state in &game.states {
            assert!(state.territories.len() == 42 / seats || state.territories.len() == 42 / seats + 1);
            assert_eq!(state.armies as usize + state.territories.len(), reserve);
            occupied += state.territories.len();
        }
        assert_eq!(occupied, 42);
        for continent in &game.board.continents {
            assert_eq!(continent.territories_per_player.iter().sum::<u32>(), continent.size);
        }
        for player in 0..seats {
            assert_eq!(game.armies_in_box[player] as usize, 180 - reserve);
        }
        assert_accounts(&game);
    }
}

#[test]
fn a_claim_off_the_list_ends_the_setup() {
    let players: Vec<Box<dyn Player>> = vec![
        Box::new(Scripted::new("One").claiming(vec![0, 5])),
        Box::new(Scripted::new("Two").claiming(vec![0, 5])),
    ];
    let mut game = Game::new(players, row(6, 2, 0));
    let result = game.setup();
    assert!(matches!(
        result,
        Err(GameError::IllegalDecision { decision: Decision::Claim, .. })
    ));
    assert_eq!(game.board.free_territories.len(), 4);
    assert_accounts(&game);
}

#[test]
fn a_reserve_that_runs_out_ends_the_setup() {
    let players: Vec<Box<dyn Player>> =
        vec![Box::new(Scripted::new("One")), Box::new(Scripted::new("Two"))];
    let mut game = Game::new(players, row(102, 2, 0));
    let result = game.setup();
    assert!(matches!(
        result,
        Err(GameError::InsufficientArmies { requested: 1, available: 0, .. })
    ));
    assert_eq!(game.board.free_territories.len(), 2);
    assert_accounts(&game);
}

#[test]
fn a_box_that_is_too_empty_ends_the_setup() {
    let mut game = Game::new(random_players(2), row(2, 2, 0));
    assert_eq!(game.fund(1, 131), Ok(()));
    assert_eq!(
        game.setup(),
        Err(GameError::InsufficientArmies { player: 1, requested: 50, available: 49 })
    );
    assert_eq!(game.states[0].armies, 50);
    assert_eq!(game.states[1].armies, 131);
    assert_accounts(&game);
}

#[test]
fn the_box_funds_the_reserve() {
    let mut game = Game::new(random_players(2), row(2, 2, 0));
    assert_eq!(game.assert_enough_armies(0, 180), Ok(()));
    assert_eq!(
        game.assert_enough_armies(0, 181),
        Err(GameError::InsufficientArmies { player: 0, requested: 181, available: 180 })
    );
    assert_eq!(game.fund(0, 180), Ok(()));
    assert_eq!(game.states[0].armies, 180);
    assert_eq!(game.armies_in_box, vec![0, 180]);
    assert_eq!(
        game.fund(0, 1),
        Err(GameError::InsufficientArmies { player: 0, requested: 1, available: 0 })
    );
    assert_eq!(game.fund(0, 0), Ok(()));
    assert_accounts(&game);
}

#[test]
fn a_player_receives_three_armies_at_least() {
    let mut game = game_on_row(4, random_players(2));
    assert_eq!(game.army_accumulation(0), 3);
    assert_eq!(game.states[0].armies, 8 + 3);
    assert_eq!(game.armies_in_box[0], 170 - 3);
    assert_accounts(&game);
}

#[test]
fn a_player_receives_an_army_for_every_three_territories() {
    let mut game = Game::new(random_players(2), row(30, 2, 0));
    for player in 0..2 {
        assert_eq!(game.fund(player, 20), Ok(()));
    }
    for territory in 0..30 {
        let player = if territory < 17 { 0 } else { 1 };
        assert_eq!(game.board.claim_territory(0, &mut game.states[player]), Ok(()));
    }
    assert_eq!(game.army_accumulation(0), 5);
    assert_eq!(game.army_accumulation(1), 4);
    assert_eq!(game.states[0].armies, 3 + 5);
    assert_eq!(game.states[1].armies, 7 + 4);
    assert_accounts(&game);
}

#[test]
fn a_player_receives_the_reward_of_its_continents() {
    let first = Continent::new("First", 2, 5, 2);
    let second = Continent::new("Second", 2, 7, 1);
    let third = Continent::new("Third", 2, 2, 1);
    let territories = vec![
        Territory::new("One", 0),
        Territory::new("Two", 0),
        Territory::new("Three", 1),
        Territory::new("Four", 2),
    ];
    let board = BoardStruct::generate_board(
        BoardType::Unimplemented,
        vec![first, second, third],
        territories,
        0,
    );
    let mut game = Game::new(random_players(2), board);
    assert_eq!(game.fund(0, 10), Ok(()));
    assert_eq!(game.fund(1, 10), Ok(()));
    for territory in 0..4 {
        let player = if territory < 3 { 0 } else { 1 };
        assert_eq!(game.board.claim_territory(0, &mut game.states[player]), Ok(()));
    }
    assert_eq!(game.states[0].continents, vec![0, 1]);
    assert_eq!(game.states[1].continents, vec![2]);
    assert_eq!(game.army_accumulation(0), 3 + 5 + 7);
    assert_eq!(game.army_accumulation(1), 3 + 2);
    assert_accounts(&game);
}

#[test]
fn a_player_receives_no_more_than_the_box_holds() {
    let first = Continent::new("First", 2, 5, 1);
    let second = Continent::new("Second", 2, 7, 1);
    let territories = vec![Territory::new("One", 0), Territory::new("Two", 1)];
    let board =
        BoardStruct::generate_board(BoardType::Unimplemented, vec![first, second], territories, 0);
    let mut game = Game::new(random_players(2), board);
    assert_eq!(game.fund(0, 176), Ok(()));
    assert_eq!(game.fund(1, 180), Ok(()));
    assert_eq!(game.board.claim_territory(0, &mut game.states[0]), Ok(()));
    assert_eq!(game.board.claim_territory(0, &mut game.states[1]), Ok(()));
    // Three and the reward of five, but the box holds four.
    assert_eq!(game.army_accumulation(0), 4);
    assert_eq!(game.armies_in_box[0], 0);
    assert_eq!(game.army_accumulation(0), 0);
    assert_eq!(game.army_accumulation(1), 0);
    assert_eq!(game.states[1].armies, 179);
    assert_accounts(&game);
}

#[test]
fn armies_are_placed_on_own_territories() {
    let mut game = game_on_row(4, random_players(2));
    assert_eq!(game.place(0, 2, 4), Ok(()));
    assert_eq!(game.board.territories[2].armies, 5);
    assert_eq!(game.states[0].armies, 4);
    assert_eq!(game.place(0, 2, 0), Ok(()));
    assert_eq!(
        game.place(0, 1, 1),
        Err(GameError::IllegalDecision { player: 0, decision: Decision::Placement })
    );
    assert_eq!(
        game.place(0, 4, 1),
        Err(GameError::IllegalDecision { player: 0, decision: Decision::Placement })
    );
    assert_eq!(
        game.place(0, 0, 5),
        Err(GameError::InsufficientArmies { player: 0, requested: 5, available: 4 })
    );
    assert_eq!(game.place(0, 0, 4), Ok(()));
    assert_eq!(game.states[0].armies, 0);
    assert_eq!(game.board.territories[0].armies, 5);
    assert_accounts(&game);
}

#[test]
fn placements_are_made_one_after_the_other() {
    let mut game = game_on_row(4, random_players(2));
    assert_eq!(game.apply_placements(0, &vec![(0, 2), (2, 1), (0, 3)]), Ok(()));
    assert_eq!(game.board.territories[0].armies, 6);
    assert_eq!(game.board.territories[2].armies, 2);
    assert_eq!(game.states[0].armies, 2);
    assert_eq!(game.apply_placements(0, &vec![]), Ok(()));
    // The first placement stays, the second is refused, the third is not made.
    assert_eq!(
        game.apply_placements(0, &vec![(2, 1), (0, 2), (2, 1)]),
        Err(GameError::InsufficientArmies { player: 0, requested: 2, available: 1 })
    );
    assert_eq!(game.board.territories[2].armies, 3);
    assert_eq!(game.board.territories[0].armies, 6);
    assert_eq!(game.states[0].armies, 1);
    assert_eq!(
        game.apply_placements(0, &vec![(3, 1), (0, 5)]),
        Err(GameError::IllegalDecision { player: 0, decision: Decision::Placement })
    );
    assert_accounts(&game);
}

#[test]
fn the_strategy_decides_the_placements() {
    let players: Vec<Box<dyn Player>> = vec![
        Box::new(Scripted::new("One").placing(vec![(0, 3), (2, 2)])),
        Box::new(Scripted::new("Two").placing(vec![(0, 1)])),
    ];
    let mut game = game_on_row(4, players);
    assert_eq!(game.army_placement(0), Ok(vec![(0, 3), (2, 2)]));
    assert_eq!(game.board.territories[0].armies, 4);
    assert_eq!(game.board.territories[2].armies, 3);
    assert_eq!(game.states[0].armies, 3);
    assert_eq!(
        game.army_placement(1),
        Err(GameError::IllegalDecision { player: 1, decision: Decision::Placement })
    );
    assert_accounts(&game);
}

#[test]
fn losses_go_back_into_the_box() {
    let mut game = game_on_row(2, random_players(2));
    assert_eq!(game.place(0, 0, 5), Ok(()));
    assert_eq!(game.place(1, 1, 3), Ok(()));
    game.inflict(&Attack { dice: 3, attacker: 0, defender: 1 }, 1, 1);
    assert_eq!(game.board.territories[0].armies, 5);
    assert_eq!(game.board.territories[1].armies, 3);
    assert_eq!(game.armies_in_box, vec![171, 171]);
    game.withdraw(0, 4);
    assert_eq!(game.board.territories[0].armies, 1);
    assert_eq!(game.armies_in_box, vec![175, 171]);
    game.inflict(&Attack { dice: 1, attacker: 1, defender: 0 }, 2, 0);
    assert_eq!(game.board.territories[1].armies, 1);
    assert_eq!(game.armies_in_box, vec![175, 173]);
    assert_accounts(&game);
}

/// Three armies attack one with two dice; the defender has one die.
fn three_against_one(capture: Option<u32>) -> Game {
    let mut attacker = Scripted::new("Attacker");
    attacker.capture = capture;
    let players: Vec<Box<dyn Player>> = vec![Box::new(attacker), Box::new(Scripted::new("Defender"))];
    let mut game = game_on_row(2, players);
    assert_eq!(game.place(0, 0, 2), Ok(()));
    assert_eq!(game.board.territories[0].armies, 3);
    assert_eq!(game.board.territories[1].armies, 1);
    game
}

#[test]
fn a_won_comparison_against_one_army_takes_the_territory() {
    let mut game = three_against_one(None);
    let attack = Attack { dice: 2, attacker: 0, defender: 1 };
    assert!(game.board.allows_attack(0, &attack));
    assert!(game.board.allows_defense(&attack, 1));
    assert!(!game.board.allows_defense(&attack, 2));
    let report = game.settle(0, &attack, vec![2, 5], vec![4]).unwrap();
    assert_eq!(
        report,
        BattleReport {
            attack,
            attacker_rolls: vec![2, 5],
            defender_rolls: vec![4],
            attacker_losses: 0,
            defender_losses: 1,
            moved: Some(2),
            defeated: Some(1)
        }
    );
    assert_eq!(game.board.territories[1].player, Some(0));
    assert_eq!(game.board.territories[1].armies, 2);
    assert_eq!(game.board.territories[0].armies, 1);
    assert_eq!(game.board.continents[0].territories_per_player, vec![2, 0]);
    assert_eq!(game.states[0].territories, vec![0, 1]);
    assert_eq!(game.states[0].continents, vec![0]);
    assert!(game.states[1].territories.is_empty());
    assert_eq!(game.armies_in_box, vec![170, 171]);
    assert_accounts(&game);
}

#[test]
fn a_lost_comparison_costs_the_attacker_an_army() {
    let mut game = three_against_one(None);
    let attack = Attack { dice: 2, attacker: 0, defender: 1 };
    let report = game.settle(0, &attack, vec![4, 3], vec![4]).unwrap();
    assert_eq!(
        report,
        BattleReport {
            attack,
            attacker_rolls: vec![4, 3],
            defender_rolls: vec![4],
            attacker_losses: 1,
            defender_losses: 0,
            moved: None,
            defeated: None
        }
    );
    assert_eq!(game.board.territories[1].player, Some(1));
    assert_eq!(game.board.territories[1].armies, 1);
    assert_eq!(game.board.territories[0].armies, 2);
    assert_eq!(game.armies_in_box, vec![171, 170]);
    assert_eq!(game.defeated_players, 0);
    assert_accounts(&game);
}

#[test]
fn a_defeated_player_is_reported_once() {
    let mut game = three_against_one(Some(2));
    let attack = Attack { dice: 2, attacker: 0, defender: 1 };
    let report = game.settle(0, &attack, vec![6, 6], vec![1]).unwrap();
    assert_eq!(report.defeated, Some(1));
    assert!(game.states[1].defeated);
    assert!(!game.states[0].defeated);
    assert_eq!(game.defeated_players, 1);
    assert!(game.occupies_all(0));
    assert!(!game.occupies_all(1));
    // The winner has nobody left to attack.
    assert!(!game.board.allows_attack(0, &Attack { dice: 1, attacker: 1, defender: 0 }));
    assert_eq!(game.attack(0), Ok(vec![]));
    assert_eq!(game.defeated_players, 1);
    assert_accounts(&game);
}

#[test]
fn a_player_with_territories_left_is_not_defeated() {
    let players: Vec<Box<dyn Player>> =
        vec![Box::new(Scripted::new("One").capturing(3)), Box::new(Scripted::new("Two"))];
    let mut game = game_on_row(4, players);
    assert_eq!(game.place(0, 2, 4), Ok(()));
    let attack = Attack { dice: 3, attacker: 2, defender: 3 };
    let report = game.settle(0, &attack, vec![1, 2, 3], vec![2]).unwrap();
    assert_eq!(
        report,
        BattleReport {
            attack,
            attacker_rolls: vec![1, 2, 3],
            defender_rolls: vec![2],
            attacker_losses: 0,
            defender_losses: 1,
            moved: Some(3),
            defeated: None
        }
    );
    assert_eq!(game.board.territories[3].armies, 3);
    assert_eq!(game.board.territories[2].armies, 2);
    assert_eq!(game.states[1].territories, vec![1]);
    assert_eq!(game.states[0].territories, vec![0, 2, 3]);
    assert!(!game.states[1].defeated);
    assert_eq!(game.defeated_players, 0);
    assert_accounts(&game);
}

#[test]
fn too_few_or_too_many_armies_do_not_move_in() {
    for armies in [0, 1, 3, 4] {
        let mut game = three_against_one(Some(armies));
        let attack = Attack { dice: 2, attacker: 0, defender: 1 };
        assert_eq!(
            game.settle(0, &attack, vec![6, 6], vec![1]),
            Err(GameError::IllegalDecision { player: 0, decision: Decision::Capture })
        );
        assert_eq!(game.board.territories[1].player, Some(1));
        assert_eq!(game.board.territories[1].armies, 1);
        assert_eq!(game.board.territories[0].armies, 3);
        assert_eq!(game.armies_in_box, vec![170, 170]);
        assert_eq!(game.defeated_players, 0);
        assert_accounts(&game);
    }
}

#[test]
fn two_dice_defend_two_armies() {
    let players: Vec<Box<dyn Player>> =
        vec![Box::new(Scripted::new("One")), Box::new(Scripted::new("Two"))];
    let mut game = game_on_row(2, players);
    assert_eq!(game.place(0, 0, 3), Ok(()));
    assert_eq!(game.place(1, 1, 1), Ok(()));
    let attack = Attack { dice: 3, attacker: 0, defender: 1 };
    let report = game.settle(0, &attack, vec![6, 1, 3], vec![5, 3]).unwrap();
    assert_eq!(
        report,
        BattleReport {
            attack,
            attacker_rolls: vec![6, 1, 3],
            defender_rolls: vec![5, 3],
            attacker_losses: 1,
            defender_losses: 1,
            moved: None,
            defeated: None
        }
    );
    assert_eq!(game.board.territories[0].armies, 3);
    assert_eq!(game.board.territories[1].armies, 1);
    let report = game.settle(0, &Attack { dice: 2, attacker: 0, defender: 1 }, vec![6, 1], vec![5]).unwrap();
    assert_eq!(report.moved, Some(2));
    assert_eq!(game.board.territories[0].armies, 1);
    assert_eq!(game.board.territories[1].armies, 2);
    assert_accounts(&game);
}

#[test]
fn the_capture_moves_armies_within_the_bounds() {
    for moved in 2..=4 {
        let players: Vec<Box<dyn Player>> =
            vec![Box::new(Scripted::new("One")), Box::new(Scripted::new("Two"))];
        let mut game = game_on_row(3, players);
        assert_eq!(game.place(0, 0, 4), Ok(()));
        let attack = Attack { dice: 2, attacker: 0, defender: 1 };
        assert_eq!(game.capture(&attack, moved), Some(1));
        assert_eq!(game.board.territories[1].armies, moved);
        assert_eq!(game.board.territories[0].armies, 5 - moved);
        assert_eq!(game.board.territories[1].player, Some(0));
        assert_eq!(game.armies_in_box[1], 171);
        assert_eq!(game.states[0].continents, vec![0]);
        assert_accounts(&game);
    }
}

#[test]
fn an_attack_against_the_rules_ends_the_phase() {
    let illegal = vec![
        // One army does not attack.
        Attack { dice: 1, attacker: 0, defender: 1 },
        Attack { dice: 2, attacker: 2, defender: 2 },
        Attack { dice: 1, attacker: 1, defender: 0 },
        Attack { dice: 1, attacker: 2, defender: 7 },
        // Four dice, with five armies.
        Attack { dice: 4, attacker: 2, defender: 3 },
        // No dice.
        Attack { dice: 0, attacker: 2, defender: 3 },
        // No neighbor.
        Attack { dice: 1, attacker: 4, defender: 1 },
    ];
    for attack in illegal {
        let defender = Scripted::new("Two");
        let asked = Rc::clone(&defender.asked);
        let players: Vec<Box<dyn Player>> = vec![
            Box::new(Scripted::new("One").attacking(vec![
                attack,
                Attack { dice: 1, attacker: 2, defender: 3 },
            ])),
            Box::new(defender),
        ];
        let mut game = game_on_row(5, players);
        assert_eq!(game.place(0, 2, 4), Ok(()));
        assert_eq!(game.place(0, 4, 2), Ok(()));
        assert_eq!(
            game.attack(0),
            Err(GameError::IllegalDecision { player: 0, decision: Decision::Attack })
        );
        // Nothing was rolled for, and nothing has changed.
        let armies: Vec<u32> = game.board.territories.iter().map(|t| t.armies).collect();
        assert_eq!(armies, vec![1, 1, 5, 1, 3]);
        assert_eq!(game.armies_in_box, vec![170, 170]);
        assert_eq!(asked.get(), 0);
        assert_accounts(&game);
    }
}

#[test]
fn a_defense_against_the_rules_ends_the_phase() {
    for dice in [0, 2, 3] {
        let players: Vec<Box<dyn Player>> = vec![
            Box::new(Scripted::new("One").attacking(vec![Attack { dice: 1, attacker: 2, defender: 3 }])),
            Box::new(Scripted::new("Two").defending(dice)),
        ];
        let mut game = game_on_row(4, players);
        assert_eq!(game.place(0, 2, 2), Ok(()));
        assert_eq!(
            game.attack(0),
            Err(GameError::IllegalDecision { player: 1, decision: Decision::Defense })
        );
        assert_eq!(game.board.territories[2].armies, 3);
        assert_eq!(game.board.territories[3].armies, 1);
        assert_accounts(&game);
    }
}

#[test]
fn the_attacks_of_a_phase_are_settled_in_their_order() {
    let attacks = vec![
        Attack { dice: 3, attacker: 2, defender: 3 },
        Attack { dice: 3, attacker: 2, defender: 3 },
        Attack { dice: 3, attacker: 2, defender: 3 },
    ];
    let players: Vec<Box<dyn Player>> = vec![
        Box::new(Scripted::new("One").attacking(attacks)),
        Box::new(Scripted::new("Two").defending(2)),
    ];
    let mut game = game_on_row(4, players);
    assert_eq!(game.place(0, 2, 8), Ok(()));
    assert_eq!(game.place(1, 3, 8), Ok(()));
    let battles = game.attack(0).unwrap();
    assert_eq!(battles.len(), 3);
    let mut attacker_losses = 0;
    let mut defender_losses = 0;
    for battle in &battles {
        assert_eq!(battle.attack, Attack { dice: 3, attacker: 2, defender: 3 });
        assert_eq!(battle.attacker_rolls.len(), 3);
        assert_eq!(battle.defender_rolls.len(), 2);
        for roll in battle.attacker_rolls.iter().chain(battle.defender_rolls.iter()) {
            assert!((1..=6).contains(roll));
        }
        assert_eq!(
            (battle.attacker_losses, battle.defender_losses),
            rist::combat::battle(&battle.attacker_rolls, &battle.defender_rolls)
        );
        assert_eq!(battle.attacker_losses + battle.defender_losses, 2);
        assert_eq!(battle.moved, None);
        assert_eq!(battle.defeated, None);
        attacker_losses += battle.attacker_losses;
        defender_losses += battle.defender_losses;
    }
    assert_eq!(game.board.territories[2].armies, 9 - attacker_losses);
    assert_eq!(game.board.territories[3].armies, 9 - defender_losses);
    assert_eq!(game.armies_in_box, vec![170 + attacker_losses, 170 + defender_losses]);
    assert_accounts(&game);
}

#[test]
fn a_turn_reinforces_places_and_attacks() {
    let players: Vec<Box<dyn Player>> = vec![
        Box::new(
            Scripted::new("One")
                .placing(vec![(0, 11)])
                .attacking(vec![Attack { dice: 3, attacker: 0, defender: 1 }]),
        ),
        Box::new(Scripted::new("Two")),
    ];
    let mut game = game_on_row(2, players);
    let report = game.take_turn(0).unwrap();
    assert_eq!(report.received, 3);
    assert_eq!(report.placements, vec![(0, 11)]);
    assert_eq!(report.battles.len(), 1);
    assert_eq!(game.states[0].armies, 9 + 3 - 11);
    let battle = &report.battles[0];
    assert_eq!(battle.attacker_losses + battle.defender_losses, 1);
    if battle.defender_losses == 1 {
        assert_eq!(battle.moved, Some(3));
        assert_eq!(battle.defeated, Some(1));
        assert!(report.won);
        assert!(game.occupies_all(0));
        assert_eq!(game.board.territories[0].armies, 9);
        assert_eq!(game.board.territories[1].armies, 3);
    } else {
        assert!(!report.won);
        assert_eq!(game.board.territories[0].armies, 11);
        assert_eq!(game.board.territories[1].armies, 1);
    }
    assert_accounts(&game);
}

#[test]
fn a_winner_who_does_not_occupy_everything_is_an_error() {
    let players: Vec<Box<dyn Player>> =
        vec![Box::new(Scripted::new("One")), Box::new(Scripted::new("Two"))];
    let mut game = game_on_row(2, players);
    // A count of defeated players that the board does not bear out.
    game.defeated_players = 1;
    assert!(matches!(game.take_turn(0), Err(GameError::InvariantViolation { player: 0 })));
}

#[test]
fn the_turns_run_out() {
    let players: Vec<Box<dyn Player>> =
        vec![Box::new(Scripted::new("One")), Box::new(Scripted::new("Two"))];
    let mut game = game_on_row(2, players);
    assert_eq!(game.play(Some(1)), Ok(Played { outcome: Outcome::Incomplete, turn: 1 }));
    assert_eq!(game.play(Some(0)), Ok(Played { outcome: Outcome::Incomplete, turn: 1 }));
    assert_eq!(game.states[0].armies + game.states[1].armies, 18);
    // Turn one to four are taken; turn five is not.
    assert_eq!(game.play(Some(5)), Ok(Played { outcome: Outcome::Incomplete, turn: 5 }));
    assert_eq!(game.states[0].armies, 9 + 6);
    assert_eq!(game.states[1].armies, 9 + 6);
    assert_eq!(game.armies_in_box, vec![164, 164]);
    assert_accounts(&game);
}

#[test]
fn the_players_take_turns_in_their_order() {
    let game = game_on_row(3, random_players(3));
    assert_eq!(game.next_player(0), 1);
    assert_eq!(game.next_player(1), 2);
    assert_eq!(game.next_player(2), 0);
}

#[test]
fn random_players_play_by_the_rules() {
    for seats in 2..=6 {
        let mut game =
            Game::new(random_players(seats), BoardStruct::new(BoardType::ClassicBoard, seats));
        game.setup().unwrap();
        let played = game.play(Some(60)).unwrap();
        assert_accounts(&game);
        assert!(played.turn >= 1 && played.turn <= 60);
        match played.outcome {
            Outcome::Victory(winner) => {
                assert!(game.occupies_all(winner));
                assert_eq!(game.defeated_players, seats - 1);
            }
            Outcome::Incomplete => {
                assert_eq!(played.turn, 60);
                assert!(game.defeated_players < seats - 1);
            }
        }
    }
}

#[test]
fn random_players_play_on_a_small_board() {
    for _ in 0..20 {
        let mut game = Game::new(random_players(2), row(12, 2, 1));
        game.setup().unwrap();
        match game.play(Some(300)).unwrap().outcome {
            Outcome::Victory(winner) => {
                assert!(game.occupies_all(winner));
                assert!(game.states[1 - winner].defeated);
                assert!(game.states[1 - winner].territories.is_empty());
                assert_eq!(game.states[winner].continents, vec![0]);
            }
            Outcome::Incomplete => {
                assert_eq!(game.defeated_players, 0);
            }
        }
        assert_accounts(&game);
    }
}

#[test]
fn a_player_who_keeps_attacking_one_army_wins() {
    let attack = Attack { dice: 3, attacker: 0, defender: 1 };
    let mut attacker = Scripted::new("One").placing(vec![(0, 3)]);
    attacker.repeat = Some(attack);
    let players: Vec<Box<dyn Player>> = vec![Box::new(attacker), Box::new(Scripted::new("Two"))];
    let mut game = game_on_row(2, players);
    let played = game.play(Some(400)).unwrap();
    assert_eq!(played.outcome, Outcome::Victory(0));
    assert!(played.turn < 400);
    assert!(game.occupies_all(0));
    assert!(game.states[1].defeated);
    assert!(!game.states[0].defeated);
    assert_eq!(game.defeated_players, 1);
    assert_eq!(game.board.territories[1].armies, 3);
    assert_eq!(game.states[0].continents, vec![0]);
    assert_accounts(&game);
    // Nobody is left to play against: the winner wins again with every turn.
    assert_eq!(game.play(Some(400)), Ok(Played { outcome: Outcome::Victory(0), turn: 1 }));
}

#[test]
fn a_game_of_defeated_players_ends_without_a_winner() {
    let players: Vec<Box<dyn Player>> =
        vec![Box::new(Scripted::new("One")), Box::new(Scripted::new("Two"))];
    let mut game = Game::new(players, row(2, 2, 0));
    game.states[0].defeated = true;
    game.states[1].defeated = true;
    game.defeated_players = 2;
    assert_eq!(game.play(None), Ok(Played { outcome: Outcome::Incomplete, turn: 1 }));
}

#[test]
fn a_random_player_attacks_about_half_of_the_times() {
    let mut game = game_on_row(2, random_players(2));
    assert_eq!(game.place(0, 0, 5), Ok(()));
    let player = RandomPlayer::new("Player", Red, White);
    let mut attacks = 0;
    let mut dice = vec![false; 4];
    for _ in 0..400 {
        match player.attack(&game.states[0], &game.board) {
            Some(attack) => {
                attacks += 1;
                assert!(game.board.allows_attack(0, &attack));
                assert_eq!(attack.attacker, 0);
                assert_eq!(attack.defender, 1);
                dice[attack.dice as usize] = true;
            }
            None => {}
        }
    }
    assert!(attacks > 100);
    assert!(attacks < 300);
    assert_eq!(dice, vec![false, true, true, true]);
    // With one army there is no attack.
    assert_eq!(player.attack(&game.states[1], &game.board), None);
}

#[test]
fn a_random_player_decides_within_the_rules() {
    let mut game = game_on_row(6, random_players(2));
    assert_eq!(game.place(0, 0, 3), Ok(()));
    assert_eq!(game.place(1, 1, 2), Ok(()));
    let player = RandomPlayer::new("Player", Red, White);
    let attack = Attack { dice: 2, attacker: 0, defender: 1 };
    let mut claims = vec![false; 4];
    let mut captures = vec![false; 4];
    let mut defenses = vec![false; 3];
    let mut placed_something = false;
    let full = row(4, 2, 0);
    for _ in 0..200 {
        claims[player.claim_territory(&full)] = true;
        let capture = player.capture(&game.states[0], &game.board, &attack);
        assert!(game.board.allows_capture(&attack, capture));
        captures[capture as usize] = true;
        let defense = player.defend(&game.states[1], &game.board, &attack);
        assert!(game.board.allows_defense(&attack, defense));
        defenses[defense as usize] = true;
        assert_eq!(
            player.defend(&game.states[0], &game.board, &Attack { dice: 1, attacker: 1, defender: 2 }),
            1
        );
        let placements = player.place_armies(&game.states[1], &game.board);
        // Of three territories one at most is chosen, and never the last.
        assert!(placements.len() <= 1);
        let mut placed = 0;
        for (territory, armies) in placements {
            assert_eq!(game.board.territories[territory].player, Some(1));
            assert_ne!(territory, 5);
            assert!(armies > 0);
            placed += armies;
        }
        // Never all of the reserve.
        assert!(placed < game.states[1].armies);
        placed_something = placed_something || placed > 0;
    }
    assert_eq!(claims, vec![true; 4]);
    // Two or three of the four armies move in.
    assert_eq!(captures, vec![false, false, true, true]);
    // Three armies are defended with one die or with two.
    assert_eq!(defenses, vec![false, true, true]);
    assert!(placed_something);
}

#[test]
fn the_game_goes_on_player_by_player() {
    let players: Vec<Box<dyn Player>> = vec![
        Box::new(Scripted::new("One")),
        Box::new(Scripted::new("Two")),
        Box::new(Scripted::new("Three")),
    ];
    let mut game = game_on_row(3, players);
    game.states[1].defeated = true;
    game.defeated_players = 1;
    let begun = game.begin();
    assert!(begun.player < 3);
    assert_eq!(begun.turn, 1);
    assert_eq!(begun.passed_over, 0);

    let mut progress = Progress { player: 0, turn: 1, passed_over: 0 };
    match game.advance(&mut progress, None).unwrap() {
        Step::Turn(report) => {
            assert_eq!(report.received, 3);
            assert!(report.placements.is_empty());
            assert!(report.battles.is_empty());
            assert!(!report.won);
        }
        _ => panic!("Player 0 takes its turn."),
    }
    assert_eq!(progress, Progress { player: 1, turn: 2, passed_over: 0 });
    assert!(matches!(game.advance(&mut progress, None), Ok(Step::PassedOver)));
    assert_eq!(progress, Progress { player: 2, turn: 2, passed_over: 1 });
    assert!(matches!(game.advance(&mut progress, Some(2)), Ok(Step::Stopped)));
    assert_eq!(progress, Progress { player: 2, turn: 2, passed_over: 1 });
    assert!(matches!(game.advance(&mut progress, Some(3)), Ok(Step::Turn(_))));
    assert_eq!(progress, Progress { player: 0, turn: 3, passed_over: 0 });
    assert_eq!(game.states[2].armies, 9 + 3);
    assert!(matches!(game.advance(&mut progress, Some(3)), Ok(Step::Stopped)));
    assert_accounts(&game);
}

#[test]
fn a_winning_turn_keeps_the_turn() {
    let mut game = three_against_one(None);
    let attack = Attack { dice: 2, attacker: 0, defender: 1 };
    game.settle(0, &attack, vec![6, 6], vec![1]).unwrap();
    let mut progress = Progress { player: 1, turn: 7, passed_over: 0 };
    assert!(matches!(game.advance(&mut progress, None), Ok(Step::PassedOver)));
    assert_eq!(progress, Progress { player: 0, turn: 7, passed_over: 1 });
    match game.advance(&mut progress, None).unwrap() {
        Step::Turn(report) => assert!(report.won),
        _ => panic!("Player 0 takes its turn."),
    }
    assert_eq!(progress, Progress { player: 0, turn: 7, passed_over: 0 });
}

#[test]
fn a_failing_turn_keeps_the_turn() {
    let players: Vec<Box<dyn Player>> = vec![
        Box::new(Scripted::new("One").placing(vec![(1, 1)])),
        Box::new(Scripted::new("Two")),
    ];
    let mut game = game_on_row(2, players);
    let mut progress = Progress { player: 0, turn: 4, passed_over: 0 };
    assert!(matches!(
        game.advance(&mut progress, None),
        Err(GameError::IllegalDecision { player: 0, decision: Decision::Placement })
    ));
    assert_eq!(progress, Progress { player: 0, turn: 4, passed_over: 0 });
    // The armies that the player has received stay in its reserve.
    assert_eq!(game.states[0].armies, 9 + 3);
    assert_accounts(&game);
}

#[test]
fn a_random_player_with_one_territory_places_nothing() {
    let game = game_on_row(2, random_players(2));
    let player = RandomPlayer::new("Player", Red, White);
    for _ in 0..50 {
        assert!(player.place_armies(&game.states[0], &game.board).is_empty());
    }
}

#[test]
fn the_battles_of_a_phase_make_the_game() {
    let attacks = vec![
        Attack { dice: 3, attacker: 2, defender: 3 },
        Attack { dice: 2, attacker: 2, defender: 1 },
        Attack { dice: 1, attacker: 0, defender: 1 },
    ];
    let players: Vec<Box<dyn Player>> = vec![
        Box::new(Scripted::new("One").attacking(attacks)),
        Box::new(Scripted::new("Two").defending(1)),
    ];
    let mut game = game_on_row(4, players);
    assert_eq!(game.place(0, 2, 6), Ok(()));
    assert_eq!(game.place(0, 0, 1), Ok(()));
    assert_eq!(game.place(1, 3, 2), Ok(()));
    let mut armies: Vec<u32> = game.board.territories.iter().map(|t| t.armies).collect();
    let mut occupants: Vec<Option<usize>> = game.board.territories.iter().map(|t| t.player).collect();
    let mut boxes = game.armies_in_box.clone();
    let battles = match game.attack(0) {
        Ok(battles) => battles,
        // A territory that was taken cannot be attacked again.
        Err(error) => {
            assert_eq!(error, GameError::IllegalDecision { player: 0, decision: Decision::Attack });
            assert_accounts(&game);
            return;
        }
    };
    for battle in &battles {
        let attack = battle.attack;
        let loser = occupants[attack.defender].unwrap();
        assert_eq!(occupants[attack.attacker], Some(0));
        assert_eq!(
            (battle.attacker_losses, battle.defender_losses),
            rist::combat::battle(&battle.attacker_rolls, &battle.defender_rolls)
        );
        boxes[0] += battle.attacker_losses;
        boxes[loser] += battle.defender_losses;
        armies[attack.attacker] -= battle.attacker_losses;
        armies[attack.defender] -= battle.defender_losses;
        match battle.moved {
            Some(moved) => {
                assert_eq!(armies[attack.defender], 0);
                assert!(attack.dice <= moved && moved < armies[attack.attacker]);
                armies[attack.attacker] -= moved;
                armies[attack.defender] = moved;
                occupants[attack.defender] = Some(0);
            }
            None => assert!(armies[attack.defender] > 0),
        }
    }
    let now: Vec<u32> = game.board.territories.iter().map(|t| t.armies).collect();
    let held: Vec<Option<usize>> = game.board.territories.iter().map(|t| t.player).collect();
    assert_eq!(now, armies);
    assert_eq!(held, occupants);
    assert_eq!(game.armies_in_box, boxes);
    assert_accounts(&game);
}

#[test]
fn a_limit_of_one_turn_leaves_the_game_as_it_is() {
    for limit in [0, 1] {
        let one = Scripted::new("One").placing(vec![(0, 1)]);
        let asked = Rc::clone(&one.asked);
        let players: Vec<Box<dyn Player>> = vec![Box::new(one), Box::new(Scripted::new("Two"))];
        let mut game = game_on_row(2, players);
        assert_eq!(
            game.play(Some(limit)),
            Ok(Played { outcome: Outcome::Incomplete, turn: 1 })
        );
        assert_eq!(asked.get(), 0);
        assert_eq!(game.states[0].armies, 9);
        assert_eq!(game.states[1].armies, 9);
        assert_eq!(game.armies_in_box, vec![170, 170]);
        assert_eq!(game.board.territories[0].armies, 1);
    }
}

#[test]
fn the_limit_bounds_the_turns() {
    for limit in 2..12u64 {
        let one = Scripted::new("One");
        let two = Scripted::new("Two");
        let asked_one = Rc::clone(&one.asked);
        let asked_two = Rc::clone(&two.asked);
        let players: Vec<Box<dyn Player>> = vec![Box::new(one), Box::new(two)];
        let mut game = game_on_row(2, players);
        assert_eq!(
            game.play(Some(limit)),
            Ok(Played { outcome: Outcome::Incomplete, turn: limit })
        );
        // Every turn asks for placements and for an attack.
        assert_eq!(asked_one.get() + asked_two.get(), 2 * (limit as usize - 1));
        assert_eq!(game.defeated_players, 0);
        assert_eq!(
            game.states[0].armies + game.states[1].armies,
            18 + 3 * (limit as u32 - 1)
        );
        assert_accounts(&game);
    }
}

#[test]
fn a_defeated_player_is_not_asked_again() {
    let attack = Attack { dice: 3, attacker: 0, defender: 1 };
    let mut one = Scripted::new("One").placing(vec![(0, 3)]);
    one.repeat = Some(attack);
    let two = Scripted::new("Two");
    let asked = Rc::clone(&two.asked);
    let players: Vec<Box<dyn Player>> =
        vec![Box::new(one), Box::new(two), Box::new(Scripted::new("Three"))];
    let mut game = game_on_row(3, players);
    let mut progress = Progress { player: 0, turn: 1, passed_over: 0 };
    let mut steps = 0;
    while !game.states[1].defeated {
        assert!(matches!(game.advance(&mut progress, None), Ok(Step::Turn(_))));
        steps += 1;
        assert!(steps < 300);
    }
    assert_eq!(game.defeated_players, 1);
    assert!(game.states[1].territories.is_empty());
    let questions = asked.get();
    let reserve = game.states[1].armies;
    let in_box = game.armies_in_box[1];
    let mut passed_over = 0;
    for _ in 0..30 {
        let player = progress.player;
        match game.advance(&mut progress, None).unwrap() {
            Step::PassedOver => {
                assert_eq!(player, 1);
                passed_over += 1;
            }
            Step::Turn(report) => {
                assert_ne!(player, 1);
                assert!(!report.won);
            }
            Step::Stopped => panic!("The game goes on."),
        }
    }
    assert_eq!(passed_over, 10);
    assert_eq!(asked.get(), questions);
    assert_eq!(game.states[1].armies, reserve);
    assert_eq!(game.armies_in_box[1], in_box);
    assert_eq!(game.defeated_players, 1);
    assert!(game.states[1].defeated);
    assert_accounts(&game);
}
