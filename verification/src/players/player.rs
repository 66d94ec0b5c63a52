//! The kinds of player and the decisions that a strategy makes.
use crate::boards::BoardStruct;
use crate::players::player_state::PlayerState;
use crate::Attack;
use vstd::prelude::*;

verus! {

/// The kind of strategy that plays for a player.
#[derive(Debug, Clone, Copy, PartialEq, Eq, Structural)]
pub enum PlayerType {
    Unimplemented,
    RandomPlayer,
}

/// Implement this trait to create your own player.
///
/// A strategy is asked with the board and the record of its player as the
/// game keeps them, and answers with a decision. It cannot change either.
/// The game checks every answer against the rules and ends the run on one
/// that breaks them, so an implementation owes the game nothing but an answer.
pub trait Player {
    /// The record that the player enters a game with: its name, its kind and
    /// its colors. The game keeps a record of its own from then on.
    fn get_state(&self) -> &PlayerState;

    /// Allows a player to claim a territory that is not yet claimed.
    /// Returns the index of the territory in the list of free territories.
    fn claim_territory(&self, board: &BoardStruct) -> usize
        requires
            board.wf(),
            board.free_territories@.len() > 0,
    ;

    /// Allows the player to place armies on territories that it occupies.
    /// Returns the territories to place armies on, each with the number of
    /// armies.
    fn place_armies(&self, player: &PlayerState, board: &BoardStruct) -> Vec<(usize, u32)>
        requires
            board.wf(),
            board.agrees_with(*player),
    ;

    /// Gives the player an option to attack. To end the attacking phase the
    /// player returns `None`.
    fn attack(&self, player: &PlayerState, board: &BoardStruct) -> Option<Attack>
        requires
            board.wf(),
            board.agrees_with(*player),
    ;

    /// When a player takes a territory it must move armies into it, no fewer
    /// than the number of dice rolled. Called before the armies move: the
    /// board still shows the defeated armies on the territory.
    fn capture(&self, player: &PlayerState, board: &BoardStruct, attack: &Attack) -> u32
        requires
            board.wf(),
            board.agrees_with(*player),
            board.attack_allowed(player.index, *attack),
    ;

    /// Called when the player is being attacked. The player must return with
    /// how many dice it wishes to defend its territory.
    fn defend(&self, player: &PlayerState, board: &BoardStruct, attack: &Attack) -> u32
        requires
            board.wf(),
            board.agrees_with(*player),
            attack.attacker < board.territories@.len(),
            board.territories@[attack.attacker as int].player is Some,
            board.attack_allowed(board.territories@[attack.attacker as int].player->0, *attack),
            board.territories@[attack.defender as int].player == Some(player.index),
    ;
}

/// Numbers the records of the players by their position in the list.
pub fn generate_ids(players: &mut Vec<PlayerState>)
    ensures
        final(players)@.len() == old(players)@.len(),
        forall|i: int|
            0 <= i < old(players)@.len() ==> #[trigger] final(players)@[i] == (PlayerState {
                index: i as usize,
                ..old(players)@[i]
            }),
{
    let mut i: usize = 0;
    while i < players.len()
        invariant
            i <= players@.len(),
            players@.len() == old(players)@.len(),
            forall|j: int|
                0 <= j < i ==> #[trigger] players@[j] == (PlayerState {
                    index: j as usize,
                    ..old(players)@[j]
                }),
            forall|j: int| i <= j < players@.len() ==> players@[j] == old(players)@[j],
        decreases players@.len() - i,
    {
        players[i].index = i;
        i += 1;
    }
}

} // verus!
