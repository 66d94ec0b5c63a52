//! Players: the record that the game keeps of each, and the strategies that
//! decide for them. A strategy reads the board and answers; it never changes it.
pub mod player;
pub mod player_state;
pub mod random_player;

pub use player::{generate_ids, Player, PlayerType};
pub use player_state::PlayerState;
pub use random_player::RandomPlayer;

use vstd::prelude::*;

verus! {

/// The record of a player, under the name that it has for the board.
pub type PlayerStruct = PlayerState;

} // verus!
