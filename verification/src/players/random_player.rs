//! A player that decides by chance, within the rules.
use crate::boards::{BoardStruct, MAX_ATTACK_DICE, MAX_DEFENSE_DICE};
use crate::dice::{draw_below, draw_inclusive, flip};
use crate::players::player::{Player, PlayerType};
use crate::players::player_state::PlayerState;
use crate::tally::{lemma_sum_by_push, sum_by};
use crate::{amount_weight, Attack};
use colored::Color;
use vstd::prelude::*;

verus! {

/// A player whose strategy is chance.
pub struct RandomPlayer {
    pub state: PlayerState,
}

impl RandomPlayer {
    /// A random player of this name and these colors.
    pub fn new(name: &str, background: Color, foreground: Color) -> (player: RandomPlayer)
        ensures
            player.state.player_type == PlayerType::RandomPlayer,
            player.state.name@ == name@,
            player.state.background == background,
            player.state.foreground == foreground,
            player.state.armies == 0,
            player.state.territories@.len() == 0,
            player.state.continents@.len() == 0,
            !player.state.defeated,
    {
        RandomPlayer { state: PlayerState::new(PlayerType::RandomPlayer, name, background, foreground) }
    }
}

/// A number drawn from zero up to but not including `bound`.
fn draw_index(bound: usize) -> (drawn: usize)
    requires
        bound > 0,
    ensures
        drawn < bound,
{
    draw_below(0, bound as u64) as usize
}

/// A number of armies drawn from `low` up to but not including `high`.
fn draw_armies(low: u32, high: u32) -> (drawn: u32)
    requires
        low < high,
    ensures
        low <= drawn < high,
{
    draw_below(low as u64, high as u64) as u32
}

impl Player for RandomPlayer {
    fn get_state(&self) -> (state: &PlayerState)
        ensures
            *state == self.state,
    {
        &self.state
    }

    /// Claims any of the free territories.
    fn claim_territory(&self, board: &BoardStruct) -> (index: usize)
        ensures
            index < board.free_territories@.len(),
    {
        draw_inclusive(0, (board.free_territories.len() - 1) as u64) as usize
    }

    /// Places some armies of the reserve, but never all, on some of the
    /// territories of the player, each chosen by chance; none if the player
    /// occupies fewer than two territories. The territory that the player has
    /// listed last is never chosen, and the placements are fewer than the
    /// territories of the player by two at least.
    fn place_armies(&self, player: &PlayerState, board: &BoardStruct) -> (placements: Vec<
        (usize, u32),
    >)
        ensures
            forall|i: int|
                0 <= i < placements@.len() ==> player.territories@.contains(
                    (#[trigger] placements@[i]).0,
                ) && placements@[i].1 > 0,
            0 <= sum_by(placements@, amount_weight()) <= player.armies,
            forall|i: int|
                0 <= i < placements@.len() ==> player.territories@.drop_last().contains(
                    (#[trigger] placements@[i]).0,
                ),
            placements@.len() == 0 || placements@.len() + 2 <= player.territories@.len(),
            placements@.len() == 0 || sum_by(placements@, amount_weight()) < player.armies,
    {
        let mut placements: Vec<(usize, u32)> = Vec::new();
        let held: usize = player.territories.len();
        if held < 2 {
            return placements;
        }
        let rounds: usize = draw_index(held - 1);
        let mut armies_placed: u32 = 0;
        let mut round: usize = 0;
        while round < rounds
            invariant
                held == player.territories@.len(),
                held >= 2,
                round <= rounds,
                rounds + 2 <= held,
                placements@.len() <= round,
                armies_placed <= player.armies,
                armies_placed == sum_by(placements@, amount_weight()),
                placements@.len() == 0 || armies_placed < player.armies,
                forall|i: int|
                    0 <= i < placements@.len() ==> player.territories@.contains(
                        (#[trigger] placements@[i]).0,
                    ) && placements@[i].1 > 0,
                forall|i: int|
                    0 <= i < placements@.len() ==> player.territories@.drop_last().contains(
                        (#[trigger] placements@[i]).0,
                    ),
            decreases rounds - round,
        {
            let at: usize = draw_index(held - 1);
            let territory: usize = player.territories[at];
            if armies_placed < player.armies {
                let armies: u32 = draw_armies(0, player.armies - armies_placed);
                if armies > 0 {
                    proof {
                        lemma_sum_by_push(placements@, amount_weight(), (territory, armies));
                        assert(player.territories@.drop_last()[at as int] == territory);
                    }
                    placements.push((territory, armies));
                    armies_placed = armies_placed + armies;
                }
            }
            round += 1;
        }
        placements
    }

    /// Attacks half of the times, as long as an attack is possible: from any
    /// territory of the player with at least two armies, on any neighbor that
    /// another player occupies, with any number of dice that the rules allow.
    fn attack(&self, player: &PlayerState, board: &BoardStruct) -> (attack: Option<Attack>)
        ensures
            match attack {
                Some(attack) => board.attack_allowed(player.index, attack),
                None => true,
            },
    {
        if flip() {
            return None;
        }
        let mut attacks: Vec<Attack> = Vec::new();
        let mut i: usize = 0;
        while i < player.territories.len()
            invariant
                board.wf(),
                board.agrees_with(*player),
                i <= player.territories@.len(),
                forall|j: int|
                    0 <= j < attacks@.len() ==> board.attack_allowed(
                        player.index,
                        #[trigger] attacks@[j],
                    ),
            decreases player.territories@.len() - i,
        {
            let from: usize = player.territories[i];
            proof {
                assert(player.territories@.contains(from));
                assert(board.territory_ok(from as int));
            }
            let territory = &board.territories[from];
            if territory.armies >= 2 {
                let mut k: usize = 0;
                while k < territory.connections.len()
                    invariant
                        board.wf(),
                        board.agrees_with(*player),
                        from < board.territories@.len(),
                        *territory == board.territories@[from as int],
                        territory.player == Some(player.index),
                        territory.armies >= 2,
                        k <= territory.connections@.len(),
                        forall|j: int|
                            0 <= j < attacks@.len() ==> board.attack_allowed(
                                player.index,
                                #[trigger] attacks@[j],
                            ),
                    decreases territory.connections@.len() - k,
                {
                    let target: usize = territory.connections[k];
                    proof {
                        assert(board.territory_ok(from as int));
                        assert(board.link_ok(from as int, k as int));
                    }
                    let hostile: bool = match board.territories[target].player {
                        Some(occupant) => occupant != player.index,
                        None => false,
                    };
                    if hostile {
                        let most: u32 = if territory.armies > MAX_ATTACK_DICE {
                            MAX_ATTACK_DICE + 1
                        } else {
                            territory.armies
                        };
                        let dice: u32 = draw_armies(1, most);
                        attacks.push(Attack { dice, attacker: from, defender: target });
                    }
                    k += 1;
                }
            }
            i += 1;
        }
        if attacks.len() > 0 {
            let chosen: usize = draw_index(attacks.len());
            return Some(attacks[chosen]);
        }
        None
    }

    /// Moves any number of armies that the rules allow into the territory
    /// that was taken.
    fn capture(&self, player: &PlayerState, board: &BoardStruct, attack: &Attack) -> (armies: u32)
        ensures
            board.capture_allowed(*attack, armies),
    {
        let standing: u32 = board.territories[attack.attacker].armies;
        draw_armies(attack.dice, standing)
    }

    /// Defends a territory with one army with one die, and any other with
    /// one die or two.
    fn defend(&self, player: &PlayerState, board: &BoardStruct, attack: &Attack) -> (dice: u32)
        ensures
            board.defense_allowed(*attack, dice),
    {
        if board.territories[attack.defender].armies == 1 {
            return 1;
        }
        proof {
            assert(board.occupant_ok(attack.defender as int));
        }
        draw_armies(1, MAX_DEFENSE_DICE + 1)
    }
}

} // verus!
