//! Territories: the regions of the board, with their neighbors, their armies
//! and their occupant.
use crate::error::{Decision, GameError};
use crate::players::player_state::PlayerState;
use vstd::prelude::*;
use vstd::string::*;

verus! {

/// A single territory of the board.
#[derive(Debug)]
pub struct Territory {
    /// The position of the territory on its board.
    pub index: usize,
    pub name: String,
    /// The first letters of the name in upper case, for the map.
    pub abbr: String,
    /// The positions of the neighboring territories.
    pub connections: Vec<usize>,
    /// The position of the continent that the territory belongs to.
    pub continent: usize,
    /// The armies that stand on the territory.
    pub armies: u32,
    /// The index of the player that occupies the territory, if any does.
    pub player: Option<usize>,
}

/// The number of letters of a name that its abbreviation keeps.
pub const ABBREVIATION_LENGTH: usize = 5;

/// The upper-case form of a text, as `str::to_uppercase` of the standard
/// library gives it.
pub uninterp spec fn uppercase(text: Seq<char>) -> Seq<char>;

/// The upper-case form of `text`.
///
/// Calls `str::to_uppercase`, whose result depends on the text alone.
#[verifier::external_body]
fn to_uppercase(text: &str) -> (upper: String)
    ensures
        upper@ == uppercase(text@),
{
    text.to_uppercase()
}

/// The abbreviation of a name: its first letters, at most
/// `ABBREVIATION_LENGTH` of them, in upper case.
pub open spec fn abbreviation(name: Seq<char>) -> Seq<char> {
    if name.len() <= ABBREVIATION_LENGTH {
        uppercase(name)
    } else {
        uppercase(name.take(ABBREVIATION_LENGTH as int))
    }
}

impl Territory {
    /// A territory of `continent` that has no neighbors, no armies and no occupant.
    pub fn new(name: &str, continent: usize) -> (territory: Territory)
        ensures
            territory.index == 0,
            territory.name@ == name@,
            territory.abbr@ == abbreviation(name@),
            territory.connections@ == Seq::<usize>::empty(),
            territory.continent == continent,
            territory.armies == 0,
            territory.player is None,
    {
        let letters: usize = name.unicode_len();
        let kept: usize = if letters <= ABBREVIATION_LENGTH {
            letters
        } else {
            ABBREVIATION_LENGTH
        };
        let head: &str = name.substring_char(0, kept);
        assert(head@ == if name@.len() <= ABBREVIATION_LENGTH {
            name@
        } else {
            name@.take(ABBREVIATION_LENGTH as int)
        });
        Territory {
            index: 0,
            name: name.to_owned(),
            abbr: to_uppercase(head),
            connections: Vec::new(),
            continent,
            armies: 0,
            player: None,
        }
    }

    /// Makes `connections` the neighbors of the territory.
    pub fn create_connections(&mut self, connections: Vec<usize>)
        ensures
            *final(self) == (Territory { connections, ..*old(self) }),
    {
        self.connections = connections;
    }

    /// The index of the player that occupies the territory, if any does.
    pub fn get_player(&self) -> (occupant: Option<usize>)
        ensures
            occupant == self.player,
    {
        self.player
    }

    /// Whether `other` is a neighbor of the territory.
    pub fn borders(&self, other: usize) -> (adjacent: bool)
        ensures
            adjacent == self.connections@.contains(other),
    {
        crate::holdings::holds(&self.connections, other)
    }

    /// Why `player` may not place `armies` armies on the territory, if it may not:
    /// another player occupies it, or the reserve of `player` is too small.
    pub open spec fn placement_refusal(self, player: PlayerState, armies: u32) -> Option<
        GameError,
    > {
        if self.player is Some && self.player != Some(player.index) {
            Some(GameError::IllegalDecision { player: player.index, decision: Decision::Placement })
        } else if player.armies < armies {
            Some(
                GameError::InsufficientArmies {
                    player: player.index,
                    requested: armies,
                    available: player.armies,
                },
            )
        } else {
            None
        }
    }

    /// Moves `armies` armies from the reserve of `player` onto the territory,
    /// which `player` occupies or nobody does. Where that is refused nothing
    /// changes.
    pub fn place_armies(&mut self, player: &mut PlayerState, armies: u32) -> (result: Result<
        (),
        GameError,
    >)
        requires
            old(self).armies + armies <= u32::MAX,
        ensures
            match result {
                Ok(()) => {
                    &&& old(self).placement_refusal(*old(player), armies) is None
                    &&& *final(self) == (Territory {
                        armies: (old(self).armies + armies) as u32,
                        ..*old(self)
                    })
                    &&& *final(player) == (PlayerState {
                        armies: (old(player).armies - armies) as u32,
                        ..*old(player)
                    })
                },
                Err(error) => {
                    &&& old(self).placement_refusal(*old(player), armies) == Some(error)
                    &&& *final(self) == *old(self)
                    &&& *final(player) == *old(player)
                },
            },
    {
        if let Some(occupant) = self.player {
            if occupant != player.index {
                return Err(
                    GameError::IllegalDecision {
                        player: player.index,
                        decision: Decision::Placement,
                    },
                );
            }
        }
        if player.armies < armies {
            return Err(
                GameError::InsufficientArmies {
                    player: player.index,
                    requested: armies,
                    available: player.armies,
                },
            );
        }
        self.armies = self.armies + armies;
        player.armies = player.armies - armies;
        Ok(())
    }
}

/// Numbers the territories by their position in the list.
pub fn generate_ids(territories: &mut Vec<Territory>)
    ensures
        final(territories)@.len() == old(territories)@.len(),
        forall|i: int|
            0 <= i < old(territories)@.len() ==> #[trigger] final(territories)@[i] == (Territory {
                index: i as usize,
                ..old(territories)@[i]
            }),
{
    let mut i: usize = 0;
    while i < territories.len()
        invariant
            i <= territories@.len(),
            territories@.len() == old(territories)@.len(),
            forall|j: int|
                0 <= j < i ==> #[trigger] territories@[j] == (Territory {
                    index: j as usize,
                    ..old(territories)@[j]
                }),
            forall|j: int| i <= j < territories@.len() ==> territories@[j] == old(territories)@[j],
        decreases territories@.len() - i,
    {
        territories[i].index = i;
        i += 1;
    }
}

} // verus!
