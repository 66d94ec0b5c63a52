//! The record of one player: reserve, occupied territories and continents.
use crate::holdings::{discard, holds, with, without, distinct};
use crate::players::player::PlayerType;
use colored::Color;
use vstd::prelude::*;

verus! {

/// The colors of the `colored` crate. A record carries the two colors of its
/// player through to whoever shows the game; nothing here looks into them.
#[verifier::external_type_specification]
#[verifier::external_body]
pub struct ExColor(Color);

/// What the game knows of one player.
#[derive(Debug)]
pub struct PlayerState {
    pub player_type: PlayerType,
    /// The position of the player in the game's list of players.
    pub index: usize,
    pub name: String,
    /// The reserve: armies held off the board, ready to be placed.
    pub armies: u32,
    /// The territories that the player occupies, each once.
    pub territories: Vec<usize>,
    /// The continents that the player occupies entirely, each once.
    pub continents: Vec<usize>,
    /// The color of the text that is shown for the player.
    pub foreground: Color,
    /// The color behind the text that is shown for the player.
    pub background: Color,
    /// Whether the player has lost its last territory.
    pub defeated: bool,
}

impl PlayerState {
    /// A player that has no armies and occupies nothing.
    pub fn new(player: PlayerType, name: &str, background: Color, foreground: Color) -> (state:
        PlayerState)
        ensures
            state.player_type == player,
            state.index == 0,
            state.name@ == name@,
            state.armies == 0,
            state.territories@ == Seq::<usize>::empty(),
            state.continents@ == Seq::<usize>::empty(),
            state.foreground == foreground,
            state.background == background,
            !state.defeated,
    {
        PlayerState {
            player_type: player,
            index: 0,
            name: name.to_owned(),
            armies: 0,
            territories: Vec::new(),
            continents: Vec::new(),
            foreground,
            background,
            defeated: false,
        }
    }

    /// The record that a player with this name, kind and colors enters a game
    /// with as player `index`: no armies, nothing occupied, not defeated.
    pub fn enter(&self, index: usize) -> (state: PlayerState)
        ensures
            state.player_type == self.player_type,
            state.index == index,
            state.name@ == self.name@,
            state.armies == 0,
            state.territories@ == Seq::<usize>::empty(),
            state.continents@ == Seq::<usize>::empty(),
            state.foreground == self.foreground,
            state.background == self.background,
            !state.defeated,
    {
        let mut state = PlayerState::new(
            self.player_type,
            self.name.as_str(),
            self.background,
            self.foreground,
        );
        state.index = index;
        state
    }

    /// Whether the record lists no territory and no continent twice.
    pub open spec fn wf(self) -> bool {
        &&& distinct(self.territories@)
        &&& distinct(self.continents@)
    }

    /// The territories that the player occupies, in the order in which it
    /// came by them.
    pub fn get_territories(&self) -> (territories: &Vec<usize>)
        ensures
            territories == self.territories,
    {
        &self.territories
    }

    /// Records that the player occupies `territory`. Does nothing if it is
    /// recorded already.
    pub fn add_territory(&mut self, territory: usize)
        ensures
            final(self).territories@ == with(old(self).territories@, territory),
            *final(self) == (PlayerState { territories: final(self).territories, ..*old(self) }),
    {
        if !holds(&self.territories, territory) {
            self.territories.push(territory);
        }
    }

    /// Records that the player no longer occupies `territory`. Does nothing if
    /// it is not recorded.
    pub fn remove_territory(&mut self, item: usize)
        ensures
            final(self).territories@ == without(old(self).territories@, item),
            *final(self) == (PlayerState { territories: final(self).territories, ..*old(self) }),
    {
        discard(&mut self.territories, item);
    }

    /// The continents that the player occupies entirely, in the order in
    /// which it completed them.
    pub fn get_continents(&self) -> (continents: &Vec<usize>)
        ensures
            continents == self.continents,
    {
        &self.continents
    }

    /// Records that the player occupies all of `continent`. Does nothing if it
    /// is recorded already.
    pub fn add_continent(&mut self, continent: usize)
        ensures
            final(self).continents@ == with(old(self).continents@, continent),
            *final(self) == (PlayerState { continents: final(self).continents, ..*old(self) }),
    {
        if !holds(&self.continents, continent) {
            self.continents.push(continent);
        }
    }

    /// Records that the player no longer occupies all of `continent`. Does
    /// nothing if it is not recorded.
    pub fn remove_continent(&mut self, item: usize)
        ensures
            final(self).continents@ == without(old(self).continents@, item),
            *final(self) == (PlayerState { continents: final(self).continents, ..*old(self) }),
    {
        discard(&mut self.continents, item);
    }
}

} // verus!
