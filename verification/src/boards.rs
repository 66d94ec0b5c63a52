//! The board: all continents and territories of a map, the territories that
//! nobody has claimed yet, and the ledger of who occupies what.
//!
//! Every change of an occupant goes through the board, which keeps the
//! counters of the continents and the records of the players in step with
//! the territories.
use crate::continent::Continent;
use crate::error::{Decision, GameError};
use crate::holdings::{distinct, lemma_with_holds, lemma_without_keeps, with, without};
use crate::players::player_state::PlayerState;
use crate::tally::{
    lemma_number_occurs_once, lemma_sum_by_add, lemma_sum_by_eq, lemma_sum_by_le,
    lemma_sum_by_update, lemma_sum_by_zero, numbers, sum_by, total,
};
use crate::territory::Territory;
use crate::Attack;
use vstd::prelude::*;

pub mod classic_board;

verus! {

/// The most dice that an attacker may roll.
pub const MAX_ATTACK_DICE: u32 = 3;

/// The most dice that a defender may roll.
pub const MAX_DEFENSE_DICE: u32 = 2;

/// The maps that a board can be built for.
#[derive(Debug, Clone, Copy, PartialEq, Eq, Structural)]
pub enum BoardType {
    Unimplemented,
    ClassicBoard,
}

/// A board with its ledger.
#[derive(Debug)]
pub struct BoardStruct {
    pub board: BoardType,
    /// All continents of the map.
    pub continents: Vec<Continent>,
    /// All territories of the map.
    pub territories: Vec<Territory>,
    /// The territories that no player has claimed yet, by index.
    pub free_territories: Vec<usize>,
    /// Lines of text to show beside the map.
    pub extra_info: Vec<String>,
    /// How many lines of text fit beside the map.
    pub extra_info_lines: usize,
}

/// Counts a territory that belongs to `continent`.
pub open spec fn member_weight(continent: usize) -> spec_fn(Territory) -> int {
    |territory: Territory|
        if territory.continent == continent {
            1int
        } else {
            0int
        }
}

/// Counts a territory of `continent` that `player` occupies.
pub open spec fn occupation_weight(player: usize, continent: usize) -> spec_fn(Territory) -> int {
    |territory: Territory|
        if territory.player == Some(player) && territory.continent == continent {
            1int
        } else {
            0int
        }
}

/// Counts a territory of `continent` that any player occupies.
pub open spec fn claim_weight(continent: usize) -> spec_fn(Territory) -> int {
    |territory: Territory|
        if territory.player is Some && territory.continent == continent {
            1int
        } else {
            0int
        }
}

/// The armies of a territory that `player` occupies.
pub open spec fn army_weight(player: usize) -> spec_fn(Territory) -> int {
    |territory: Territory|
        if territory.player == Some(player) {
            territory.armies as int
        } else {
            0int
        }
}

/// The armies of a territory.
pub open spec fn garrison_weight() -> spec_fn(Territory) -> int {
    |territory: Territory| territory.armies as int
}

/// The number of territories that belong to `continent`.
pub open spec fn members(territories: Seq<Territory>, continent: usize) -> int {
    sum_by(territories, member_weight(continent))
}

/// The number of territories of `continent` that `player` occupies.
pub open spec fn occupied(territories: Seq<Territory>, player: usize, continent: usize) -> int {
    sum_by(territories, occupation_weight(player, continent))
}

/// The number of territories of `continent` that have an occupant.
pub open spec fn claimed_in(territories: Seq<Territory>, continent: usize) -> int {
    sum_by(territories, claim_weight(continent))
}

/// The armies that `player` has on the board.
pub open spec fn armies_of(territories: Seq<Territory>, player: usize) -> int {
    sum_by(territories, army_weight(player))
}

/// All armies on the board.
pub open spec fn armies_on(territories: Seq<Territory>) -> int {
    sum_by(territories, garrison_weight())
}

/// Whether two territories are the same place on the map: they differ at most
/// in their armies and their occupant.
pub open spec fn same_place(before: Territory, after: Territory) -> bool {
    after == (Territory { armies: after.armies, player: after.player, ..before })
}

/// Whether `after` is `before` with the counter of `player` changed by `change`.
pub open spec fn counted(before: Continent, after: Continent, player: usize, change: int) -> bool {
    &&& after.index == before.index
    &&& after.name == before.name
    &&& after.armies_reward == before.armies_reward
    &&& after.size == before.size
    &&& 0 <= before.territories_per_player@[player as int] + change <= u32::MAX
    &&& after.territories_per_player@ == before.territories_per_player@.update(
        player as int,
        (before.territories_per_player@[player as int] + change) as u32,
    )
}

/// The number of players that a list of continents keeps counters for: as many
/// as the first of them.
pub open spec fn seats_of(continents: Seq<Continent>) -> nat {
    if continents.len() == 0 {
        0
    } else {
        continents[0].territories_per_player@.len()
    }
}

/// Whether continent `c` of a map to be has a counter for every player, all of
/// them zero, and is as large as the number of its territories.
pub open spec fn continent_sound(continents: Seq<Continent>, territories: Seq<Territory>, c: int) -> bool {
    let continent = continents[c];
    &&& continent.territories_per_player@.len() == seats_of(continents)
    &&& forall|p: int|
        0 <= p < continent.territories_per_player@.len()
            ==> #[trigger] continent.territories_per_player@[p] == 0
    &&& continent.size == members(territories, c as usize)
}

/// Whether neighbor `k` of territory `t` is on the map and has `t` as a
/// neighbor in turn.
pub open spec fn link_sound(territories: Seq<Territory>, t: int, k: int) -> bool {
    let other = territories[t].connections@[k];
    &&& other < territories.len()
    &&& territories[other as int].connections@.contains(t as usize)
}

/// Whether territory `t` of a map to be belongs to one of the continents, has
/// no armies and no occupant, and borders only territories that border it.
pub open spec fn territory_sound(continents: Seq<Continent>, territories: Seq<Territory>, t: int) -> bool {
    let territory = territories[t];
    &&& territory.continent < continents.len()
    &&& territory.armies == 0
    &&& territory.player is None
    &&& forall|k: int|
        0 <= k < territory.connections@.len() ==> #[trigger] link_sound(territories, t, k)
}

/// Whether a board can be made of these continents and territories: every
/// territory lies in one of the continents, adjacency goes both ways, every
/// continent is as large as it says, and nothing is occupied yet.
pub open spec fn sound_layout(continents: Seq<Continent>, territories: Seq<Territory>) -> bool {
    &&& forall|c: int|
        0 <= c < continents.len() ==> #[trigger] continent_sound(continents, territories, c)
    &&& forall|t: int|
        0 <= t < territories.len() ==> #[trigger] territory_sound(continents, territories, t)
}

/// The number of territories that belong to `continent`.
pub fn count_members(territories: &Vec<Territory>, continent: usize) -> (count: usize)
    ensures
        count == members(territories@, continent),
{
    let mut count: usize = 0;
    let mut t: usize = 0;
    while t < territories.len()
        invariant
            t <= territories@.len(),
            count <= t,
            count == members(territories@.take(t as int), continent),
        decreases territories@.len() - t,
    {
        proof {
            assert(territories@.take(t + 1) == territories@.take(t as int).push(
                territories@[t as int],
            ));
            crate::tally::lemma_sum_by_push(
                territories@.take(t as int),
                member_weight(continent),
                territories@[t as int],
            );
        }
        if territories[t].continent == continent {
            count += 1;
        }
        t += 1;
    }
    assert(territories@.take(territories@.len() as int) == territories@);
    count
}

/// Whether no counter of the continent has counted anything.
fn counters_are_zero(continent: &Continent) -> (zero: bool)
    ensures
        zero == forall|p: int|
            0 <= p < continent.territories_per_player@.len()
                ==> #[trigger] continent.territories_per_player@[p] == 0,
{
    let mut p: usize = 0;
    while p < continent.territories_per_player.len()
        invariant
            p <= continent.territories_per_player@.len(),
            forall|q: int| 0 <= q < p ==> #[trigger] continent.territories_per_player@[q] == 0,
        decreases continent.territories_per_player@.len() - p,
    {
        if continent.territories_per_player[p] != 0 {
            return false;
        }
        p += 1;
    }
    true
}

/// Whether every neighbor of territory `t` is on the map and has `t` as a
/// neighbor in turn.
fn links_are_sound(territories: &Vec<Territory>, t: usize) -> (sound: bool)
    requires
        t < territories@.len(),
    ensures
        sound == forall|k: int|
            0 <= k < territories@[t as int].connections@.len() ==> #[trigger] link_sound(
                territories@,
                t as int,
                k,
            ),
{
    let mut k: usize = 0;
    while k < territories[t].connections.len()
        invariant
            t < territories@.len(),
            k <= territories@[t as int].connections@.len(),
            forall|j: int| 0 <= j < k ==> #[trigger] link_sound(territories@, t as int, j),
        decreases territories@[t as int].connections@.len() - k,
    {
        let other: usize = territories[t].connections[k];
        if other >= territories.len() {
            assert(!link_sound(territories@, t as int, k as int));
            return false;
        }
        if !territories[other].borders(t) {
            assert(!link_sound(territories@, t as int, k as int));
            return false;
        }
        k += 1;
    }
    true
}

/// Whether a board can be made of these continents and territories.
pub fn layout_is_sound(continents: &Vec<Continent>, territories: &Vec<Territory>) -> (sound: bool)
    ensures
        sound == sound_layout(continents@, territories@),
{
    let seats: usize = if continents.len() == 0 {
        0
    } else {
        continents[0].territories_per_player.len()
    };
    let mut c: usize = 0;
    while c < continents.len()
        invariant
            c <= continents@.len(),
            seats == seats_of(continents@),
            forall|d: int| 0 <= d < c ==> #[trigger] continent_sound(continents@, territories@, d),
        decreases continents@.len() - c,
    {
        if continents[c].territories_per_player.len() != seats {
            assert(!continent_sound(continents@, territories@, c as int));
            return false;
        }
        if !counters_are_zero(&continents[c]) {
            assert(!continent_sound(continents@, territories@, c as int));
            return false;
        }
        let size: u32 = continents[c].size;
        let count: usize = count_members(territories, c);
        if count > u32::MAX as usize || size != count as u32 {
            assert(!continent_sound(continents@, territories@, c as int));
            return false;
        }
        c += 1;
    }
    let mut t: usize = 0;
    while t < territories.len()
        invariant
            t <= territories@.len(),
            forall|d: int|
                0 <= d < continents@.len() ==> #[trigger] continent_sound(
                    continents@,
                    territories@,
                    d,
                ),
            forall|u: int| 0 <= u < t ==> #[trigger] territory_sound(continents@, territories@, u),
        decreases territories@.len() - t,
    {
        let territory = &territories[t];
        if territory.continent >= continents.len() || territory.armies != 0
            || territory.player.is_some() {
            assert(!territory_sound(continents@, territories@, t as int));
            return false;
        }
        if !links_are_sound(territories, t) {
            assert(!territory_sound(continents@, territories@, t as int));
            return false;
        }
        t += 1;
    }
    true
}

/// The number of territories of `continent` that a player occupies, as a
/// weight of the player.
pub open spec fn share(territories: Seq<Territory>, continent: usize) -> spec_fn(usize) -> int {
    |player: usize| occupied(territories, player, continent)
}

/// What the players below `seats` occupy of a continent is, all together,
/// what is occupied of it, where every occupant is a player below `seats`.
pub proof fn lemma_shares_add_up(territories: Seq<Territory>, continent: usize, seats: nat)
    requires
        seats <= usize::MAX,
        forall|t: int|
            0 <= t < territories.len() ==> match (#[trigger] territories[t]).player {
                Some(player) => player < seats,
                None => true,
            },
    ensures
        sum_by(numbers(seats), share(territories, continent)) == claimed_in(territories, continent),
    decreases territories.len(),
{
    let players = numbers(seats);
    if territories.len() == 0 {
        assert forall|i: int| 0 <= i < players.len() implies share(territories, continent)(
            #[trigger] players[i],
        ) == 0 by {}
        lemma_sum_by_zero(players, share(territories, continent));
    } else {
        let rest = territories.drop_last();
        let last = territories.last();
        assert forall|t: int| 0 <= t < rest.len() implies match (#[trigger] rest[t]).player {
            Some(player) => player < seats,
            None => true,
        } by {
            assert(rest[t] == territories[t]);
        }
        lemma_shares_add_up(rest, continent, seats);
        let gain = |player: usize| occupation_weight(player, continent)(last);
        let both = |player: usize| share(rest, continent)(player) + gain(player);
        assert forall|i: int| 0 <= i < players.len() implies share(territories, continent)(
            #[trigger] players[i],
        ) == both(players[i]) by {}
        lemma_sum_by_eq(players, share(territories, continent), players, both);
        lemma_sum_by_add(players, share(rest, continent), gain);
        assert(territories[territories.len() - 1] == last);
        match last.player {
            Some(occupant) => {
                if last.continent == continent {
                    assert forall|i: int| 0 <= i < players.len() implies gain(#[trigger] players[i])
                        == crate::tally::is_number(occupant)(players[i]) by {}
                    lemma_sum_by_eq(players, gain, players, crate::tally::is_number(occupant));
                    lemma_number_occurs_once(seats, occupant);
                } else {
                    assert forall|i: int| 0 <= i < players.len() implies gain(#[trigger] players[i])
                        == 0 by {}
                    lemma_sum_by_zero(players, gain);
                }
            },
            None => {
                assert forall|i: int| 0 <= i < players.len() implies gain(#[trigger] players[i])
                    == 0 by {}
                lemma_sum_by_zero(players, gain);
            },
        }
    }
}

impl BoardStruct {
    /// The number of players that the board keeps counters for.
    pub open spec fn seats(self) -> nat {
        if self.continents@.len() == 0 {
            0
        } else {
            self.continents@[0].territories_per_player@.len()
        }
    }

    /// Whether continent `c` is numbered by its position, has a counter for
    /// every player, and is as large as the number of its territories.
    pub open spec fn continent_ok(self, c: int) -> bool {
        let continent = self.continents@[c];
        &&& continent.index == c
        &&& continent.territories_per_player@.len() == self.seats()
        &&& continent.size == members(self.territories@, c as usize)
    }

    /// Whether neighbor `k` of territory `t` is on the board and has `t` as a
    /// neighbor in turn.
    pub open spec fn link_ok(self, t: int, k: int) -> bool {
        let other = self.territories@[t].connections@[k];
        &&& other < self.territories@.len()
        &&& self.territories@[other as int].connections@.contains(t as usize)
    }

    /// Whether territory `t` is numbered by its position, belongs to a
    /// continent of the board, and borders only territories that border it.
    pub open spec fn territory_ok(self, t: int) -> bool {
        let territory = self.territories@[t];
        &&& territory.index == t
        &&& territory.continent < self.continents@.len()
        &&& forall|k: int| 0 <= k < territory.connections@.len() ==> #[trigger] self.link_ok(t, k)
    }

    /// Whether the map is sound: the parts that never change after the board
    /// was built.
    pub open spec fn layout_ok(self) -> bool {
        &&& forall|c: int| 0 <= c < self.continents@.len() ==> #[trigger] self.continent_ok(c)
        &&& forall|t: int| 0 <= t < self.territories@.len() ==> #[trigger] self.territory_ok(t)
    }

    /// Whether territory `t` has an occupant with at least one army on it, or
    /// no occupant, no armies and a place among the free territories.
    pub open spec fn occupant_ok(self, t: int) -> bool {
        let territory = self.territories@[t];
        match territory.player {
            Some(player) => player < self.seats() && territory.armies >= 1,
            None => territory.armies == 0 && self.free_territories@.contains(t as usize),
        }
    }

    /// Whether the free territories are exactly those without an occupant,
    /// each listed once.
    pub open spec fn occupation_ok(self) -> bool {
        &&& forall|t: int| 0 <= t < self.territories@.len() ==> #[trigger] self.occupant_ok(t)
        &&& distinct(self.free_territories@)
        &&& forall|i: int|
            0 <= i < self.free_territories@.len() ==> {
                let t = #[trigger] self.free_territories@[i];
                t < self.territories@.len() && self.territories@[t as int].player is None
            }
    }

    /// Whether the counter of continent `c` for player `p` is the number of
    /// territories of `c` that `p` occupies.
    pub open spec fn tally_ok(self, c: int, p: int) -> bool {
        self.continents@[c].territories_per_player@[p] == occupied(
            self.territories@,
            p as usize,
            c as usize,
        )
    }

    /// Whether every counter of every continent is right.
    pub open spec fn ledger_ok(self) -> bool {
        forall|c: int, p: int|
            0 <= c < self.continents@.len() && 0 <= p < self.seats() ==> #[trigger] self.tally_ok(
                c,
                p,
            )
    }

    /// Whether the board is sound: map, occupation and ledger.
    pub open spec fn wf(self) -> bool {
        &&& self.layout_ok()
        &&& self.occupation_ok()
        &&& self.ledger_ok()
    }

    /// Whether the record `player` lists exactly the territories that the
    /// board gives to it, and exactly the continents that it occupies entirely.
    pub open spec fn agrees_with(self, player: PlayerState) -> bool {
        &&& player.wf()
        &&& player.index < self.seats()
        &&& forall|t: usize| #[trigger]
            player.territories@.contains(t) <==> t < self.territories@.len()
                && self.territories@[t as int].player == Some(player.index)
        &&& forall|c: usize| #[trigger]
            player.continents@.contains(c) <==> c < self.continents@.len()
                && self.continents@[c as int].completed_by(player.index as int)
    }

    /// Whether `after` is the map of `self` with other armies and occupants at
    /// most: the same continents but for their counters, the same territories
    /// in the same places.
    pub open spec fn same_map(self, after: BoardStruct) -> bool {
        &&& after.board == self.board
        &&& after.extra_info == self.extra_info
        &&& after.extra_info_lines == self.extra_info_lines
        &&& after.continents@.len() == self.continents@.len()
        &&& forall|c: int|
            0 <= c < self.continents@.len() ==> {
                let before = self.continents@[c];
                let now = #[trigger] after.continents@[c];
                &&& now.index == before.index
                &&& now.name == before.name
                &&& now.armies_reward == before.armies_reward
                &&& now.size == before.size
                &&& now.territories_per_player@.len() == before.territories_per_player@.len()
            }
        &&& after.territories@.len() == self.territories@.len()
        &&& forall|t: int|
            0 <= t < self.territories@.len() ==> same_place(
                self.territories@[t],
                #[trigger] after.territories@[t],
            )
    }

    /// A board with the same map has a sound map too.
    pub proof fn lemma_same_map(self, after: BoardStruct)
        requires
            self.layout_ok(),
            self.same_map(after),
        ensures
            after.layout_ok(),
            after.seats() == self.seats(),
    {
        assert(after.seats() == self.seats()) by {
            if self.continents@.len() > 0 {
                assert(after.continents@[0].territories_per_player@.len()
                    == self.continents@[0].territories_per_player@.len());
            }
        }
        assert forall|c: int|
            0 <= c < after.continents@.len() implies #[trigger] after.continent_ok(c) by {
            assert(self.continent_ok(c));
            assert(after.continents@[c].size == self.continents@[c].size);
            assert forall|t: int| 0 <= t < self.territories@.len() implies member_weight(
                c as usize,
            )(#[trigger] self.territories@[t]) == member_weight(c as usize)(
                after.territories@[t],
            ) by {
                assert(same_place(self.territories@[t], after.territories@[t]));
            }
            lemma_sum_by_eq(
                self.territories@,
                member_weight(c as usize),
                after.territories@,
                member_weight(c as usize),
            );
        }
        assert forall|t: int|
            0 <= t < after.territories@.len() implies #[trigger] after.territory_ok(t) by {
            assert(self.territory_ok(t));
            assert(same_place(self.territories@[t], after.territories@[t]));
            assert forall|k: int|
                0 <= k < after.territories@[t].connections@.len()
                implies #[trigger] after.link_ok(t, k) by {
                assert(self.link_ok(t, k));
                let other = self.territories@[t].connections@[k];
                assert(same_place(self.territories@[other as int], after.territories@[other as int]));
            }
        }
    }

    /// The board of the given kind for a game of `players` players, every
    /// territory free. The classic board is the only kind there is.
    pub fn new(board: BoardType, players: usize) -> (made: BoardStruct)
        requires
            board is ClassicBoard,
        ensures
            made.wf(),
            made.unoccupied(),
            classic_board::is_classic(made, players as nat),
            made.extra_info@.len() == 0,
            made.free_territories@ == Seq::new(
                classic_board::TERRITORIES as nat,
                |t: int| t as usize,
            ),
    {
        classic_board::new(players)
    }

    /// Makes a board of the given continents and territories, which it numbers
    /// by their position. Every territory starts free.
    pub fn generate_board(
        board: BoardType,
        continents: Vec<Continent>,
        territories: Vec<Territory>,
        extra_info_lines: usize,
    ) -> (made: BoardStruct)
        requires
            sound_layout(continents@, territories@),
        ensures
            made.wf(),
            made.unoccupied(),
            made.board == board,
            made.extra_info@ == Seq::<String>::empty(),
            made.extra_info_lines == extra_info_lines,
            made.seats() == seats_of(continents@),
            made.made_of(continents@, territories@),
    {
        let ghost given_continents = continents@;
        let ghost given_territories = territories@;
        let mut continents = continents;
        let mut territories = territories;
        crate::continent::generate_ids(&mut continents);
        crate::territory::generate_ids(&mut territories);
        let mut free_territories: Vec<usize> = Vec::new();
        let mut t: usize = 0;
        while t < territories.len()
            invariant
                t <= territories@.len(),
                free_territories@ == Seq::new(t as nat, |u: int| u as usize),
            decreases territories@.len() - t,
        {
            free_territories.push(t);
            t += 1;
        }
        let made = BoardStruct {
            board,
            continents,
            territories,
            free_territories,
            extra_info: Vec::new(),
            extra_info_lines,
        };
        proof {
            made.lemma_made_of(given_continents, given_territories);
        }
        made
    }

    /// Whether `self` is made of the given continents and territories,
    /// numbered by their position, with every territory on the list of the
    /// free ones.
    pub open spec fn made_of(self, continents: Seq<Continent>, territories: Seq<Territory>) -> bool {
        &&& self.continents@.len() == continents.len()
        &&& forall|c: int|
            0 <= c < continents.len() ==> #[trigger] self.continents@[c] == (Continent {
                index: c as usize,
                ..continents[c]
            })
        &&& self.territories@.len() == territories.len()
        &&& forall|t: int|
            0 <= t < territories.len() ==> #[trigger] self.territories@[t] == (Territory {
                index: t as usize,
                ..territories[t]
            })
        &&& self.free_territories@ == Seq::new(territories.len(), |t: int| t as usize)
    }

    /// A board made of a sound layout is sound, and nobody occupies it.
    pub proof fn lemma_made_of(self, continents: Seq<Continent>, territories: Seq<Territory>)
        requires
            sound_layout(continents, territories),
            self.made_of(continents, territories),
        ensures
            self.wf(),
            self.unoccupied(),
            self.seats() == seats_of(continents),
    {
        assert(self.continents@.len() == self.continents.len());
        assert(self.territories@.len() == self.territories.len());
        assert(self.seats() == seats_of(continents)) by {
            if continents.len() > 0 {
                assert(self.continents@[0] == (Continent {
                    index: 0,
                    ..continents[0]
                }));
            }
        }
        assert forall|c: int|
            0 <= c < self.continents@.len() implies #[trigger] self.continent_ok(c) by {
            assert(continent_sound(continents, territories, c));
            assert(self.continents@[c] == (Continent {
                index: c as usize,
                ..continents[c]
            }));
            assert forall|u: int| 0 <= u < territories.len() implies member_weight(
                c as usize,
            )(#[trigger] territories[u]) == member_weight(c as usize)(self.territories@[u]) by {
                assert(self.territories@[u] == (Territory {
                    index: u as usize,
                    ..territories[u]
                }));
            }
            lemma_sum_by_eq(
                territories,
                member_weight(c as usize),
                self.territories@,
                member_weight(c as usize),
            );
        }
        assert forall|u: int|
            0 <= u < self.territories@.len() implies #[trigger] self.occupant_ok(u) by {
            assert(territory_sound(continents, territories, u));
            assert(self.territories@[u] == (Territory {
                index: u as usize,
                ..territories[u]
            }));
            assert(self.free_territories@[u] == u as usize);
        }
        assert forall|u: int|
            0 <= u < self.territories@.len() implies #[trigger] self.territory_ok(u) by {
            assert(territory_sound(continents, territories, u));
            assert(self.territories@[u] == (Territory {
                index: u as usize,
                ..territories[u]
            }));
            assert(self.free_territories@[u] == u as usize);
            assert forall|k: int|
                0 <= k < self.territories@[u].connections@.len()
                implies #[trigger] self.link_ok(u, k) by {
                assert(link_sound(territories, u, k));
                let other = territories[u].connections@[k];
                assert(self.territories@[other as int] == (Territory {
                    index: other,
                    ..territories[other as int]
                }));
            }
        }
        assert forall|i: int| 0 <= i < self.free_territories@.len() implies {
            let u = #[trigger] self.free_territories@[i];
            u < self.territories@.len() && self.territories@[u as int].player is None
        } by {
            assert(territory_sound(continents, territories, i));
            assert(self.territories@[i] == (Territory {
                index: i as usize,
                ..territories[i]
            }));
        }
        assert forall|c: int, p: int|
            0 <= c < self.continents@.len() && 0 <= p < self.seats()
            implies #[trigger] self.tally_ok(c, p) by {
            assert(continent_sound(continents, territories, c));
            assert(self.continents@[c] == (Continent {
                index: c as usize,
                ..continents[c]
            }));
            assert(continents[c].territories_per_player@[p] == 0);
            assert forall|u: int| 0 <= u < self.territories@.len() implies occupation_weight(
                p as usize,
                c as usize,
            )(#[trigger] self.territories@[u]) == 0 by {
                assert(territory_sound(continents, territories, u));
                assert(self.territories@[u] == (Territory {
                    index: u as usize,
                    ..territories[u]
                }));
            }
            lemma_sum_by_zero(self.territories@, occupation_weight(p as usize, c as usize));
        }
        assert(self.layout_ok());
        assert(self.ledger_ok());
        assert(distinct(self.free_territories@));
        assert(self.occupation_ok());
        assert forall|u: int|
            0 <= u < self.territories@.len()
            implies (#[trigger] self.territories@[u]).player is None by {
            assert(territory_sound(continents, territories, u));
        }
    }

    /// The counters of a continent add up to the number of its territories
    /// that have an occupant.
    pub proof fn lemma_counters_add_up(self, c: int)
        requires
            self.wf(),
            0 <= c < self.continents@.len(),
        ensures
            total(self.continents@[c].territories_per_player@) == claimed_in(
                self.territories@,
                c as usize,
            ),
    {
        let counters = self.continents@[c].territories_per_player@;
        let seats = self.seats();
        assert(self.continents@.len() == self.continents.len());
        assert(self.continent_ok(c));
        assert(counters.len() == self.continents@[c].territories_per_player.len());
        assert forall|t: int|
            0 <= t < self.territories@.len()
                implies match (#[trigger] self.territories@[t]).player {
            Some(player) => player < seats,
            None => true,
        } by {
            assert(self.occupant_ok(t));
        }
        lemma_shares_add_up(self.territories@, c as usize, seats);
        assert forall|p: int| 0 <= p < counters.len() implies (|counter: u32| counter as int)(
            #[trigger] counters[p],
        ) == share(self.territories@, c as usize)(numbers(seats)[p]) by {
            assert(self.tally_ok(c, p));
        }
        lemma_sum_by_eq(
            counters,
            |counter: u32| counter as int,
            numbers(seats),
            share(self.territories@, c as usize),
        );
    }

    /// Once no territory is free, the counters of every continent add up to
    /// its size.
    pub proof fn lemma_full_board(self, c: int)
        requires
            self.wf(),
            self.free_territories@.len() == 0,
            0 <= c < self.continents@.len(),
        ensures
            total(self.continents@[c].territories_per_player@) == self.continents@[c].size,
    {
        self.lemma_counters_add_up(c);
        assert(self.continents@.len() == self.continents.len());
        assert(self.continent_ok(c));
        assert forall|t: int| 0 <= t < self.territories@.len() implies claim_weight(c as usize)(
            #[trigger] self.territories@[t],
        ) == member_weight(c as usize)(self.territories@[t]) by {
            assert(self.occupant_ok(t));
        }
        lemma_sum_by_eq(
            self.territories@,
            claim_weight(c as usize),
            self.territories@,
            member_weight(c as usize),
        );
    }

    /// A board has its own map.
    pub proof fn lemma_same_map_reflexive(self)
        ensures
            self.same_map(self),
    {
    }

    /// The map of a board with the map of a board with this map is this map.
    pub proof fn lemma_same_map_transitive(self, then: BoardStruct, after: BoardStruct)
        requires
            self.same_map(then),
            then.same_map(after),
        ensures
            self.same_map(after),
    {
        assert forall|c: int| 0 <= c < self.continents@.len() implies {
            let before = self.continents@[c];
            let now = #[trigger] after.continents@[c];
            &&& now.index == before.index
            &&& now.name == before.name
            &&& now.armies_reward == before.armies_reward
            &&& now.size == before.size
            &&& now.territories_per_player@.len() == before.territories_per_player@.len()
        } by {
            let between = then.continents@[c];
            assert(between.index == self.continents@[c].index);
        }
        assert forall|t: int|
            0 <= t < self.territories@.len()
            implies same_place(self.territories@[t], #[trigger] after.territories@[t]) by {
            assert(same_place(self.territories@[t], then.territories@[t]));
            assert(same_place(then.territories@[t], after.territories@[t]));
        }
    }

    /// Why `player` may not claim the free territory at `index`, if it may not:
    /// there is no such free territory, the reserve of `player` is empty, or
    /// the territory has an occupant.
    pub open spec fn claim_refusal(self, index: usize, player: PlayerState) -> Option<GameError> {
        if index >= self.free_territories@.len() {
            Some(GameError::IllegalDecision { player: player.index, decision: Decision::Claim })
        } else if player.armies < 1 {
            Some(
                GameError::InsufficientArmies {
                    player: player.index,
                    requested: 1,
                    available: player.armies,
                },
            )
        } else if self.territories@[self.free_territories@[index as int] as int].player is Some {
            Some(
                GameError::TerritoryOccupied {
                    player: player.index,
                    territory: self.free_territories@[index as int],
                },
            )
        } else {
            None
        }
    }

    /// Whether `after` is `self` once `player` has claimed the free territory
    /// at `index`: the territory left the free list, belongs to `player`,
    /// holds one army more than stood there, and the continent counts it for
    /// `player`.
    pub open spec fn claimed(self, after: BoardStruct, index: int, player: usize) -> bool {
        let t = self.free_territories@[index];
        let c = self.territories@[t as int].continent;
        &&& 0 <= index < self.free_territories@.len()
        &&& after.board == self.board
        &&& after.extra_info == self.extra_info
        &&& after.extra_info_lines == self.extra_info_lines
        &&& after.free_territories@ == self.free_territories@.remove(index)
        &&& self.territories@[t as int].armies < u32::MAX
        &&& after.territories@ == self.territories@.update(
            t as int,
            Territory {
                armies: (self.territories@[t as int].armies + 1) as u32,
                player: Some(player),
                ..self.territories@[t as int]
            },
        )
        &&& after.continents@.len() == self.continents@.len()
        &&& forall|other: int|
            0 <= other < self.continents@.len() && other != c
                ==> #[trigger] after.continents@[other]
                == self.continents@[other]
        &&& counted(self.continents@[c as int], after.continents@[c as int], player, 1)
    }

    /// Whether `after` is the record `before` once its player has claimed the
    /// free territory at `index` of `self`: one army left the reserve, the
    /// territory is listed, and so is its continent if the claim completed it.
    pub open spec fn claim_noted(self, before: PlayerState, after: PlayerState, index: int) -> bool {
        let t = self.free_territories@[index];
        let c = self.territories@[t as int].continent;
        let continent = self.continents@[c as int];
        &&& before.armies >= 1
        &&& after == (PlayerState {
            armies: (before.armies - 1) as u32,
            territories: after.territories,
            continents: after.continents,
            ..before
        })
        &&& after.territories@ == with(before.territories@, t)
        &&& after.continents@ == if continent.territories_per_player@[before.index as int] + 1
            == continent.size {
            with(before.continents@, c)
        } else {
            before.continents@
        }
    }

    /// A player occupies fewer territories of a continent than the continent
    /// has, as long as it does not occupy one of them.
    pub proof fn lemma_room_left(self, t: int, player: usize)
        requires
            0 <= t < self.territories@.len(),
            self.territories@[t].player != Some(player),
        ensures
            occupied(self.territories@, player, self.territories@[t].continent) < members(
                self.territories@,
                self.territories@[t].continent,
            ),
    {
        let c = self.territories@[t].continent;
        let taken = Territory { armies: 1, player: Some(player), ..self.territories@[t] };
        let then = self.territories@.update(t, taken);
        lemma_sum_by_update(self.territories@, occupation_weight(player, c), t, taken);
        lemma_sum_by_update(self.territories@, member_weight(c), t, taken);
        assert forall|i: int| 0 <= i < then.len() implies occupation_weight(player, c)(
            #[trigger] then[i],
        ) <= member_weight(c)(then[i]) by {}
        lemma_sum_by_le(then, occupation_weight(player, c), then, member_weight(c));
    }

    /// Whether claims can be made on the board: its map and its ledger are
    /// sound, and every territory on the list of the free ones is on the
    /// board. A territory on that list may yet have an occupant: a claim of
    /// it is then refused. It may also hold armies without an occupant: a
    /// claim adds one to them.
    pub open spec fn open_to_claims(self) -> bool {
        &&& self.layout_ok()
        &&& self.ledger_ok()
        &&& forall|i: int|
            0 <= i < self.free_territories@.len() ==> #[trigger] self.free_territories@[i]
                < self.territories@.len()
    }

    /// Whether the free territory at `index` of the list, if there is one, has
    /// room for one army more: the number of its armies is not the largest
    /// that there is.
    pub open spec fn has_room(self, index: usize) -> bool {
        index < self.free_territories@.len() ==> {
            let t = self.free_territories@[index as int];
            self.territories@[t as int].armies < u32::MAX
        }
    }

    /// A sound board is open to claims, and every free territory has room:
    /// it holds no armies.
    pub proof fn lemma_sound_is_open(self, index: usize)
        requires
            self.wf(),
        ensures
            self.open_to_claims(),
            self.has_room(index),
    {
        if index < self.free_territories@.len() {
            let t = self.free_territories@[index as int];
            assert(t < self.territories@.len() && self.territories@[t as int].player is None);
            assert(self.occupant_ok(t as int));
        }
    }

    /// A claim of a territory without an occupant leaves the board open to
    /// claims.
    pub proof fn lemma_claim_keeps_ledger(self, after: BoardStruct, index: int, player: usize)
        requires
            self.open_to_claims(),
            player < self.seats(),
            self.claimed(after, index, player),
            self.territories@[self.free_territories@[index] as int].player is None,
        ensures
            after.open_to_claims(),
            self.same_map(after),
    {
        let t = self.free_territories@[index];
        let c = self.territories@[t as int].continent;
        let before = self.territories@;
        let taken = after.territories@[t as int];
        assert(before.len() == self.territories.len());
        assert(t < before.len());
        assert(self.territory_ok(t as int));
        assert(self.continent_ok(c as int));
        self.lemma_room_left(t as int, player);
        assert(self.tally_ok(c as int, player as int));
        assert(self.same_map(after)) by {
            assert forall|other: int| 0 <= other < self.continents@.len() implies {
                let was = self.continents@[other];
                let now = #[trigger] after.continents@[other];
                &&& now.index == was.index
                &&& now.name == was.name
                &&& now.armies_reward == was.armies_reward
                &&& now.size == was.size
                &&& now.territories_per_player@.len() == was.territories_per_player@.len()
            } by {
                if other != c {
                    assert(after.continents@[other] == self.continents@[other]);
                }
            }
        }
        self.lemma_same_map(after);
        assert forall|region: int, seat: int|
            0 <= region < after.continents@.len() && 0 <= seat < after.seats()
            implies #[trigger] after.tally_ok(region, seat) by {
            assert(self.tally_ok(region, seat));
            assert(self.continent_ok(region));
            assert(self.continents@.len() == self.continents.len());
            assert(self.continents@[region].territories_per_player@.len()
                == self.continents@[region].territories_per_player.len());
            lemma_sum_by_update(
                before,
                occupation_weight(seat as usize, region as usize),
                t as int,
                taken,
            );
            if region != c {
                assert(after.continents@[region] == self.continents@[region]);
            }
        }
        assert forall|i: int| 0 <= i < after.free_territories@.len()
            implies #[trigger] after.free_territories@[i] < after.territories@.len() by {
            if i < index {
                assert(after.free_territories@[i] == self.free_territories@[i]);
            } else {
                assert(after.free_territories@[i] == self.free_territories@[i + 1]);
            }
        }
    }

    /// A claim leaves the board sound.
    pub proof fn lemma_claim_keeps_wf(self, after: BoardStruct, index: int, player: usize)
        requires
            self.wf(),
            player < self.seats(),
            self.claimed(after, index, player),
        ensures
            after.wf(),
            self.same_map(after),
            forall|other: usize| #[trigger]
                armies_of(after.territories@, other) == armies_of(self.territories@, other) + (
                if other == player {
                    1int
                } else {
                    0int
                }),
            armies_on(after.territories@) == armies_on(self.territories@) + 1,
    {
        let t = self.free_territories@[index];
        let c = self.territories@[t as int].continent;
        let before = self.territories@;
        let taken = after.territories@[t as int];
        assert(before.len() == self.territories.len());
        assert(t < before.len() && before[t as int].player is None);
        assert(self.territory_ok(t as int));
        assert(self.continent_ok(c as int));
        self.lemma_room_left(t as int, player);
        assert(self.tally_ok(c as int, player as int));
        assert(self.same_map(after)) by {
            assert forall|other: int| 0 <= other < self.continents@.len() implies {
                let was = self.continents@[other];
                let now = #[trigger] after.continents@[other];
                &&& now.index == was.index
                &&& now.name == was.name
                &&& now.armies_reward == was.armies_reward
                &&& now.size == was.size
                &&& now.territories_per_player@.len() == was.territories_per_player@.len()
            } by {
                if other != c {
                    assert(after.continents@[other] == self.continents@[other]);
                }
            }
        }
        self.lemma_same_map(after);
        assert(after.ledger_ok()) by {
            assert forall|region: int, seat: int|
                0 <= region < after.continents@.len() && 0 <= seat < after.seats()
                implies #[trigger] after.tally_ok(region, seat) by {
                assert(self.tally_ok(region, seat));
                assert(self.continent_ok(region));
                assert(self.continents@.len() == self.continents.len());
                assert(self.continents@[region].territories_per_player@.len()
                    == self.continents@[region].territories_per_player.len());
                lemma_sum_by_update(
                    before,
                    occupation_weight(seat as usize, region as usize),
                    t as int,
                    taken,
                );
                if region != c {
                    assert(after.continents@[region] == self.continents@[region]);
                }
            }
        }
        assert forall|other: usize| #[trigger]
            armies_of(after.territories@, other) == armies_of(before, other) + (if other
                == player {
                1int
            } else {
                0int
            }) by {
            assert(self.occupant_ok(t as int));
            lemma_sum_by_update(before, army_weight(other), t as int, taken);
        }
        assert(armies_on(after.territories@) == armies_on(before) + 1) by {
            assert(self.occupant_ok(t as int));
            lemma_sum_by_update(before, garrison_weight(), t as int, taken);
        }
        assert(after.occupation_ok()) by {
            let free = self.free_territories@;
            let left = after.free_territories@;
            assert forall|i: int| 0 <= i < left.len() implies {
                let u = #[trigger] left[i];
                u < after.territories@.len() && after.territories@[u as int].player is None
            } by {
                if i < index {
                    assert(left[i] == free[i]);
                    assert(free[i] != free[index]);
                } else {
                    assert(left[i] == free[i + 1]);
                    assert(free[index] != free[i + 1]);
                }
            }
            assert(distinct(left)) by {
                assert forall|i: int, j: int|
                    0 <= i < j < left.len() implies left[i] != left[j] by {
                    let a = if i < index { i } else { i + 1 };
                    let b = if j < index { j } else { j + 1 };
                    assert(left[i] == free[a] && left[j] == free[b]);
                }
            }
            assert forall|u: int|
                0 <= u < after.territories@.len() implies #[trigger] after.occupant_ok(u) by {
                assert(self.occupant_ok(u));
                if u != t && before[u].player is None {
                    let i = choose|i: int| 0 <= i < free.len() && free[i] == u as usize;
                    if i < index {
                        assert(left[i] == u as usize);
                    } else {
                        assert(i != index);
                        assert(left[i - 1] == u as usize);
                    }
                }
            }
        }
    }

    /// A claim keeps the records of the players in step with the board: that
    /// of the player who claims as the claim notes it, those of the others
    /// as they are.
    pub proof fn lemma_claim_keeps_records(
        self,
        after: BoardStruct,
        index: int,
        player: PlayerState,
        noted: PlayerState,
    )
        requires
            self.wf(),
            self.claimed(after, index, player.index),
            self.agrees_with(player),
            self.claim_noted(player, noted, index),
        ensures
            after.agrees_with(noted),
            forall|other: PlayerState|
                other.index != player.index && self.agrees_with(other)
                    ==> #[trigger] after.agrees_with(other),
    {
        let t = self.free_territories@[index];
        let c = self.territories@[t as int].continent;
        let p = player.index;
        self.lemma_claim_keeps_wf(after, index, p);
        assert(self.territory_ok(t as int));
        assert(self.continent_ok(c as int));
        assert(self.tally_ok(c as int, p as int));
        self.lemma_room_left(t as int, p);
        lemma_with_holds(player.territories@, t);
        lemma_with_holds(player.continents@, c);
        assert(!player.continents@.contains(c));
        assert forall|u: usize| #[trigger]
            noted.territories@.contains(u) <==> u < after.territories@.len()
                && after.territories@[u as int].player == Some(p) by {
            assert(player.territories@.contains(u) <==> u < self.territories@.len()
                && self.territories@[u as int].player == Some(p));
        }
        assert forall|d: usize| #[trigger]
            noted.continents@.contains(d) <==> d < after.continents@.len()
                && after.continents@[d as int].completed_by(p as int) by {
            assert(player.continents@.contains(d) <==> d < self.continents@.len()
                && self.continents@[d as int].completed_by(p as int));
            if d < self.continents@.len() && d != c {
                assert(after.continents@[d as int] == self.continents@[d as int]);
            }
        }
        assert forall|other: PlayerState|
            other.index != p && self.agrees_with(other)
            implies #[trigger] after.agrees_with(other) by {
            assert forall|u: usize| #[trigger]
                other.territories@.contains(u) <==> u < after.territories@.len()
                    && after.territories@[u as int].player == Some(other.index) by {
                assert(other.territories@.contains(u) <==> u < self.territories@.len()
                    && self.territories@[u as int].player == Some(other.index));
            }
            assert forall|d: usize| #[trigger]
                other.continents@.contains(d) <==> d < after.continents@.len()
                    && after.continents@[d as int].completed_by(other.index as int) by {
                assert(other.continents@.contains(d) <==> d < self.continents@.len()
                    && self.continents@[d as int].completed_by(other.index as int));
                if d < self.continents@.len() && d != c {
                    assert(after.continents@[d as int] == self.continents@[d as int]);
                }
            }
        }
    }

    /// A claim keeps the records of all players in step with the board, once
    /// the record of the player who claims has noted it.
    pub proof fn lemma_claim_keeps_all(
        self,
        after: BoardStruct,
        index: int,
        records: Seq<PlayerState>,
        player: int,
        noted: PlayerState,
    )
        requires
            self.wf(),
            self.keeps(records),
            0 <= player < records.len(),
            self.claimed(after, index, player as usize),
            self.claim_noted(records[player], noted, index),
        ensures
            after.keeps(records.update(player, noted)),
    {
        self.lemma_claim_keeps_wf(after, index, player as usize);
        self.lemma_claim_keeps_records(after, index, records[player], noted);
        let now = records.update(player, noted);
        assert forall|p: int|
            0 <= p < now.len()
            implies (#[trigger] now[p]).index == p && after.agrees_with(now[p]) by {
            assert(records[p].index == p && self.agrees_with(records[p]));
            if p != player {
                assert(now[p] == records[p]);
            }
        }
    }

    /// Whether no territory has an occupant.
    pub open spec fn unoccupied(self) -> bool {
        forall|t: int|
            0 <= t < self.territories@.len() ==> (#[trigger] self.territories@[t]).player is None
    }

    /// Lets `player` claim the free territory at `free_territory_index` of the
    /// list of free territories: the territory leaves the list, one army moves
    /// from the reserve of `player` onto it, and the continent counts it for
    /// `player`, who is recorded as occupying the continent once it occupies
    /// all of it. The army joins those that stand on the territory, which
    /// are none on a sound board. Where the claim is refused nothing
    /// changes: there is no such entry on the list, the reserve is empty, or
    /// the territory has an occupant, which it cannot have on a sound board.
    pub fn claim_territory(&mut self, free_territory_index: usize, player: &mut PlayerState) -> (result:
        Result<(), GameError>)
        requires
            old(self).open_to_claims(),
            old(self).has_room(free_territory_index),
            old(player).index < old(self).seats(),
        ensures
            match result {
                Ok(()) => {
                    &&& old(self).claim_refusal(free_territory_index, *old(player)) is None
                    &&& old(self).claimed(
                        *final(self),
                        free_territory_index as int,
                        old(player).index,
                    )
                    &&& old(self).claim_noted(
                        *old(player),
                        *final(player),
                        free_territory_index as int,
                    )
                    &&& final(self).open_to_claims()
                    &&& old(self).wf() ==> final(self).wf()
                    &&& old(self).wf() && old(self).agrees_with(*old(player))
                        ==> final(self).agrees_with(*final(player))
                },
                Err(error) => {
                    &&& old(self).claim_refusal(free_territory_index, *old(player)) == Some(error)
                    &&& *final(self) == *old(self)
                    &&& *final(player) == *old(player)
                },
            },
    {
        if free_territory_index >= self.free_territories.len() {
            return Err(
                GameError::IllegalDecision { player: player.index, decision: Decision::Claim },
            );
        }
        let territory_index: usize = self.free_territories[free_territory_index];
        if player.armies < 1 {
            return Err(
                GameError::InsufficientArmies {
                    player: player.index,
                    requested: 1,
                    available: player.armies,
                },
            );
        }
        if self.territories[territory_index].player.is_some() {
            return Err(
                GameError::TerritoryOccupied { player: player.index, territory: territory_index },
            );
        }
        let continent_index: usize = self.territories[territory_index].continent;
        let seat: usize = player.index;
        proof {
            assert(self.free_territories@[free_territory_index as int] < self.territories@.len());
            assert(self.territory_ok(territory_index as int));
            assert(self.continent_ok(continent_index as int));
            assert(self.tally_ok(continent_index as int, seat as int));
            self.lemma_room_left(territory_index as int, seat);
        }
        self.free_territories.remove(free_territory_index);
        let standing: u32 = self.territories[territory_index].armies;
        self.territories[territory_index].armies = standing + 1;
        self.territories[territory_index].player = Some(seat);
        player.armies = player.armies - 1;
        player.add_territory(territory_index);
        let count: u32 = self.continents[continent_index].territories_per_player[seat] + 1;
        self.continents[continent_index].territories_per_player[seat] = count;
        if count == self.continents[continent_index].size {
            player.add_continent(continent_index);
        }
        proof {
            assert(self.territories@ == old(self).territories@.update(
                territory_index as int,
                Territory {
                    armies: (standing + 1) as u32,
                    player: Some(seat),
                    ..old(self).territories@[territory_index as int]
                },
            ));
            assert(counted(
                old(self).continents@[continent_index as int],
                self.continents@[continent_index as int],
                seat,
                1,
            ));
            assert(old(self).claimed(*self, free_territory_index as int, seat));
            assert(old(self).claim_noted(*old(player), *player, free_territory_index as int));
            old(self).lemma_claim_keeps_ledger(*self, free_territory_index as int, seat);
            if old(self).wf() {
                old(self).lemma_claim_keeps_wf(*self, free_territory_index as int, seat);
                if old(self).agrees_with(*old(player)) {
                    old(self).lemma_claim_keeps_records(
                        *self,
                        free_territory_index as int,
                        *old(player),
                        *player,
                    );
                }
            }
        }
        Ok(())
    }

    /// Whether `after` is `self` with `armies` armies on territory `t` and
    /// nothing else changed.
    pub open spec fn stationed(self, after: BoardStruct, t: int, armies: u32) -> bool {
        &&& 0 <= t < self.territories@.len()
        &&& after == (BoardStruct { territories: after.territories, ..self })
        &&& after.territories@ == self.territories@.update(
            t,
            Territory { armies, ..self.territories@[t] },
        )
    }

    /// Another number of armies on an occupied territory, at least one, leaves
    /// the board sound and in step with the records of the players. It changes
    /// the armies of the occupant on the board, and of all players together,
    /// by the difference.
    pub proof fn lemma_stationed(self, after: BoardStruct, t: int, armies: u32)
        requires
            self.wf(),
            self.stationed(after, t, armies),
            self.territories@[t].player is Some,
            armies >= 1,
        ensures
            after.wf(),
            self.same_map(after),
            forall|record: PlayerState|
                self.agrees_with(record) ==> #[trigger] after.agrees_with(record),
            forall|player: usize| #[trigger]
                armies_of(after.territories@, player) == armies_of(self.territories@, player) + (
                if self.territories@[t].player == Some(player) {
                    armies - self.territories@[t].armies
                } else {
                    0
                }),
            armies_on(after.territories@) == armies_on(self.territories@) + armies
                - self.territories@[t].armies,
    {
        let before = self.territories@;
        let now = after.territories@[t];
        assert(self.same_map(after));
        self.lemma_same_map(after);
        assert forall|c: int, p: int|
            0 <= c < after.continents@.len() && 0 <= p < after.seats()
            implies #[trigger] after.tally_ok(c, p) by {
            assert(self.tally_ok(c, p));
            assert(self.continents@.len() == self.continents.len());
            assert(self.continents@[c].territories_per_player@.len()
                == self.continents@[c].territories_per_player.len());
            assert(self.continent_ok(c));
            lemma_sum_by_update(before, occupation_weight(p as usize, c as usize), t, now);
        }
        assert forall|u: int|
            0 <= u < after.territories@.len() implies #[trigger] after.occupant_ok(u) by {
            assert(self.occupant_ok(u));
        }
        assert forall|i: int| 0 <= i < after.free_territories@.len() implies {
            let u = #[trigger] after.free_territories@[i];
            u < after.territories@.len() && after.territories@[u as int].player is None
        } by {
            let u = self.free_territories@[i];
            assert(u < self.territories@.len() && self.territories@[u as int].player is None);
        }
        assert forall|record: PlayerState|
            self.agrees_with(record) implies #[trigger] after.agrees_with(record) by {
            assert forall|u: usize| #[trigger]
                record.territories@.contains(u) <==> u < after.territories@.len()
                    && after.territories@[u as int].player == Some(record.index) by {
                assert(record.territories@.contains(u) <==> u < self.territories@.len()
                    && self.territories@[u as int].player == Some(record.index));
            }
            assert forall|d: usize| #[trigger]
                record.continents@.contains(d) <==> d < after.continents@.len()
                    && after.continents@[d as int].completed_by(record.index as int) by {
                assert(record.continents@.contains(d) <==> d < self.continents@.len()
                    && self.continents@[d as int].completed_by(record.index as int));
            }
        }
        assert forall|player: usize| #[trigger]
            armies_of(after.territories@, player) == armies_of(before, player) + (if before[t].player
                == Some(player) {
                armies - before[t].armies
            } else {
                0
            }) by {
            lemma_sum_by_update(before, army_weight(player), t, now);
        }
        lemma_sum_by_update(before, garrison_weight(), t, now);
    }

    /// Puts `armies` armies, at least one, on a territory that a player
    /// occupies, in place of those that stand there.
    pub fn station(&mut self, territory: usize, armies: u32)
        requires
            old(self).wf(),
            territory < old(self).territories@.len(),
            old(self).territories@[territory as int].player is Some,
            armies >= 1,
        ensures
            old(self).stationed(*final(self), territory as int, armies),
            final(self).wf(),
    {
        self.territories[territory].armies = armies;
        proof {
            assert(self.territories@ == old(self).territories@.update(
                territory as int,
                Territory { armies, ..old(self).territories@[territory as int] },
            ));
            old(self).lemma_stationed(*self, territory as int, armies);
        }
    }

    /// Whether the continents of `after` are those of `self` but for continent
    /// `c`, which counts one territory more for player `to` and one fewer for
    /// player `from`.
    pub open spec fn recounted(self, after: BoardStruct, c: usize, from: usize, to: usize) -> bool {
        let was = self.continents@[c as int];
        let now = after.continents@[c as int];
        &&& after.continents@.len() == self.continents@.len()
        &&& forall|other: int|
            0 <= other < self.continents@.len() && other != c
                ==> #[trigger] after.continents@[other]
                == self.continents@[other]
        &&& now.index == was.index
        &&& now.name == was.name
        &&& now.armies_reward == was.armies_reward
        &&& now.size == was.size
        &&& was.territories_per_player@[from as int] >= 1
        &&& was.territories_per_player@[to as int] < u32::MAX
        &&& now.territories_per_player@ == was.territories_per_player@.update(
            from as int,
            (was.territories_per_player@[from as int] - 1) as u32,
        ).update(to as int, (was.territories_per_player@[to as int] + 1) as u32)
    }

    /// Whether `after` is `self` once territory `t` has gone from player `from`
    /// to player `to`: the territory has its new occupant and its armies, and
    /// its continent counts it for `to` and no longer for `from`.
    pub open spec fn transferred(self, after: BoardStruct, t: int, from: usize, to: usize) -> bool {
        &&& 0 <= t < self.territories@.len()
        &&& after.board == self.board
        &&& after.extra_info == self.extra_info
        &&& after.extra_info_lines == self.extra_info_lines
        &&& after.free_territories == self.free_territories
        &&& after.territories@ == self.territories@.update(
            t,
            Territory { player: Some(to), ..self.territories@[t] },
        )
        &&& self.recounted(after, self.territories@[t].continent, from, to)
    }

    /// Whether `after` is the record `before` once its player has lost
    /// territory `t` of `self`: it lists neither the territory nor its
    /// continent any more.
    pub open spec fn loss_noted(self, before: PlayerState, after: PlayerState, t: int) -> bool {
        &&& after == (PlayerState {
            territories: after.territories,
            continents: after.continents,
            ..before
        })
        &&& after.territories@ == without(before.territories@, t as usize)
        &&& after.continents@ == without(before.continents@, self.territories@[t].continent)
    }

    /// Whether `after` is the record `before` once its player has taken
    /// territory `t` of `self`: it lists the territory, and its continent too
    /// if the territory completed it.
    pub open spec fn gain_noted(self, before: PlayerState, after: PlayerState, t: int) -> bool {
        let c = self.territories@[t].continent;
        let continent = self.continents@[c as int];
        &&& after == (PlayerState {
            territories: after.territories,
            continents: after.continents,
            ..before
        })
        &&& after.territories@ == with(before.territories@, t as usize)
        &&& after.continents@ == if continent.territories_per_player@[before.index as int] + 1
            == continent.size {
            with(before.continents@, c)
        } else {
            before.continents@
        }
    }

    /// Whether `after` are the records `before` once territory `t` of `self`
    /// has gone from player `from` to player `to`: both have noted it, and the
    /// records of the others are as they were.
    pub open spec fn transfer_noted(
        self,
        before: Seq<PlayerState>,
        after: Seq<PlayerState>,
        t: int,
        from: usize,
        to: usize,
    ) -> bool {
        &&& after.len() == before.len()
        &&& forall|other: int|
            0 <= other < before.len() && other != from && other != to ==> #[trigger] after[other]
                == before[other]
        &&& self.loss_noted(before[from as int], after[from as int], t)
        &&& self.gain_noted(before[to as int], after[to as int], t)
    }

    /// Whether these are the records of the players of the board, in the
    /// order of their indices and in step with it.
    pub open spec fn keeps(self, records: Seq<PlayerState>) -> bool {
        &&& records.len() == self.seats()
        &&& forall|p: int|
            0 <= p < records.len() ==> (#[trigger] records[p]).index == p && self.agrees_with(
                records[p],
            )
    }

    /// A transfer leaves the board sound and the records in step with it, and
    /// the armies where they stand.
    pub proof fn lemma_transfer_keeps_wf(
        self,
        after: BoardStruct,
        before: Seq<PlayerState>,
        noted: Seq<PlayerState>,
        t: int,
        from: usize,
        to: usize,
    )
        requires
            self.wf(),
            self.keeps(before),
            0 <= t < self.territories@.len(),
            self.territories@[t].player == Some(from),
            to < self.seats(),
            from != to,
            self.transferred(after, t, from, to),
            self.transfer_noted(before, noted, t, from, to),
        ensures
            after.wf(),
            after.keeps(noted),
            self.same_map(after),
            forall|player: usize| #[trigger]
                armies_of(after.territories@, player) == armies_of(self.territories@, player) + (
                if player == to {
                    self.territories@[t].armies as int
                } else if player == from {
                    -(self.territories@[t].armies as int)
                } else {
                    0
                }),
            armies_on(after.territories@) == armies_on(self.territories@),
    {
        let ts = self.territories@;
        let c = ts[t].continent;
        let now = after.territories@[t];
        assert(self.continents@.len() == self.continents.len());
        assert(ts.len() == self.territories.len());
        assert(self.occupant_ok(t));
        assert(self.territory_ok(t));
        assert(self.continent_ok(c as int));
        assert(self.tally_ok(c as int, from as int));
        assert(self.tally_ok(c as int, to as int));
        self.lemma_room_left(t, to);
        assert forall|i: int| 0 <= i < ts.len() implies 0 <= occupation_weight(from, c)(
            #[trigger] ts[i],
        ) by {}
        crate::tally::lemma_sum_by_bounds(ts, occupation_weight(from, c), t);
        assert forall|i: int| 0 <= i < ts.len() implies occupation_weight(from, c)(#[trigger] ts[i])
            <= member_weight(c)(ts[i]) by {}
        lemma_sum_by_le(ts, occupation_weight(from, c), ts, member_weight(c));
        assert(self.same_map(after)) by {
            assert forall|other: int| 0 <= other < self.continents@.len() implies {
                let was = self.continents@[other];
                let then = #[trigger] after.continents@[other];
                &&& then.index == was.index
                &&& then.name == was.name
                &&& then.armies_reward == was.armies_reward
                &&& then.size == was.size
                &&& then.territories_per_player@.len() == was.territories_per_player@.len()
            } by {
                if other != c {
                    assert(after.continents@[other] == self.continents@[other]);
                }
            }
        }
        self.lemma_same_map(after);
        assert forall|region: int, seat: int|
            0 <= region < after.continents@.len() && 0 <= seat < after.seats()
            implies #[trigger] after.tally_ok(region, seat) by {
            assert(self.tally_ok(region, seat));
            assert(self.continent_ok(region));
            assert(self.continents@[region].territories_per_player@.len()
                == self.continents@[region].territories_per_player.len());
            lemma_sum_by_update(ts, occupation_weight(seat as usize, region as usize), t, now);
            if region != c {
                assert(after.continents@[region] == self.continents@[region]);
            }
        }
        assert forall|u: int|
            0 <= u < after.territories@.len() implies #[trigger] after.occupant_ok(u) by {
            assert(self.occupant_ok(u));
        }
        assert forall|i: int| 0 <= i < after.free_territories@.len() implies {
            let u = #[trigger] after.free_territories@[i];
            u < after.territories@.len() && after.territories@[u as int].player is None
        } by {
            let u = self.free_territories@[i];
            assert(u < ts.len() && ts[u as int].player is None);
        }
        assert forall|p: int|
            0 <= p < noted.len()
            implies (#[trigger] noted[p]).index == p && after.agrees_with(noted[p]) by {
            let was = before[p];
            let record = noted[p];
            assert(was.index == p && self.agrees_with(was));
            if p == from {
                lemma_without_keeps(was.territories@, t as usize);
                lemma_without_keeps(was.continents@, c);
            } else if p == to {
                lemma_with_holds(was.territories@, t as usize);
                lemma_with_holds(was.continents@, c);
                assert(!was.continents@.contains(c));
            } else {
                assert(record == was);
            }
            assert forall|u: usize| #[trigger]
                record.territories@.contains(u) <==> u < after.territories@.len()
                    && after.territories@[u as int].player == Some(record.index) by {
                assert(was.territories@.contains(u) <==> u < ts.len() && ts[u as int].player
                    == Some(was.index));
            }
            assert forall|d: usize| #[trigger]
                record.continents@.contains(d) <==> d < after.continents@.len()
                    && after.continents@[d as int].completed_by(record.index as int) by {
                assert(was.continents@.contains(d) <==> d < self.continents@.len()
                    && self.continents@[d as int].completed_by(was.index as int));
                if d < self.continents@.len() && d != c {
                    assert(after.continents@[d as int] == self.continents@[d as int]);
                }
            }
        }
        assert forall|player: usize| #[trigger]
            armies_of(after.territories@, player) == armies_of(ts, player) + (if player == to {
                ts[t].armies as int
            } else if player == from {
                -(ts[t].armies as int)
            } else {
                0
            }) by {
            lemma_sum_by_update(ts, army_weight(player), t, now);
        }
        lemma_sum_by_update(ts, garrison_weight(), t, now);
    }

    /// Gives a territory that player `from` occupies to player `to`, with the
    /// armies that stand on it. The continent of the territory counts it for
    /// `to` and no longer for `from`; `from` is no longer recorded as occupying
    /// the territory or all of the continent; `to` is recorded as occupying
    /// the territory, and all of the continent once it does.
    pub fn transfer_ownership(
        &mut self,
        territory: usize,
        players: &mut Vec<PlayerState>,
        from: usize,
        to: usize,
    )
        requires
            old(self).wf(),
            old(self).keeps(old(players)@),
            territory < old(self).territories@.len(),
            old(self).territories@[territory as int].player == Some(from),
            to < old(self).seats(),
            from != to,
        ensures
            old(self).transferred(*final(self), territory as int, from, to),
            old(self).transfer_noted(old(players)@, final(players)@, territory as int, from, to),
            final(self).wf(),
            final(self).keeps(final(players)@),
    {
        let continent_index: usize = self.territories[territory].continent;
        proof {
            let ts = self.territories@;
            let t = territory as int;
            assert(self.occupant_ok(t));
            assert(self.territory_ok(t));
            assert(self.continent_ok(continent_index as int));
            assert(self.tally_ok(continent_index as int, from as int));
            assert(self.tally_ok(continent_index as int, to as int));
            self.lemma_room_left(t, to);
            assert forall|i: int| 0 <= i < ts.len() implies 0 <= occupation_weight(
                from,
                continent_index,
            )(#[trigger] ts[i]) by {}
            crate::tally::lemma_sum_by_bounds(ts, occupation_weight(from, continent_index), t);
        }
        let lost: u32 = self.continents[continent_index].territories_per_player[from] - 1;
        self.continents[continent_index].territories_per_player[from] = lost;
        let won: u32 = self.continents[continent_index].territories_per_player[to] + 1;
        self.continents[continent_index].territories_per_player[to] = won;
        self.territories[territory].player = Some(to);
        players[from].remove_continent(continent_index);
        players[from].remove_territory(territory);
        players[to].add_territory(territory);
        if won == self.continents[continent_index].size {
            players[to].add_continent(continent_index);
        }
        proof {
            assert(self.territories@ == old(self).territories@.update(
                territory as int,
                Territory { player: Some(to), ..old(self).territories@[territory as int] },
            ));
            assert(old(self).transferred(*self, territory as int, from, to));
            assert(old(self).transfer_noted(old(players)@, players@, territory as int, from, to));
            old(self).lemma_transfer_keeps_wf(
                *self,
                old(players)@,
                players@,
                territory as int,
                from,
                to,
            );
        }
    }

    /// Whether `player` may make this attack: it occupies the attacking
    /// territory, which holds at least two armies and borders the defending
    /// one; another player occupies the defending territory; and the dice are
    /// at least one, at most `MAX_ATTACK_DICE`, and fewer than the armies on the
    /// attacking territory.
    pub open spec fn attack_allowed(self, player: usize, attack: Attack) -> bool {
        &&& attack.attacker < self.territories@.len()
        &&& attack.defender < self.territories@.len()
        &&& self.territories@[attack.attacker as int].player == Some(player)
        &&& self.territories@[attack.attacker as int].armies >= 2
        &&& self.territories@[attack.attacker as int].connections@.contains(attack.defender)
        &&& self.territories@[attack.defender as int].player is Some
        &&& self.territories@[attack.defender as int].player != Some(player)
        &&& 1 <= attack.dice <= MAX_ATTACK_DICE
        &&& attack.dice < self.territories@[attack.attacker as int].armies
    }

    /// Whether `player` may make this attack.
    pub fn allows_attack(&self, player: usize, attack: &Attack) -> (allowed: bool)
        ensures
            allowed == self.attack_allowed(player, *attack),
    {
        if attack.attacker >= self.territories.len() || attack.defender >= self.territories.len() {
            return false;
        }
        let from = &self.territories[attack.attacker];
        let target = &self.territories[attack.defender];
        let owns: bool = match from.player {
            Some(occupant) => occupant == player,
            None => false,
        };
        let hostile: bool = match target.player {
            Some(occupant) => occupant != player,
            None => false,
        };
        owns && from.armies >= 2 && from.borders(attack.defender) && hostile && 1 <= attack.dice
            && attack.dice <= MAX_ATTACK_DICE && attack.dice < from.armies
    }

    /// Whether the defender of this attack may defend with `dice` dice: at
    /// least one, at most `MAX_DEFENSE_DICE`, and no more than the armies on
    /// the defending territory.
    pub open spec fn defense_allowed(self, attack: Attack, dice: u32) -> bool {
        &&& attack.defender < self.territories@.len()
        &&& 1 <= dice <= MAX_DEFENSE_DICE
        &&& dice <= self.territories@[attack.defender as int].armies || dice == 1
    }

    /// Whether the defender of this attack may defend with `dice` dice.
    pub fn allows_defense(&self, attack: &Attack, dice: u32) -> (allowed: bool)
        ensures
            allowed == self.defense_allowed(*attack, dice),
    {
        attack.defender < self.territories.len() && 1 <= dice && dice <= MAX_DEFENSE_DICE && (dice
            <= self.territories[attack.defender].armies || dice == 1)
    }

    /// Whether the attacker may move `armies` armies into the territory that
    /// this attack has taken: no fewer than the dice of the attack, and fewer
    /// than stand on the attacking territory.
    pub open spec fn capture_allowed(self, attack: Attack, armies: u32) -> bool {
        &&& attack.attacker < self.territories@.len()
        &&& attack.dice <= armies < self.territories@[attack.attacker as int].armies
    }

    /// Whether the attacker may move `armies` armies into the territory that
    /// this attack has taken.
    pub fn allows_capture(&self, attack: &Attack, armies: u32) -> (allowed: bool)
        ensures
            allowed == self.capture_allowed(*attack, armies),
    {
        attack.attacker < self.territories.len() && attack.dice <= armies && armies
            < self.territories[attack.attacker].armies
    }

    /// Judges the attack that the strategy of `player` has answered: the
    /// player who defends if the rules allow the attack, and the error that
    /// ends the run if they do not.
    pub fn judge_attack(&self, player: usize, attack: &Attack) -> (result: Result<usize, GameError>)
        ensures
            match result {
                Ok(defender) => {
                    &&& self.attack_allowed(player, *attack)
                    &&& self.territories@[attack.defender as int].player == Some(defender)
                },
                Err(error) => {
                    &&& !self.attack_allowed(player, *attack)
                    &&& error == (GameError::IllegalDecision { player, decision: Decision::Attack })
                },
            },
    {
        if self.allows_attack(player, attack) {
            if let Some(defender) = self.territories[attack.defender].player {
                return Ok(defender);
            }
        }
        Err(GameError::IllegalDecision { player, decision: Decision::Attack })
    }

    /// Judges the number of dice that the strategy of `defender` has answered
    /// to an attack: the number if the rules allow it, and the error that ends
    /// the run if they do not.
    pub fn judge_defense(&self, defender: usize, attack: &Attack, dice: u32) -> (result: Result<
        u32,
        GameError,
    >)
        ensures
            match result {
                Ok(accepted) => self.defense_allowed(*attack, dice) && accepted == dice,
                Err(error) => {
                    &&& !self.defense_allowed(*attack, dice)
                    &&& error == (GameError::IllegalDecision {
                        player: defender,
                        decision: Decision::Defense,
                    })
                },
            },
    {
        if self.allows_defense(attack, dice) {
            Ok(dice)
        } else {
            Err(GameError::IllegalDecision { player: defender, decision: Decision::Defense })
        }
    }

    /// Judges the number of armies that the strategy of `player` has answered
    /// to move into the territory that its attack has taken: the number if the
    /// rules allow it, and the error that ends the run if they do not.
    pub fn judge_capture(&self, player: usize, attack: &Attack, armies: u32) -> (result: Result<
        u32,
        GameError,
    >)
        ensures
            match result {
                Ok(accepted) => self.capture_allowed(*attack, armies) && accepted == armies,
                Err(error) => {
                    &&& !self.capture_allowed(*attack, armies)
                    &&& error == (GameError::IllegalDecision { player, decision: Decision::Capture })
                },
            },
    {
        if self.allows_capture(attack, armies) {
            Ok(armies)
        } else {
            Err(GameError::IllegalDecision { player, decision: Decision::Capture })
        }
    }

    /// Adds a line of text to show beside the map, and says whether the lines
    /// are as many as fit there: it is then time to show the board and to
    /// clear them.
    pub fn set_extra_info(&mut self, text: String) -> (full: bool)
        ensures
            final(self).extra_info@ == old(self).extra_info@.push(text),
            full == (final(self).extra_info@.len() >= old(self).extra_info_lines),
            *final(self) == (BoardStruct { extra_info: final(self).extra_info, ..*old(self) }),
    {
        self.extra_info.push(text);
        self.extra_info.len() >= self.extra_info_lines
    }

    /// Clears the lines of text beside the map.
    pub fn clear_extra_info(&mut self)
        ensures
            final(self).extra_info@ == Seq::<String>::empty(),
            *final(self) == (BoardStruct { extra_info: final(self).extra_info, ..*old(self) }),
    {
        self.extra_info.clear();
    }
}

} // verus!
