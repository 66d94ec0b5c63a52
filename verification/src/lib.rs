//! A turn engine for a territorial-conquest board game: the board and its
//! ownership ledger, the players' records and strategies, dice and combat.
use crate::boards::{
    armies_of, armies_on, army_weight, BoardStruct, MAX_ATTACK_DICE, MAX_DEFENSE_DICE,
};
use crate::combat::{attacker_losses, battle, defender_losses, pairs};
use crate::continent::Continent;
use crate::dice::{are_faces, roll_dice};
use crate::tally::{
    lemma_sum_by_bounds, lemma_sum_by_eq, lemma_sum_by_push, lemma_sum_by_update,
    lemma_sum_by_zero, numbers, sum_by,
};
use crate::territory::Territory;
use crate::error::{Decision, GameError};
use crate::players::player::Player;
use crate::holdings::without;
use crate::players::player_state::PlayerState;
use vstd::prelude::*;

pub mod boards;
pub mod combat;
pub mod continent;
pub mod dice;
pub mod error;
pub mod holdings;
pub mod players;
pub mod tally;
pub mod territory;

verus! {

/// The armies that every player owns: in its reserve, on the board or in the box.
pub const ARMIES_PER_PLAYER: u32 = 180;

/// The fewest armies that a player with armies in the box receives at the
/// start of its turn.
pub const MIN_REINFORCEMENT: u32 = 3;

/// The number of occupied territories that earn one army at the start of a turn.
pub const TERRITORIES_PER_ARMY: usize = 3;

/// The fewest players that a game is set up for.
pub const MIN_PLAYERS: usize = 2;

/// The most players that a game is set up for.
pub const MAX_PLAYERS: usize = 6;

/// An attack: from which territory, on which, and with how many dice.
#[derive(Debug, Clone, Copy, PartialEq, Eq, Structural)]
pub struct Attack {
    pub dice: u32,
    /// The index of the territory that attacks.
    pub attacker: usize,
    /// The index of the territory that is attacked.
    pub defender: usize,
}

/// What one attack came to.
#[derive(Debug, PartialEq, Eq)]
pub struct BattleReport {
    pub attack: Attack,
    /// What the dice of the attacker showed, as they fell.
    pub attacker_rolls: Vec<u32>,
    /// What the dice of the defender showed, as they fell.
    pub defender_rolls: Vec<u32>,
    /// The armies that the attacking territory lost.
    pub attacker_losses: u32,
    /// The armies that the defending territory lost.
    pub defender_losses: u32,
    /// The armies that the attacker moved into the defending territory, if
    /// the attack took it.
    pub moved: Option<u32>,
    /// The player whom the attack defeated, if it defeated one.
    pub defeated: Option<usize>,
}

impl BattleReport {
    /// Whether the report hangs together: the attacker rolled as many dice
    /// as it attacked with, at most `MAX_ATTACK_DICE`, and the defender one at
    /// least and at most `MAX_DEFENSE_DICE`; the losses are what the dice say;
    /// and armies moved only into a territory that lost all, at no loss to the
    /// attacker, and no fewer than the attacker rolled dice.
    pub open spec fn coherent(self) -> bool {
        &&& self.attacker_rolls@.len() == self.attack.dice
        &&& 1 <= self.attack.dice <= MAX_ATTACK_DICE
        &&& 1 <= self.defender_rolls@.len() <= MAX_DEFENSE_DICE
        &&& self.attacker_losses == attacker_losses(self.attacker_rolls@, self.defender_rolls@)
        &&& self.defender_losses == defender_losses(self.attacker_rolls@, self.defender_rolls@)
        &&& self.attacker_losses + self.defender_losses == pairs(
            self.attacker_rolls@,
            self.defender_rolls@,
        )
        &&& match self.moved {
            Some(moved) => self.attacker_losses == 0 && self.attack.dice <= moved,
            None => self.defeated is None,
        }
    }
}

/// The armies that an attack cost both sides together.
pub open spec fn loss_weight() -> spec_fn(BattleReport) -> int {
    |battle: BattleReport| battle.attacker_losses + battle.defender_losses
}

/// Counts an attack that defeated a player.
pub open spec fn rout_weight() -> spec_fn(BattleReport) -> int {
    |battle: BattleReport|
        if battle.defeated is Some {
            1int
        } else {
            0int
        }
}

/// How a game ended.
#[derive(Debug, Clone, Copy, PartialEq, Eq, Structural)]
pub enum Outcome {
    /// The turns ran out before anybody had won.
    Incomplete,
    /// This player has defeated all others.
    Victory(usize),
}

/// How far a game went.
#[derive(Debug, Clone, Copy, PartialEq, Eq, Structural)]
pub struct Played {
    pub outcome: Outcome,
    /// The number of the turn that the game reached: of the turn that was
    /// won, or of the turn that was not taken any more. The first is turn one.
    pub turn: u64,
}

/// What one turn of a player came to.
#[derive(Debug)]
pub struct TurnReport {
    /// The armies that the player received at the start of the turn.
    pub received: u32,
    /// The placements that the player made, each a territory and a number of
    /// armies.
    pub placements: Vec<(usize, u32)>,
    /// The attacks that the player made, in their order.
    pub battles: Vec<BattleReport>,
    /// Whether the player has won the game with this turn.
    pub won: bool,
}

/// Where a game stands between two turns.
#[derive(Debug, Clone, Copy, PartialEq, Eq, Structural)]
pub struct Progress {
    /// The player whose turn is next.
    pub player: usize,
    /// The number of the turn that is next. The first is turn one.
    pub turn: u64,
    /// How many players in a row have been passed over since the last turn
    /// because they are defeated.
    pub passed_over: usize,
}

/// What a game did when it was asked to go on.
#[derive(Debug)]
pub enum Step {
    /// The player whose turn it was took it.
    Turn(TurnReport),
    /// The player whose turn it was is defeated and was passed over.
    PassedOver,
    /// The game does not go on: the number of the turn has reached the
    /// limit, or nobody is left to take a turn.
    Stopped,
}

/// A game: the players with their strategies and their records, the board,
/// and the box that holds the armies that are not in play.
pub struct Game {
    /// The strategies of the players, by player index.
    pub players: Vec<Box<dyn Player>>,
    /// The records of the players, by player index.
    pub states: Vec<PlayerState>,
    pub board: BoardStruct,
    /// How many players have lost their last territory.
    pub defeated_players: usize,
    /// The armies of each player that are neither in its reserve nor on the
    /// board, by player index.
    pub armies_in_box: Vec<u32>,
}

/// The reserve that each player starts with, by the number of players.
pub open spec fn starting_armies(players: int) -> int {
    if players == 2 {
        50
    } else if players == 3 {
        35
    } else if players == 4 {
        30
    } else if players == 5 {
        25
    } else {
        20
    }
}

/// How many rounds of dice decide who goes first before a tie is settled
/// without dice.
pub const MAX_REROLLS: u32 = 1000;

/// The highest of the rolls, zero where there is none.
pub open spec fn top_roll(rolls: Seq<u32>) -> int
    decreases rolls.len(),
{
    if rolls.len() == 0 {
        0
    } else if rolls.last() >= top_roll(rolls.drop_last()) {
        rolls.last() as int
    } else {
        top_roll(rolls.drop_last())
    }
}

/// Of the first `upto` candidates, those whose roll is `best`, in their order.
/// Candidate `i` has rolled `rolls[i]`.
pub open spec fn rolled(candidates: Seq<usize>, rolls: Seq<u32>, best: int, upto: int) -> Seq<usize>
    decreases upto,
{
    if upto <= 0 {
        Seq::empty()
    } else {
        let before = rolled(candidates, rolls, best, upto - 1);
        if rolls[upto - 1] == best {
            before.push(candidates[upto - 1])
        } else {
            before
        }
    }
}

/// The candidates that rolled highest, in their order. Candidate `i` has
/// rolled `rolls[i]`.
pub open spec fn leaders(candidates: Seq<usize>, rolls: Seq<u32>) -> Seq<usize> {
    rolled(candidates, rolls, top_roll(rolls), candidates.len() as int)
}

/// The highest roll is one of the rolls, and none is higher.
pub proof fn lemma_top_roll(rolls: Seq<u32>)
    ensures
        forall|i: int| 0 <= i < rolls.len() ==> #[trigger] rolls[i] <= top_roll(rolls),
        rolls.len() > 0 ==> exists|i: int| 0 <= i < rolls.len() && #[trigger] rolls[i] == top_roll(
            rolls,
        ),
    decreases rolls.len(),
{
    if rolls.len() > 0 {
        let rest = rolls.drop_last();
        lemma_top_roll(rest);
        assert forall|i: int|
            0 <= i < rolls.len() implies #[trigger] rolls[i] <= top_roll(rolls) by {
            if i < rest.len() {
                assert(rest[i] == rolls[i]);
            }
        }
        if rolls.last() >= top_roll(rest) {
            assert(rolls[rolls.len() - 1] == top_roll(rolls));
        } else {
            let i = choose|i: int| 0 <= i < rest.len() && #[trigger] rest[i] == top_roll(rest);
            assert(rolls[i] == top_roll(rolls));
        }
    }
}

/// Those who rolled `best` are candidates, no more of them than there are
/// candidates, and at least one as soon as one of them has rolled `best`.
pub proof fn lemma_rolled(candidates: Seq<usize>, rolls: Seq<u32>, best: int, upto: int)
    requires
        0 <= upto <= candidates.len(),
        candidates.len() == rolls.len(),
    ensures
        rolled(candidates, rolls, best, upto).len() <= upto,
        forall|i: int|
            0 <= i < rolled(candidates, rolls, best, upto).len() ==> candidates.contains(
                #[trigger] rolled(candidates, rolls, best, upto)[i],
            ),
        forall|i: int|
            0 <= i < upto && rolls[i] == best ==> rolled(candidates, rolls, best, upto).len() > 0,
    decreases upto,
{
    if upto > 0 {
        lemma_rolled(candidates, rolls, best, upto - 1);
        let before = rolled(candidates, rolls, best, upto - 1);
        let now = rolled(candidates, rolls, best, upto);
        assert forall|i: int| 0 <= i < now.len() implies candidates.contains(#[trigger] now[i]) by {
            if i < before.len() {
                assert(now[i] == before[i]);
            } else {
                assert(now[i] == candidates[upto - 1]);
            }
        }
    }
}

/// The highest of the rolls.
fn highest_roll(rolls: &Vec<u32>) -> (best: u32)
    ensures
        best == top_roll(rolls@),
{
    let mut best: u32 = 0;
    let mut i: usize = 0;
    while i < rolls.len()
        invariant
            i <= rolls@.len(),
            best == top_roll(rolls@.take(i as int)),
        decreases rolls@.len() - i,
    {
        proof {
            assert(rolls@.take(i + 1).drop_last() == rolls@.take(i as int));
        }
        if rolls[i] >= best {
            best = rolls[i];
        }
        i += 1;
    }
    assert(rolls@.take(rolls@.len() as int) == rolls@);
    best
}

/// One round of deciding who goes first: of the candidates, those who rolled
/// highest stay, in their order. Candidate `i` has rolled `rolls[i]`.
pub fn highest_rollers(candidates: &Vec<usize>, rolls: &Vec<u32>) -> (staying: Vec<usize>)
    requires
        candidates@.len() == rolls@.len(),
    ensures
        staying@ == leaders(candidates@, rolls@),
        staying@.len() <= candidates@.len(),
        candidates@.len() > 0 ==> staying@.len() > 0,
        forall|i: int| 0 <= i < staying@.len() ==> candidates@.contains(#[trigger] staying@[i]),
{
    let best: u32 = highest_roll(rolls);
    let mut staying: Vec<usize> = Vec::new();
    let mut i: usize = 0;
    while i < candidates.len()
        invariant
            i <= candidates@.len(),
            candidates@.len() == rolls@.len(),
            best == top_roll(rolls@),
            staying@ == rolled(candidates@, rolls@, best as int, i as int),
        decreases candidates@.len() - i,
    {
        if rolls[i] == best {
            staying.push(candidates[i]);
        }
        i += 1;
    }
    proof {
        lemma_top_roll(rolls@);
        lemma_rolled(candidates@, rolls@, best as int, candidates@.len() as int);
    }
    staying
}

/// Those of the candidates who are still tied after these rounds of dice: in
/// every round those who are tied roll a die each, in their order, and those
/// who rolled highest stay.
pub open spec fn tied_after(candidates: Seq<usize>, rounds: Seq<Seq<u32>>) -> Seq<usize>
    decreases rounds.len(),
{
    if rounds.len() == 0 {
        candidates
    } else {
        leaders(tied_after(candidates, rounds.drop_last()), rounds.last())
    }
}

/// Whether round `k` of these rounds of dice is a round that decides among
/// the candidates: more than one of them is still tied before it, and each
/// of those rolls one die in it.
pub open spec fn round_counts(candidates: Seq<usize>, rounds: Seq<Seq<u32>>, k: int) -> bool {
    let tied = tied_after(candidates, rounds.take(k));
    &&& tied.len() > 1
    &&& rounds[k].len() == tied.len()
    &&& are_faces(rounds[k])
}

/// Whether these rounds of dice decide who of the candidates goes first:
/// every round counts, they are `MAX_REROLLS` at most, and they go on until
/// one candidate is left or `MAX_REROLLS` rounds are rolled.
pub open spec fn decisive(candidates: Seq<usize>, rounds: Seq<Seq<u32>>) -> bool {
    &&& rounds.len() <= MAX_REROLLS
    &&& forall|k: int| 0 <= k < rounds.len() ==> #[trigger] round_counts(candidates, rounds, k)
    &&& tied_after(candidates, rounds).len() == 1 || (tied_after(candidates, rounds).len() > 1
        && rounds.len() == MAX_REROLLS)
}

/// Decides which player gets to go first. Every player rolls one die; those
/// who rolled highest roll again among themselves, until one of them is left.
/// Where `MAX_REROLLS` rounds of dice have left a tie, the first of those who
/// are still tied begins.
pub fn first_player(players: &Vec<PlayerState>) -> (first: usize)
    requires
        players@.len() > 0,
    ensures
        first < players@.len(),
        exists|rounds: Seq<Seq<u32>>|
            decisive(numbers(players@.len()), rounds) && first == (#[trigger] tied_after(
                numbers(players@.len()),
                rounds,
            ))[0],
{
    let mut candidates: Vec<usize> = Vec::new();
    let mut p: usize = 0;
    while p < players.len()
        invariant
            p <= players@.len(),
            candidates@ == numbers(p as nat),
        decreases players@.len() - p,
    {
        candidates.push(p);
        p += 1;
    }
    let ghost all = numbers(players@.len());
    let ghost mut rounds: Seq<Seq<u32>> = Seq::empty();
    let mut rerolls: u32 = 0;
    while candidates.len() > 1 && rerolls < MAX_REROLLS
        invariant
            all == numbers(players@.len()),
            candidates@.len() > 0,
            forall|i: int| 0 <= i < candidates@.len()
                ==> #[trigger] candidates@[i] < players@.len(),
            rounds.len() == rerolls,
            rerolls <= MAX_REROLLS,
            candidates@ == tied_after(all, rounds),
            forall|k: int| 0 <= k < rounds.len() ==> #[trigger] round_counts(all, rounds, k),
        decreases MAX_REROLLS - rerolls,
    {
        let rolls: Vec<u32> = crate::dice::roll_each(candidates.len());
        let staying: Vec<usize> = highest_rollers(&candidates, &rolls);
        proof {
            assert forall|i: int|
                0 <= i < staying@.len() implies #[trigger] staying@[i] < players@.len() by {
                assert(candidates@.contains(staying@[i]));
            }
            let rolled_so_far = rounds;
            rounds = rounds.push(rolls@);
            assert(rounds.drop_last() == rolled_so_far);
            assert forall|k: int| 0 <= k < rounds.len() implies #[trigger] round_counts(
                all,
                rounds,
                k,
            ) by {
                if k < rolled_so_far.len() {
                    assert(round_counts(all, rolled_so_far, k));
                    assert(rounds.take(k) == rolled_so_far.take(k));
                } else {
                    assert(rounds.take(k) == rolled_so_far);
                }
            }
        }
        candidates = staying;
        rerolls += 1;
    }
    proof {
        assert(decisive(all, rounds));
    }
    candidates[0]
}

/// The reward for occupying a continent entirely, as a weight of its index.
pub open spec fn reward_weight(continents: Seq<Continent>) -> spec_fn(usize) -> int {
    |continent: usize| continents[continent as int].armies_reward as int
}

/// Counts a player that has lost its last territory.
pub open spec fn defeat_weight() -> spec_fn(PlayerState) -> int {
    |state: PlayerState|
        if state.defeated {
            1int
        } else {
            0int
        }
}

/// The armies of a placement.
pub open spec fn amount_weight() -> spec_fn((usize, u32)) -> int {
    |placement: (usize, u32)| placement.1 as int
}

/// The armies of a placement if it is on `territory`.
pub open spec fn amount_on(territory: usize) -> spec_fn((usize, u32)) -> int {
    |placement: (usize, u32)|
        if placement.0 == territory {
            placement.1 as int
        } else {
            0int
        }
}

/// The reserve that each player starts with, by the number of players: 50
/// armies in a game of two, 35 of three, 30 of four, 25 of five and 20 of six.
pub fn starting_reserve(players: usize) -> (armies: u32)
    requires
        MIN_PLAYERS <= players <= MAX_PLAYERS,
    ensures
        armies == starting_armies(players as int),
{
    if players == 2 {
        50
    } else if players == 3 {
        35
    } else if players == 4 {
        30
    } else if players == 5 {
        25
    } else {
        20
    }
}

/// How many players further in the order of the indices the turn of player
/// `player` comes after that of player `q`, in a game of `seats` players: one
/// for the player before `player`, and `seats` for `player` itself.
pub open spec fn turns_behind(q: int, player: int, seats: int) -> int {
    if q < player {
        player - q
    } else {
        player + seats - q
    }
}

/// The number of claims that player `p` makes among the first `claims`
/// claims of a game of `seats` players in which player `first` claims first
/// and the players take turns in the order of their indices.
pub open spec fn claims_of(p: int, first: int, seats: int, claims: int) -> int
    decreases claims,
{
    if claims <= 0 {
        0
    } else {
        claims_of(p, first, seats, claims - 1) + if (first + claims - 1) % seats == p {
            1int
        } else {
            0int
        }
    }
}

/// The player after the one who makes claim number `claims` is next in the
/// order of the indices, and the first again after the last.
pub proof fn lemma_next_in_turn(first: int, claims: int, seats: int)
    requires
        0 <= first,
        0 <= claims,
        0 < seats,
    ensures
        (first + claims + 1) % seats == if (first + claims) % seats + 1 < seats {
            (first + claims) % seats + 1
        } else {
            0
        },
{
    let turn = first + claims;
    assert(turn == (turn / seats) * seats + turn % seats) by (nonlinear_arith)
        requires
            seats > 0,
    ;
    assert(0 <= turn % seats < seats) by (nonlinear_arith)
        requires
            seats > 0,
    ;
    if turn % seats + 1 < seats {
        vstd::arithmetic::div_mod::lemma_fundamental_div_mod_converse(
            turn + 1,
            seats,
            turn / seats,
            turn % seats + 1,
        );
    } else {
        assert(turn + 1 == (turn / seats + 1) * seats + 0) by (nonlinear_arith)
            requires
                turn == (turn / seats) * seats + turn % seats,
                turn % seats + 1 == seats,
        ;
        vstd::arithmetic::div_mod::lemma_fundamental_div_mod_converse(
            turn + 1,
            seats,
            turn / seats + 1,
            0,
        );
    }
}

impl Game {
    /// Whether the armies of player `p` are all accounted for: those in its
    /// reserve, those on the board and those in the box are `ARMIES_PER_PLAYER`
    /// together.
    pub open spec fn accounts_ok(self, p: int) -> bool {
        self.states@[p].armies + armies_of(self.board.territories@, p as usize)
            + self.armies_in_box@[p] == ARMIES_PER_PLAYER
    }

    /// Whether the game is sound: the board is, the records of the players are
    /// in step with it, and no army has appeared or vanished.
    pub open spec fn wf(self) -> bool {
        &&& self.board.wf()
        &&& self.board.keeps(self.states@)
        &&& self.players@.len() == self.states@.len()
        &&& self.armies_in_box@.len() == self.states@.len()
        &&& forall|p: int| 0 <= p < self.states@.len() ==> #[trigger] self.accounts_ok(p)
        &&& self.defeated_players == sum_by(self.states@, defeat_weight())
        &&& forall|p: int| 0 <= p < self.states@.len() ==> #[trigger] self.rout_ok(p)
    }

    /// Whether player `p` occupies nothing if it is marked as defeated.
    pub open spec fn rout_ok(self, p: int) -> bool {
        self.states@[p].defeated ==> self.states@[p].territories@.len() == 0
    }

    /// Where nobody is counted as defeated, nobody is marked as defeated.
    pub proof fn lemma_nobody_defeated(self, p: int)
        requires
            self.wf(),
            self.defeated_players == 0,
            0 <= p < self.states@.len(),
        ensures
            !self.states@[p].defeated,
    {
        assert forall|q: int| 0 <= q < self.states@.len() implies 0 <= defeat_weight()(
            #[trigger] self.states@[q],
        ) by {}
        lemma_sum_by_bounds(self.states@, defeat_weight(), p);
    }

    /// Where all players but one are counted as defeated and player `p` is
    /// not marked as defeated, all others are.
    pub proof fn lemma_last_standing(self, p: int, q: int)
        requires
            self.wf(),
            self.defeated_players + 1 == self.states@.len(),
            0 <= p < self.states@.len(),
            0 <= q < self.states@.len(),
            !self.states@[p].defeated,
            p != q,
        ensures
            self.states@[q].defeated,
    {
        if !self.states@[q].defeated {
            let one = self.states@.update(p, PlayerState { defeated: true, ..self.states@[p] });
            let both = one.update(q, PlayerState { defeated: true, ..self.states@[q] });
            lemma_sum_by_update(
                self.states@,
                defeat_weight(),
                p,
                PlayerState { defeated: true, ..self.states@[p] },
            );
            lemma_sum_by_update(
                one,
                defeat_weight(),
                q,
                PlayerState { defeated: true, ..self.states@[q] },
            );
            assert forall|i: int| 0 <= i < both.len() implies 0 <= defeat_weight()(
                #[trigger] both[i],
            ) <= 1 by {}
            crate::tally::lemma_sum_by_count(both, defeat_weight());
        }
    }

    /// Once no territory is free, all players but one are counted as defeated
    /// and player `p` is not marked as defeated, `p` occupies every territory.
    pub proof fn lemma_winner_takes_all(self, p: int, t: int)
        requires
            self.wf(),
            self.board.free_territories@.len() == 0,
            self.defeated_players + 1 == self.states@.len(),
            0 <= p < self.states@.len(),
            !self.states@[p].defeated,
            0 <= t < self.board.territories@.len(),
        ensures
            self.board.territories@[t].player == Some(p as usize),
    {
        assert(self.board.occupant_ok(t));
        assert(self.board.territories@.len() == self.board.territories.len());
        let occupant = self.board.territories@[t].player->0;
        if occupant != p {
            self.lemma_last_standing(p, occupant as int);
            assert(self.rout_ok(occupant as int));
            assert(self.board.agrees_with(self.states@[occupant as int]));
            assert(self.states@[occupant as int].territories@.contains(t as usize));
        }
    }

    /// Records that differ in neither length nor any mark of defeat count the
    /// same number of defeated players.
    pub proof fn lemma_same_defeats(before: Seq<PlayerState>, after: Seq<PlayerState>)
        requires
            before.len() == after.len(),
            forall|p: int| 0 <= p < before.len()
                ==> (#[trigger] after[p]).defeated == before[p].defeated,
        ensures
            sum_by(after, defeat_weight()) == sum_by(before, defeat_weight()),
    {
        assert forall|p: int| 0 <= p < after.len() implies defeat_weight()(#[trigger] after[p])
            == defeat_weight()(before[p]) by {}
        lemma_sum_by_eq(after, defeat_weight(), before, defeat_weight());
    }

    /// Whether the game has not begun: the reserves are empty, the box is
    /// full, and nobody occupies anything or is defeated.
    pub open spec fn untouched(self) -> bool {
        &&& self.board.unoccupied()
        &&& self.defeated_players == 0
        &&& forall|p: int|
            0 <= p < self.states@.len() ==> {
                let state = #[trigger] self.states@[p];
                &&& state.armies == 0
                &&& !state.defeated
                &&& state.territories@.len() == 0
                &&& state.continents@.len() == 0
                &&& self.armies_in_box@[p] == ARMIES_PER_PLAYER
            }
    }

    /// A game of these players on this board, on which nobody has claimed
    /// anything yet. The players are numbered by their position in the list,
    /// every player enters with the record that `PlayerState::enter` makes of
    /// what its `get_state` returns, and gets `ARMIES_PER_PLAYER` armies in
    /// the box.
    pub fn new(players: Vec<Box<dyn Player>>, board: BoardStruct) -> (game: Game)
        requires
            board.wf(),
            board.unoccupied(),
            board.seats() == players@.len(),
        ensures
            game.wf(),
            game.untouched(),
            game.players == players,
            game.board == board,
            game.states@.len() == players@.len(),
    {
        let mut states: Vec<PlayerState> = Vec::new();
        let mut armies_in_box: Vec<u32> = Vec::new();
        let mut p: usize = 0;
        while p < players.len()
            invariant
                p <= players@.len(),
                states@.len() == p,
                armies_in_box@.len() == p,
                forall|q: int|
                    0 <= q < p ==> {
                        let state = #[trigger] states@[q];
                        &&& state.index == q
                        &&& state.armies == 0
                        &&& !state.defeated
                        &&& state.territories@.len() == 0
                        &&& state.continents@.len() == 0
                    },
                forall|q: int| 0 <= q < p ==> #[trigger] armies_in_box@[q] == ARMIES_PER_PLAYER,
            decreases players@.len() - p,
        {
            let state: PlayerState = players[p].get_state().enter(p);
            states.push(state);
            armies_in_box.push(ARMIES_PER_PLAYER);
            p += 1;
        }
        let game = Game { players, states, board, defeated_players: 0, armies_in_box };
        proof {
            assert forall|q: int| 0 <= q < game.states@.len()
                implies (#[trigger] game.states@[q]).index
                == q && game.board.agrees_with(game.states@[q]) by {
                let state = game.states@[q];
                assert forall|c: usize| #[trigger]
                    state.continents@.contains(c) <==> c < game.board.continents@.len()
                        && game.board.continents@[c as int].completed_by(state.index as int) by {
                    if c < game.board.continents@.len() {
                        assert(game.board.tally_ok(c as int, q));
                        assert forall|u: int|
                            0 <= u < game.board.territories@.len()
                                implies crate::boards::occupation_weight(
                            q as usize,
                            c,
                        )(#[trigger] game.board.territories@[u]) == 0 by {}
                        crate::tally::lemma_sum_by_zero(
                            game.board.territories@,
                            crate::boards::occupation_weight(q as usize, c),
                        );
                    }
                }
            }
            assert forall|q: int| 0 <= q < game.states@.len() implies defeat_weight()(
                #[trigger] game.states@[q],
            ) == 0 by {}
            lemma_sum_by_zero(game.states@, defeat_weight());
            assert forall|q: int|
                0 <= q < game.states@.len() implies #[trigger] game.rout_ok(q) by {
                assert(!game.states@[q].defeated);
            }
            assert forall|q: int|
                0 <= q < game.states@.len() implies #[trigger] game.accounts_ok(q) by {
                assert(game.states@[q].armies == 0);
                assert(game.armies_in_box@[q] == ARMIES_PER_PLAYER);
                assert forall|u: int|
                    0 <= u < game.board.territories@.len() implies crate::boards::army_weight(
                    q as usize,
                )(#[trigger] game.board.territories@[u]) == 0 by {}
                crate::tally::lemma_sum_by_zero(
                    game.board.territories@,
                    crate::boards::army_weight(q as usize),
                );
            }
        }
        game
    }

    /// Whether the box holds `armies` armies of player `index`; if not, the
    /// error that says so.
    pub fn assert_enough_armies(&self, index: usize, armies: u32) -> (result: Result<(), GameError>)
        requires
            index < self.armies_in_box@.len(),
        ensures
            result == if self.armies_in_box@[index as int] >= armies {
                Ok::<(), GameError>(())
            } else {
                Err::<(), GameError>(
                    GameError::InsufficientArmies {
                        player: index,
                        requested: armies,
                        available: self.armies_in_box@[index as int],
                    },
                )
            },
    {
        if self.armies_in_box[index] >= armies {
            Ok(())
        } else {
            Err(
                GameError::InsufficientArmies {
                    player: index,
                    requested: armies,
                    available: self.armies_in_box[index],
                },
            )
        }
    }

    /// Whether `after` is `self` with `armies` armies of player `p` moved from
    /// the box into its reserve, and nothing else changed.
    pub open spec fn funded(self, after: Game, p: int, armies: u32) -> bool {
        &&& 0 <= p < self.states@.len()
        &&& armies <= self.armies_in_box@[p]
        &&& self.states@[p].armies + armies <= u32::MAX
        &&& after == (Game { states: after.states, armies_in_box: after.armies_in_box, ..self })
        &&& after.states@ == self.states@.update(
            p,
            PlayerState { armies: (self.states@[p].armies + armies) as u32, ..self.states@[p] },
        )
        &&& after.armies_in_box@ == self.armies_in_box@.update(
            p,
            (self.armies_in_box@[p] - armies) as u32,
        )
    }

    /// Moves `armies` armies of `player` from the box into its reserve. Where
    /// the box holds fewer, nothing changes.
    pub fn fund(&mut self, player: usize, armies: u32) -> (result: Result<(), GameError>)
        requires
            old(self).wf(),
            player < old(self).states@.len(),
        ensures
            final(self).wf(),
            match result {
                Ok(()) => {
                    &&& armies <= old(self).armies_in_box@[player as int]
                    &&& old(self).funded(*final(self), player as int, armies)
                },
                Err(error) => {
                    &&& armies > old(self).armies_in_box@[player as int]
                    &&& error == (GameError::InsufficientArmies {
                        player,
                        requested: armies,
                        available: old(self).armies_in_box@[player as int],
                    })
                    &&& *final(self) == *old(self)
                },
            },
    {
        match self.assert_enough_armies(player, armies) {
            Err(error) => {
                return Err(error);
            },
            Ok(()) => {},
        }
        proof {
            assert(self.accounts_ok(player as int));
            assert forall|u: int| 0 <= u < self.board.territories@.len() implies 0
                <= crate::boards::army_weight(player)(#[trigger] self.board.territories@[u]) by {}
            crate::tally::lemma_sum_by_nonnegative(
                self.board.territories@,
                crate::boards::army_weight(player),
            );
        }
        self.states[player].armies = self.states[player].armies + armies;
        self.armies_in_box[player] = self.armies_in_box[player] - armies;
        proof {
            assert(self.states@ == old(self).states@.update(
                player as int,
                PlayerState {
                    armies: (old(self).states@[player as int].armies + armies) as u32,
                    ..old(self).states@[player as int]
                },
            ));
            assert forall|p: int| 0 <= p < self.states@.len()
                implies (#[trigger] self.states@[p]).index
                == p && self.board.agrees_with(self.states@[p]) by {
                let was = old(self).states@[p];
                assert(was.index == p && self.board.agrees_with(was));
            }
            assert forall|p: int|
                0 <= p < self.states@.len() implies #[trigger] self.accounts_ok(p) by {
                assert(old(self).accounts_ok(p));
            }
            Self::lemma_same_defeats(old(self).states@, self.states@);
            assert forall|p: int|
                0 <= p < self.states@.len() implies #[trigger] self.rout_ok(p) by {
                assert(old(self).rout_ok(p));
            }
        }
        Ok(())
    }

    /// Whether player `p` is the first whose box holds fewer armies than a
    /// player starts with.
    pub open spec fn runs_short(self, p: int) -> bool {
        let start = starting_armies(self.states@.len() as int);
        &&& self.armies_in_box@[p] < start
        &&& forall|q: int| 0 <= q < p ==> start <= #[trigger] self.armies_in_box@[q]
    }

    /// The game setup hands out the initial amount of armies to the players
    /// and lets the players claim their first territories.
    ///
    /// Every player draws its starting reserve from the box. The players then
    /// claim one free territory each in turn, beginning with the one whom the
    /// dice let go first, until no territory is free. Returns the player who
    /// began.
    pub fn setup(&mut self) -> (result: Result<usize, GameError>)
        requires
            old(self).wf(),
            old(self).defeated_players == 0,
            MIN_PLAYERS <= old(self).states@.len() <= MAX_PLAYERS,
        ensures
            final(self).wf(),
            final(self).players == old(self).players,
            final(self).defeated_players == old(self).defeated_players,
            old(self).board.same_map(final(self).board),
            final(self).states@.len() == old(self).states@.len(),
            match result {
                Ok(first) => {
                    &&& first < old(self).states@.len()
                    &&& final(self).board.free_territories@.len() == 0
                    &&& forall|c: int|
                        0 <= c < final(self).board.continents@.len() ==> crate::tally::total(
                            (#[trigger] final(self).board.continents@[c]).territories_per_player@,
                        ) == final(self).board.continents@[c].size
                    &&& forall|p: int|
                        0 <= p < old(self).states@.len() ==> {
                            let state = #[trigger] final(self).states@[p];
                            let seats = old(self).states@.len() as int;
                            let claims = claims_of(
                                p,
                                first as int,
                                seats,
                                old(self).board.free_territories@.len() as int,
                            );
                            &&& state.territories@.len() == old(self).states@[p].territories@.len()
                                + claims
                            &&& state.armies == old(self).states@[p].armies + starting_armies(seats)
                                - claims
                            &&& final(self).armies_in_box@[p] == old(self).armies_in_box@[p]
                                - starting_armies(seats)
                        }
                },
                Err(error) => {
                    ||| error matches GameError::InsufficientArmies { .. }
                    ||| error matches GameError::IllegalDecision { decision: Decision::Claim, .. }
                },
            },
            forall|p: int|
                0 <= p < old(self).states@.len() && old(self).runs_short(p) ==> result == Err::<
                    usize,
                    GameError,
                >(
                    GameError::InsufficientArmies {
                        player: p as usize,
                        requested: starting_armies(old(self).states@.len() as int) as u32,
                        available: #[trigger] old(self).armies_in_box@[p],
                    },
                ),
            old(self).board.free_territories@.len() == 0 && (forall|p: int|
                0 <= p < old(self).states@.len() ==> starting_armies(
                    old(self).states@.len() as int,
                ) <= #[trigger] old(self).armies_in_box@[p]) ==> result is Ok,
    {
        let seats: usize = self.states.len();
        let armies_per_player: u32 = starting_reserve(seats);
        proof {
            old(self).board.lemma_same_map_reflexive();
        }
        let mut p: usize = 0;
        while p < seats
            invariant
                p <= seats,
                seats == self.states@.len(),
                seats == old(self).states@.len(),
                armies_per_player == starting_armies(seats as int),
                self.wf(),
                self.players == old(self).players,
                self.board == old(self).board,
                self.defeated_players == old(self).defeated_players,
                forall|q: int|
                    0 <= q < p ==> {
                        let state = #[trigger] self.states@[q];
                        &&& state.territories == old(self).states@[q].territories
                        &&& state.armies == old(self).states@[q].armies + armies_per_player
                        &&& self.armies_in_box@[q] == old(self).armies_in_box@[q] - armies_per_player
                    },
                forall|q: int|
                    0 <= q < p ==> armies_per_player <= #[trigger] old(self).armies_in_box@[q],
                forall|q: int|
                    p <= q < seats ==> #[trigger] self.states@[q] == old(self).states@[q]
                        && self.armies_in_box@[q] == old(self).armies_in_box@[q],
            decreases seats - p,
        {
            let ghost before = *self;
            match self.fund(p, armies_per_player) {
                Err(error) => {
                    proof {
                        assert(before.states@[p as int] == old(self).states@[p as int]);
                        assert(old(self).runs_short(p as int));
                        assert forall|q: int|
                            0 <= q < seats && old(self).runs_short(q) implies q == p by {
                            if q < p {
                                assert(armies_per_player <= old(self).armies_in_box@[q]);
                            }
                        }
                    }
                    return Err(error);
                },
                Ok(()) => {},
            }
            proof {
                assert(before.funded(*self, p as int, armies_per_player));
                assert forall|q: int| p < q < seats implies #[trigger] self.states@[q] == old(
                    self,
                ).states@[q] && self.armies_in_box@[q] == old(self).armies_in_box@[q] by {
                    assert(before.states@[q] == old(self).states@[q]);
                }
                assert forall|q: int| 0 <= q <= p implies {
                    let state = #[trigger] self.states@[q];
                    &&& state.territories == old(self).states@[q].territories
                    &&& state.armies == old(self).states@[q].armies + armies_per_player
                    &&& self.armies_in_box@[q] == old(self).armies_in_box@[q] - armies_per_player
                } by {
                    if q < p {
                        let state = before.states@[q];
                        assert(state.territories == old(self).states@[q].territories);
                    } else {
                        assert(before.states@[q] == old(self).states@[q]);
                    }
                }
            }
            p += 1;
        }
        let first: usize = first_player(&self.states);
        let mut player: usize = first;
        let ghost free_at_first = self.board.free_territories@.len() as int;
        let ghost mut claims: int = 0;
        while self.board.free_territories.len() > 0
            invariant
                seats == self.states@.len(),
                seats == old(self).states@.len(),
                MIN_PLAYERS <= seats <= MAX_PLAYERS,
                first < seats,
                player < seats,
                0 <= claims,
                claims + self.board.free_territories@.len() == free_at_first,
                free_at_first == old(self).board.free_territories@.len(),
                player == (first + claims) % (seats as int),
                self.wf(),
                self.players == old(self).players,
                self.defeated_players == 0,
                self.defeated_players == old(self).defeated_players,
                old(self).board.same_map(self.board),
                armies_per_player == starting_armies(seats as int),
                forall|q: int|
                    0 <= q < seats ==> armies_per_player <= #[trigger] old(self).armies_in_box@[q],
                forall|q: int|
                    0 <= q < seats ==> {
                        let state = #[trigger] self.states@[q];
                        let claimed = claims_of(q, first as int, seats as int, claims);
                        &&& state.territories@.len() == old(self).states@[q].territories@.len()
                            + claimed
                        &&& state.armies == old(self).states@[q].armies + armies_per_player
                            - claimed
                        &&& self.armies_in_box@[q] == old(self).armies_in_box@[q] - armies_per_player
                    },
            decreases self.board.free_territories@.len(),
        {
            let choice: usize = self.players[player].claim_territory(&self.board);
            let ghost before = *self;
            proof {
                self.board.lemma_sound_is_open(choice);
            }
            match self.board.claim_territory(choice, &mut self.states[player]) {
                Err(error) => {
                    proof {
                        assert(self.states@ == before.states@);
                        assert forall|q: int|
                            0 <= q < self.states@.len() implies #[trigger] self.accounts_ok(q) by {
                            assert(before.accounts_ok(q));
                        }
                        assert forall|q: int|
                            0 <= q < self.states@.len() implies #[trigger] self.rout_ok(q) by {
                            assert(before.rout_ok(q));
                        }
                    }
                    return Err(error);
                },
                Ok(()) => {},
            }
            proof {
                let noted = self.states@[player as int];
                let territory = before.board.free_territories@[choice as int];
                assert(self.states@ == before.states@.update(player as int, noted));
                before.board.lemma_claim_keeps_wf(self.board, choice as int, player);
                before.board.lemma_claim_keeps_all(
                    self.board,
                    choice as int,
                    before.states@,
                    player as int,
                    noted,
                );
                assert forall|q: int|
                    0 <= q < self.states@.len() implies #[trigger] self.accounts_ok(q) by {
                    assert(before.accounts_ok(q));
                }
                Self::lemma_same_defeats(before.states@, self.states@);
                assert forall|q: int|
                    0 <= q < self.states@.len() implies #[trigger] self.rout_ok(q) by {
                    before.lemma_nobody_defeated(q);
                }
                old(self).board.lemma_same_map_transitive(before.board, self.board);
                assert(before.board.agrees_with(before.states@[player as int]));
                assert(!before.states@[player as int].territories@.contains(territory));
                assert forall|q: int| 0 <= q < seats implies {
                    let state = #[trigger] self.states@[q];
                    let claimed = claims_of(q, first as int, seats as int, claims + 1);
                    &&& state.territories@.len() == old(self).states@[q].territories@.len()
                        + claimed
                    &&& state.armies == old(self).states@[q].armies + armies_per_player - claimed
                    &&& self.armies_in_box@[q] == old(self).armies_in_box@[q] - armies_per_player
                } by {
                    let was = before.states@[q];
                    assert(was.territories@.len() == old(self).states@[q].territories@.len()
                        + claims_of(q, first as int, seats as int, claims));
                }
                lemma_next_in_turn(first as int, claims, seats as int);
                claims = claims + 1;
            }
            player = if player + 1 < seats {
                player + 1
            } else {
                0
            };
        }
        proof {
            assert forall|c: int| 0 <= c < self.board.continents@.len() implies crate::tally::total(
                (#[trigger] self.board.continents@[c]).territories_per_player@,
            ) == self.board.continents@[c].size by {
                self.board.lemma_full_board(c);
            }
        }
        Ok(first)
    }

    /// The armies that player `p` is entitled to at the start of its turn:
    /// one for every `TERRITORIES_PER_ARMY` territories that it occupies, at
    /// least `MIN_REINFORCEMENT`, and the reward of every continent that it
    /// occupies entirely.
    pub open spec fn entitlement(self, p: int) -> int {
        let earned = self.states@[p].territories@.len() as int / TERRITORIES_PER_ARMY as int;
        (if earned > MIN_REINFORCEMENT {
            earned
        } else {
            MIN_REINFORCEMENT as int
        }) + sum_by(self.states@[p].continents@, reward_weight(self.board.continents@))
    }

    /// The armies that player `p` receives at the start of its turn: those
    /// that it is entitled to, as far as the box holds them.
    pub open spec fn reinforcement(self, p: int) -> int {
        if self.entitlement(p) < self.armies_in_box@[p] {
            self.entitlement(p)
        } else {
            self.armies_in_box@[p] as int
        }
    }

    /// Hands a player the armies that it receives at the start of its turn:
    /// they move from the box into its reserve. Returns how many they are.
    pub fn army_accumulation(&mut self, player: usize) -> (armies: u32)
        requires
            old(self).wf(),
            player < old(self).states@.len(),
        ensures
            final(self).wf(),
            armies == old(self).reinforcement(player as int),
            old(self).funded(*final(self), player as int, armies),
    {
        let available: u32 = self.armies_in_box[player];
        let earned: usize = self.states[player].territories.len() / TERRITORIES_PER_ARMY;
        let base: u32 = if earned > MIN_REINFORCEMENT as usize {
            if earned > available as usize {
                available
            } else {
                earned as u32
            }
        } else if MIN_REINFORCEMENT > available {
            available
        } else {
            MIN_REINFORCEMENT
        };
        let ghost due = if earned > MIN_REINFORCEMENT {
            earned as int
        } else {
            MIN_REINFORCEMENT as int
        };
        let ghost rewards = reward_weight(self.board.continents@);
        let mut armies: u32 = base;
        let mut i: usize = 0;
        while i < self.states[player].continents.len()
            invariant
                *self == *old(self),
                self.wf(),
                player < self.states@.len(),
                available == self.armies_in_box@[player as int],
                rewards == reward_weight(self.board.continents@),
                i <= self.states@[player as int].continents@.len(),
                0 <= sum_by(self.states@[player as int].continents@.take(i as int), rewards),
                armies == if due + sum_by(
                    self.states@[player as int].continents@.take(i as int),
                    rewards,
                ) < available {
                    due + sum_by(self.states@[player as int].continents@.take(i as int), rewards)
                } else {
                    available as int
                },
            decreases self.states@[player as int].continents@.len() - i,
        {
            let continent: usize = self.states[player].continents[i];
            proof {
                let held = self.states@[player as int].continents@;
                assert(self.board.agrees_with(self.states@[player as int]));
                assert(held.contains(continent));
                assert(held.take(i + 1) == held.take(i as int).push(continent));
                lemma_sum_by_push(held.take(i as int), rewards, continent);
            }
            let reward: u32 = self.board.continents[continent].armies_reward;
            let extra: u32 = if reward > available - armies {
                available - armies
            } else {
                reward
            };
            armies = armies + extra;
            i += 1;
        }
        proof {
            let held = self.states@[player as int].continents@;
            assert(held.take(held.len() as int) == held);
        }
        // The box holds what the player receives: the armies are handed over.
        let handed: Result<(), GameError> = self.fund(player, armies);
        assert(handed is Ok);
        armies
    }

    /// Whether `after` has the free territories of `self` and the marks of
    /// defeat of its players.
    pub open spec fn same_standing(self, after: Game) -> bool {
        &&& after.board.free_territories == self.board.free_territories
        &&& after.states@.len() == self.states@.len()
        &&& forall|p: int|
            0 <= p < self.states@.len() ==> (#[trigger] after.states@[p]).defeated
                == self.states@[p].defeated
    }

    /// Why player `p` may not place `armies` armies of its reserve on
    /// territory `t`, if it may not: it does not occupy such a territory, or
    /// its reserve holds fewer armies.
    pub open spec fn placement_refusal(self, p: int, t: usize, armies: u32) -> Option<GameError> {
        if t >= self.board.territories@.len() || self.board.territories@[t as int].player != Some(
            p as usize,
        ) {
            Some(GameError::IllegalDecision { player: p as usize, decision: Decision::Placement })
        } else if self.states@[p].armies < armies {
            Some(
                GameError::InsufficientArmies {
                    player: p as usize,
                    requested: armies,
                    available: self.states@[p].armies,
                },
            )
        } else {
            None
        }
    }

    /// Whether `after` is `self` with `armies` armies of player `p` moved from
    /// its reserve onto territory `t`, and nothing else changed.
    pub open spec fn reinforced(self, after: Game, p: int, t: int, armies: u32) -> bool {
        &&& 0 <= p < self.states@.len()
        &&& armies <= self.states@[p].armies
        &&& 0 <= t < self.board.territories@.len()
        &&& self.board.territories@[t].armies + armies <= u32::MAX
        &&& after == (Game { states: after.states, board: after.board, ..self })
        &&& self.board.stationed(
            after.board,
            t,
            (self.board.territories@[t].armies + armies) as u32,
        )
        &&& after.states@ == self.states@.update(
            p,
            PlayerState { armies: (self.states@[p].armies - armies) as u32, ..self.states@[p] },
        )
    }

    /// No territory holds more armies than its occupant owns.
    pub proof fn lemma_garrison_bound(self, t: int)
        requires
            self.wf(),
            0 <= t < self.board.territories@.len(),
        ensures
            match self.board.territories@[t].player {
                Some(occupant) => {
                    &&& occupant < self.states@.len()
                    &&& self.board.territories@[t].armies <= armies_of(
                        self.board.territories@,
                        occupant,
                    )
                    &&& self.states@[occupant as int].armies + self.board.territories@[t].armies
                        + self.armies_in_box@[occupant as int] <= ARMIES_PER_PLAYER
                },
                None => self.board.territories@[t].armies == 0,
            },
    {
        assert(self.board.occupant_ok(t));
        match self.board.territories@[t].player {
            Some(occupant) => {
                assert(self.accounts_ok(occupant as int));
                assert forall|u: int| 0 <= u < self.board.territories@.len() implies 0
                    <= army_weight(occupant)(#[trigger] self.board.territories@[u]) by {}
                lemma_sum_by_bounds(self.board.territories@, army_weight(occupant), t);
            },
            None => {},
        }
    }

    /// A change of the armies on one territory and of the reserve of its
    /// occupant by the opposite amount, or of the box, leaves the game sound.
    proof fn lemma_accounts_kept(self, after: Game, t: int, armies: u32)
        requires
            self.wf(),
            self.board.stationed(after.board, t, armies),
            armies >= 1,
            after.players == self.players,
            after.defeated_players == self.defeated_players,
            after.states@.len() == self.states@.len(),
            after.armies_in_box@.len() == self.armies_in_box@.len(),
            forall|p: int|
                0 <= p < self.states@.len() ==> {
                    let was = self.states@[p];
                    let now = #[trigger] after.states@[p];
                    &&& now == (PlayerState { armies: now.armies, ..was })
                    &&& now.armies + after.armies_in_box@[p] + (if self.board.territories@[t].player
                        == Some(p as usize) {
                        armies - self.board.territories@[t].armies
                    } else {
                        0
                    }) == was.armies + self.armies_in_box@[p]
                },
            self.board.territories@[t].player is Some,
        ensures
            after.wf(),
    {
        self.board.lemma_stationed(after.board, t, armies);
        Self::lemma_same_defeats(self.states@, after.states@);
        assert forall|p: int| 0 <= p < after.states@.len() implies #[trigger] after.rout_ok(p) by {
            assert(self.rout_ok(p));
        }
        assert forall|p: int| 0 <= p < after.states@.len()
            implies (#[trigger] after.states@[p]).index
            == p && after.board.agrees_with(after.states@[p]) by {
            let was = self.states@[p];
            let now = after.states@[p];
            assert(was.index == p && self.board.agrees_with(was));
            assert(after.board.agrees_with(was));
            assert(now.territories == was.territories);
        }
        assert forall|p: int|
            0 <= p < after.states@.len() implies #[trigger] after.accounts_ok(p) by {
            assert(self.accounts_ok(p));
            assert(self.states@.len() == self.states.len());
            assert(armies_of(after.board.territories@, p as usize) == armies_of(
                self.board.territories@,
                p as usize,
            ) + (if self.board.territories@[t].player == Some(p as usize) {
                armies - self.board.territories@[t].armies
            } else {
                0
            }));
        }
    }

    /// Moves `armies` armies from the reserve of `player` onto a territory
    /// that it occupies. Where that is refused nothing changes.
    pub fn place(&mut self, player: usize, territory: usize, armies: u32) -> (result: Result<
        (),
        GameError,
    >)
        requires
            old(self).wf(),
            player < old(self).states@.len(),
        ensures
            final(self).wf(),
            old(self).board.same_map(final(self).board),
            final(self).states@.len() == old(self).states@.len(),
            old(self).same_standing(*final(self)),
            match result {
                Ok(()) => {
                    &&& old(self).placement_refusal(player as int, territory, armies) is None
                    &&& old(self).reinforced(*final(self), player as int, territory as int, armies)
                },
                Err(error) => {
                    &&& old(self).placement_refusal(player as int, territory, armies) == Some(error)
                    &&& *final(self) == *old(self)
                },
            },
    {
        proof {
            self.board.lemma_same_map_reflexive();
        }
        if territory >= self.board.territories.len() {
            return Err(GameError::IllegalDecision { player, decision: Decision::Placement });
        }
        let occupies: bool = match self.board.territories[territory].player {
            Some(occupant) => occupant == player,
            None => false,
        };
        if !occupies {
            return Err(GameError::IllegalDecision { player, decision: Decision::Placement });
        }
        if self.states[player].armies < armies {
            return Err(
                GameError::InsufficientArmies {
                    player,
                    requested: armies,
                    available: self.states[player].armies,
                },
            );
        }
        proof {
            self.lemma_garrison_bound(territory as int);
            assert(self.board.occupant_ok(territory as int));
            assert(self.board.keeps(self.states@));
            assert(self.states@[player as int].index == player);
        }
        let standing: u32 = self.board.territories[territory].armies;
        // The player occupies the territory and its reserve holds the armies:
        // the territory takes them.
        let taken: Result<(), GameError> = self.board.territories[territory].place_armies(
            &mut self.states[player],
            armies,
        );
        assert(taken is Ok);
        proof {
            assert(self.board.territories@ == old(self).board.territories@.update(
                territory as int,
                Territory {
                    armies: (standing + armies) as u32,
                    ..old(self).board.territories@[territory as int]
                },
            ));
            assert(self.states@ == old(self).states@.update(
                player as int,
                PlayerState {
                    armies: (old(self).states@[player as int].armies - armies) as u32,
                    ..old(self).states@[player as int]
                },
            ));
            old(self).lemma_accounts_kept(*self, territory as int, (standing + armies) as u32);
            old(self).board.lemma_stationed(
                self.board,
                territory as int,
                (standing + armies) as u32,
            );
        }
        Ok(())
    }

    /// Why player `p` may not make these placements one after the other, if
    /// it may not: the refusal of the first of them that is refused, given
    /// what the earlier ones have taken from the reserve.
    pub open spec fn placements_refusal(self, p: int, placements: Seq<(usize, u32)>) -> Option<
        GameError,
    >
        decreases placements.len(),
    {
        if placements.len() == 0 {
            None
        } else {
            let earlier = placements.drop_last();
            let (territory, armies) = placements.last();
            match self.placements_refusal(p, earlier) {
                Some(error) => Some(error),
                None => self.placement_refusal_with(
                    p,
                    territory,
                    armies,
                    sum_by(earlier, amount_weight()),
                ),
            }
        }
    }

    /// Why player `p` may not place `armies` armies of its reserve on
    /// territory `t` once `spent` armies have left the reserve, if it may not.
    pub open spec fn placement_refusal_with(self, p: int, t: usize, armies: u32, spent: int) -> Option<
        GameError,
    > {
        if t >= self.board.territories@.len() || self.board.territories@[t as int].player != Some(
            p as usize,
        ) {
            Some(GameError::IllegalDecision { player: p as usize, decision: Decision::Placement })
        } else if self.states@[p].armies - spent < armies {
            Some(
                GameError::InsufficientArmies {
                    player: p as usize,
                    requested: armies,
                    available: (self.states@[p].armies - spent) as u32,
                },
            )
        } else {
            None
        }
    }

    /// Whether `after` is `self` once player `p` has made these placements:
    /// every territory holds the armies that were placed on it besides those
    /// that it held, the reserve of `p` has lost them all, and nothing else
    /// changed.
    pub open spec fn placed(self, after: Game, p: int, placements: Seq<(usize, u32)>) -> bool {
        &&& 0 <= p < self.states@.len()
        &&& after == (Game { states: after.states, board: after.board, ..self })
        &&& after.board == (BoardStruct { territories: after.board.territories, ..self.board })
        &&& after.board.territories@.len() == self.board.territories@.len()
        &&& forall|t: int|
            0 <= t < self.board.territories@.len() ==> #[trigger] after.board.territories@[t] == (
            Territory {
                armies: (self.board.territories@[t].armies + sum_by(
                    placements,
                    amount_on(t as usize),
                )) as u32,
                ..self.board.territories@[t]
            }) && 0 <= sum_by(placements, amount_on(t as usize))
                && self.board.territories@[t].armies + sum_by(placements, amount_on(t as usize))
                <= u32::MAX
        &&& 0 <= sum_by(placements, amount_weight()) <= self.states@[p].armies
        &&& after.states@ == self.states@.update(
            p,
            PlayerState {
                armies: (self.states@[p].armies - sum_by(placements, amount_weight())) as u32,
                ..self.states@[p]
            },
        )
    }

    /// A refusal among the first placements is the refusal of them all.
    pub proof fn lemma_refusal_stays(self, p: int, placements: Seq<(usize, u32)>, first: int)
        requires
            0 <= first <= placements.len(),
            self.placements_refusal(p, placements.take(first)) is Some,
        ensures
            self.placements_refusal(p, placements) == self.placements_refusal(
                p,
                placements.take(first),
            ),
        decreases placements.len() - first,
    {
        if first < placements.len() {
            assert(placements.take(first + 1).drop_last() == placements.take(first));
            self.lemma_refusal_stays(p, placements, first + 1);
        } else {
            assert(placements.take(first) == placements);
        }
    }

    /// Placements on territories that the player occupies, of no more armies
    /// together than its reserve holds, are not refused.
    pub proof fn lemma_conforming_placements(self, p: int, placements: Seq<(usize, u32)>)
        requires
            self.wf(),
            0 <= p < self.states@.len(),
            forall|i: int|
                0 <= i < placements.len() ==> self.states@[p].territories@.contains(
                    (#[trigger] placements[i]).0,
                ),
            sum_by(placements, amount_weight()) <= self.states@[p].armies,
        ensures
            self.placements_refusal(p, placements) is None,
        decreases placements.len(),
    {
        if placements.len() > 0 {
            let earlier = placements.drop_last();
            let (territory, armies) = placements.last();
            assert forall|i: int|
                0 <= i < earlier.len()
                implies self.states@[p].territories@.contains((#[trigger] earlier[i]).0) by {
                assert(earlier[i] == placements[i]);
            }
            self.lemma_conforming_placements(p, earlier);
            assert(placements[placements.len() - 1] == placements.last());
            assert(self.states@[p].territories@.contains(territory));
            assert(self.board.agrees_with(self.states@[p]));
            assert(self.states@[p].index == p);
        }
    }

    /// Whether player `p` may make these placements once it has received
    /// `received` armies: each is on a territory that it occupies, and they
    /// take no more armies together than its reserve then holds.
    pub open spec fn placements_accepted(
        self,
        p: int,
        received: u32,
        placements: Seq<(usize, u32)>,
    ) -> bool {
        &&& forall|i: int|
            0 <= i < placements.len() ==> {
                let territory = (#[trigger] placements[i]).0;
                &&& territory < self.board.territories@.len()
                &&& self.board.territories@[territory as int].player == Some(p as usize)
            }
        &&& 0 <= sum_by(placements, amount_weight()) <= self.states@[p].armies + received
    }

    /// Placements that are not refused are on territories that the player
    /// occupies and take no more armies together than its reserve holds.
    pub proof fn lemma_accepted_placements(self, p: int, placements: Seq<(usize, u32)>)
        requires
            self.placements_refusal(p, placements) is None,
        ensures
            self.placements_accepted(p, 0, placements),
        decreases placements.len(),
    {
        if placements.len() > 0 {
            let earlier = placements.drop_last();
            self.lemma_accepted_placements(p, earlier);
            assert forall|i: int| 0 <= i < placements.len() implies {
                let territory = (#[trigger] placements[i]).0;
                &&& territory < self.board.territories@.len()
                &&& self.board.territories@[territory as int].player == Some(p as usize)
            } by {
                if i < earlier.len() {
                    assert(earlier[i] == placements[i]);
                }
            }
        }
    }

    /// Makes the placements of a player one after the other: each moves
    /// armies from the reserve of the player onto a territory that it
    /// occupies. Stops at the first that is refused; those before it stay.
    pub fn apply_placements(&mut self, player: usize, placements: &Vec<(usize, u32)>) -> (result:
        Result<(), GameError>)
        requires
            old(self).wf(),
            player < old(self).states@.len(),
        ensures
            final(self).wf(),
            final(self).players == old(self).players,
            final(self).armies_in_box == old(self).armies_in_box,
            final(self).defeated_players == old(self).defeated_players,
            old(self).board.same_map(final(self).board),
            final(self).states@.len() == old(self).states@.len(),
            old(self).same_standing(*final(self)),
            match result {
                Ok(()) => {
                    &&& old(self).placements_refusal(player as int, placements@) is None
                    &&& old(self).placed(*final(self), player as int, placements@)
                },
                Err(error) => {
                    &&& old(self).placements_refusal(player as int, placements@) == Some(error)
                    &&& exists|made: int|
                        0 <= made < placements@.len() && #[trigger] old(self).placed(
                            *final(self),
                            player as int,
                            placements@.take(made),
                        )
                },
            },
    {
        let mut i: usize = 0;
        proof {
            self.board.lemma_same_map_reflexive();
            assert(self.states@ == self.states@.update(player as int, self.states@[player as int]));
            assert forall|t: int|
                0 <= t < self.board.territories@.len() implies #[trigger] self.board.territories@[t]
                == (Territory {
                armies: (self.board.territories@[t].armies + sum_by(
                    placements@.take(0),
                    amount_on(t as usize),
                )) as u32,
                ..self.board.territories@[t]
            }) && 0 <= sum_by(placements@.take(0), amount_on(t as usize))
                && self.board.territories@[t].armies + sum_by(
                placements@.take(0),
                amount_on(t as usize),
            ) <= u32::MAX by {
                assert(sum_by(placements@.take(0), amount_on(t as usize)) == 0);
            }
        }
        while i < placements.len()
            invariant
                i <= placements@.len(),
                player < old(self).states@.len(),
                old(self).wf(),
                self.wf(),
                old(self).placements_refusal(player as int, placements@.take(i as int)) is None,
                old(self).placed(*self, player as int, placements@.take(i as int)),
                old(self).board.same_map(self.board),
                old(self).same_standing(*self),
                0 <= sum_by(placements@.take(i as int), amount_weight()),
            decreases placements@.len() - i,
        {
            let territory: usize = placements[i].0;
            let armies: u32 = placements[i].1;
            let ghost before = *self;
            let ghost earlier = placements@.take(i as int);
            let ghost now = placements@.take(i + 1);
            proof {
                assert(now.drop_last() == earlier);
                assert(now.last() == placements@[i as int]);
                assert(now == earlier.push(placements@[i as int]));
                lemma_sum_by_push(earlier, amount_weight(), placements@[i as int]);
                assert(before.states@[player as int].armies == old(self).states@[player as int].armies
                    - sum_by(earlier, amount_weight()));
                if territory < before.board.territories@.len() {
                    assert(before.board.territories@[territory as int].player == old(
                        self,
                    ).board.territories@[territory as int].player);
                }
                assert(before.placement_refusal(player as int, territory, armies) == old(
                    self,
                ).placements_refusal(player as int, now));
            }
            match self.place(player, territory, armies) {
                Ok(()) => {},
                Err(error) => {
                    proof {
                        old(self).lemma_refusal_stays(player as int, placements@, i + 1);
                    }
                    return Err(error);
                },
            }
            proof {
                old(self).board.lemma_same_map_transitive(before.board, self.board);
                assert forall|t: int|
                    0 <= t < old(self).board.territories@.len()
                        implies #[trigger] self.board.territories@[t]
                    == (Territory {
                    armies: (old(self).board.territories@[t].armies + sum_by(
                        now,
                        amount_on(t as usize),
                    )) as u32,
                    ..old(self).board.territories@[t]
                }) && 0 <= sum_by(now, amount_on(t as usize)) && old(
                    self,
                ).board.territories@[t].armies + sum_by(now, amount_on(t as usize))
                    <= u32::MAX by {
                    lemma_sum_by_push(earlier, amount_on(t as usize), placements@[i as int]);
                    assert(before.board.territories@[t] == (Territory {
                        armies: (old(self).board.territories@[t].armies + sum_by(
                            earlier,
                            amount_on(t as usize),
                        )) as u32,
                        ..old(self).board.territories@[t]
                    }));
                    assert(old(self).board.territories@.len() == old(self).board.territories.len());
                }
                assert(self.states@ == old(self).states@.update(
                    player as int,
                    PlayerState {
                        armies: (old(self).states@[player as int].armies - sum_by(
                            now,
                            amount_weight(),
                        )) as u32,
                        ..old(self).states@[player as int]
                    },
                ));
            }
            i += 1;
        }
        proof {
            assert(placements@.take(placements@.len() as int) == placements@);
        }
        Ok(())
    }

    /// Lets a player place armies of its reserve on territories that it
    /// occupies, as its strategy decides. Returns the placements that were
    /// made. Where one of those that the strategy answers is refused, those
    /// before it stay and the refusal ends the run.
    pub fn army_placement(&mut self, player: usize) -> (result: Result<Vec<(usize, u32)>, GameError>)
        requires
            old(self).wf(),
            player < old(self).states@.len(),
        ensures
            final(self).wf(),
            final(self).players == old(self).players,
            final(self).armies_in_box == old(self).armies_in_box,
            final(self).defeated_players == old(self).defeated_players,
            old(self).board.same_map(final(self).board),
            final(self).states@.len() == old(self).states@.len(),
            old(self).same_standing(*final(self)),
            match result {
                Ok(placements) => {
                    &&& old(self).placements_refusal(player as int, placements@) is None
                    &&& old(self).placed(*final(self), player as int, placements@)
                },
                Err(error) => {
                    &&& exists|answer: Seq<(usize, u32)>, made: int|
                        {
                            &&& 0 <= made < answer.len()
                            &&& old(self).placements_refusal(player as int, answer) == Some(error)
                            &&& #[trigger] old(self).placed(
                                *final(self),
                                player as int,
                                answer.take(made),
                            )
                        }
                    &&& {
                        ||| error matches GameError::InsufficientArmies { .. }
                        ||| error matches GameError::IllegalDecision {
                            decision: Decision::Placement,
                            ..
                        }
                    }
                },
            },
    {
        proof {
            assert(self.board.keeps(self.states@));
            assert(self.board.agrees_with(self.states@[player as int]));
        }
        let placements: Vec<(usize, u32)> = self.players[player].place_armies(
            &self.states[player],
            &self.board,
        );
        match self.apply_placements(player, &placements) {
            Ok(()) => Ok(placements),
            Err(error) => {
                proof {
                    old(self).lemma_refusals(player as int, placements@);
                }
                Err(error)
            },
        }
    }

    /// Placements are refused for one of two reasons.
    pub proof fn lemma_refusals(self, p: int, placements: Seq<(usize, u32)>)
        ensures
            match self.placements_refusal(p, placements) {
                Some(error) => {
                    ||| error matches GameError::InsufficientArmies { .. }
                    ||| error matches GameError::IllegalDecision {
                        decision: Decision::Placement,
                        ..
                    }
                },
                None => true,
            },
        decreases placements.len(),
    {
        if placements.len() > 0 {
            self.lemma_refusals(p, placements.drop_last());
        }
    }

    /// Whether `after` is `self` with `armies` armies taken off territory `t`
    /// and put into the box of its occupant, and nothing else changed.
    pub open spec fn withdrawn(self, after: Game, t: int, armies: u32) -> bool {
        let occupant = self.board.territories@[t].player->0 as int;
        &&& 0 <= t < self.board.territories@.len()
        &&& self.board.territories@[t].player is Some
        &&& 0 <= occupant < self.armies_in_box@.len()
        &&& armies < self.board.territories@[t].armies
        &&& self.armies_in_box@[occupant] + armies <= u32::MAX
        &&& after == (Game { board: after.board, armies_in_box: after.armies_in_box, ..self })
        &&& self.board.stationed(
            after.board,
            t,
            (self.board.territories@[t].armies - armies) as u32,
        )
        &&& after.armies_in_box@ == self.armies_in_box@.update(
            occupant,
            (self.armies_in_box@[occupant] + armies) as u32,
        )
    }

    /// Takes `armies` armies off a territory and puts them into the box of its
    /// occupant. At least one army stays on the territory.
    pub fn withdraw(&mut self, territory: usize, armies: u32)
        requires
            old(self).wf(),
            territory < old(self).board.territories@.len(),
            old(self).board.territories@[territory as int].player is Some,
            armies < old(self).board.territories@[territory as int].armies,
        ensures
            final(self).wf(),
            old(self).withdrawn(*final(self), territory as int, armies),
            armies_on(final(self).board.territories@) == armies_on(old(self).board.territories@)
                - armies,
    {
        proof {
            self.lemma_garrison_bound(territory as int);
        }
        let occupant: usize = match self.board.territories[territory].player {
            Some(occupant) => occupant,
            None => 0,
        };
        let staying: u32 = self.board.territories[territory].armies - armies;
        self.board.territories[territory].armies = staying;
        self.armies_in_box[occupant] = self.armies_in_box[occupant] + armies;
        proof {
            assert(self.board.territories@ == old(self).board.territories@.update(
                territory as int,
                Territory { armies: staying, ..old(self).board.territories@[territory as int] },
            ));
            assert forall|p: int| 0 <= p < self.states@.len() implies {
                let was = old(self).states@[p];
                let now = #[trigger] self.states@[p];
                &&& now == (PlayerState { armies: now.armies, ..was })
                &&& now.armies + self.armies_in_box@[p] + (if old(
                    self,
                ).board.territories@[territory as int].player == Some(p as usize) {
                    staying - old(self).board.territories@[territory as int].armies
                } else {
                    0
                }) == was.armies + old(self).armies_in_box@[p]
            } by {
                assert(old(self).states@.len() == old(self).states.len());
            }
            old(self).lemma_accounts_kept(*self, territory as int, staying);
            old(self).board.lemma_stationed(self.board, territory as int, staying);
        }
    }

    /// Whether `after` is `self` once an attack that did not take the
    /// territory has cost the attacking territory `attacker_losses` armies and
    /// the defending one `defender_losses`: they lie in the boxes of the two
    /// occupants, and nothing else changed.
    pub open spec fn suffered(
        self,
        after: Game,
        attack: Attack,
        attacker_losses: u32,
        defender_losses: u32,
    ) -> bool {
        let territories = self.board.territories@;
        let from = territories[attack.attacker as int];
        let target = territories[attack.defender as int];
        let aggressor = from.player->0 as int;
        let defender = target.player->0 as int;
        let refilled = self.armies_in_box@.update(
            aggressor,
            (self.armies_in_box@[aggressor] + attacker_losses) as u32,
        );
        &&& attacker_losses < from.armies
        &&& defender_losses < target.armies
        &&& self.armies_in_box@[aggressor] + attacker_losses <= u32::MAX
        &&& refilled[defender] + defender_losses <= u32::MAX
        &&& after == (Game { board: after.board, armies_in_box: after.armies_in_box, ..self })
        &&& after.board == (BoardStruct { territories: after.board.territories, ..self.board })
        &&& after.board.territories@ == territories.update(
            attack.attacker as int,
            Territory { armies: (from.armies - attacker_losses) as u32, ..from },
        ).update(
            attack.defender as int,
            Territory { armies: (target.armies - defender_losses) as u32, ..target },
        )
        &&& after.armies_in_box@ == refilled.update(
            defender,
            (refilled[defender] + defender_losses) as u32,
        )
    }

    /// Takes the losses of an attack that did not take the territory off
    /// the two territories and puts them into the boxes of their occupants.
    pub fn inflict(&mut self, attack: &Attack, attacker_losses: u32, defender_losses: u32)
        requires
            old(self).wf(),
            attack.attacker < old(self).board.territories@.len(),
            attack.defender < old(self).board.territories@.len(),
            attack.attacker != attack.defender,
            old(self).board.territories@[attack.attacker as int].player is Some,
            old(self).board.territories@[attack.defender as int].player is Some,
            attacker_losses < old(self).board.territories@[attack.attacker as int].armies,
            defender_losses < old(self).board.territories@[attack.defender as int].armies,
        ensures
            final(self).wf(),
            old(self).suffered(*final(self), *attack, attacker_losses, defender_losses),
            final(self).players == old(self).players,
            final(self).states == old(self).states,
            final(self).defeated_players == old(self).defeated_players,
            old(self).board.same_map(final(self).board),
            final(self).states@.len() == old(self).states@.len(),
            armies_on(final(self).board.territories@) == armies_on(old(self).board.territories@)
                - attacker_losses - defender_losses,
    {
        self.withdraw(attack.attacker, attacker_losses);
        let ghost between = *self;
        self.withdraw(attack.defender, defender_losses);
        proof {
            assert(old(self).withdrawn(between, attack.attacker as int, attacker_losses));
            old(self).board.lemma_stationed(
                between.board,
                attack.attacker as int,
                (old(self).board.territories@[attack.attacker as int].armies
                    - attacker_losses) as u32,
            );
            between.board.lemma_stationed(
                self.board,
                attack.defender as int,
                (between.board.territories@[attack.defender as int].armies
                    - defender_losses) as u32,
            );
            old(self).board.lemma_same_map_transitive(between.board, self.board);
        }
    }

    /// Whether `after` is `self` once the attacker has taken the defending
    /// territory of `attack` and moved `moved` armies into it: the armies that
    /// stood there lie in the box of the player who lost it; the territory
    /// belongs to the attacker, whose `moved` armies have left the attacking
    /// territory for it; the ledger and the records of both players say so;
    /// and the player who lost it is marked as defeated if it was its last.
    pub open spec fn conquered(self, after: Game, attack: Attack, moved: u32) -> bool {
        let territories = self.board.territories@;
        let from = territories[attack.attacker as int];
        let target = territories[attack.defender as int];
        let winner = from.player->0;
        let loser = target.player->0;
        &&& self.board.attack_allowed(winner, attack)
        &&& self.board.capture_allowed(attack, moved)
        &&& after.players == self.players
        &&& after.board.board == self.board.board
        &&& after.board.extra_info == self.board.extra_info
        &&& after.board.extra_info_lines == self.board.extra_info_lines
        &&& after.board.free_territories == self.board.free_territories
        &&& after.board.territories@ == territories.update(
            attack.defender as int,
            Territory { player: Some(winner), armies: moved, ..target },
        ).update(attack.attacker as int, Territory { armies: (from.armies - moved) as u32, ..from })
        &&& self.board.recounted(after.board, target.continent, loser, winner)
        &&& self.armies_in_box@[loser as int] + target.armies <= u32::MAX
        &&& after.armies_in_box@ == self.armies_in_box@.update(
            loser as int,
            (self.armies_in_box@[loser as int] + target.armies) as u32,
        )
        &&& after.states@.len() == self.states@.len()
        &&& forall|other: int|
            0 <= other < self.states@.len() && other != winner && other != loser
                ==> #[trigger] after.states@[other] == self.states@[other]
        &&& self.board.gain_noted(
            self.states@[winner as int],
            after.states@[winner as int],
            attack.defender as int,
        )
        &&& self.board.loss_noted(
            self.states@[loser as int],
            PlayerState {
                defeated: self.states@[loser as int].defeated,
                ..after.states@[loser as int]
            },
            attack.defender as int,
        )
        &&& after.states@[loser as int].defeated == (self.states@[loser as int].defeated
            || self.wipes_out(attack))
        &&& after.defeated_players == self.defeated_players + if self.eliminates(attack) {
            1int
        } else {
            0int
        }
    }

    /// Whether the defending territory of `attack` is the last that its
    /// occupant has.
    pub open spec fn wipes_out(self, attack: Attack) -> bool {
        let loser = self.board.territories@[attack.defender as int].player->0;
        without(self.states@[loser as int].territories@, attack.defender).len() == 0
    }

    /// Whether the defending territory of `attack` is the last that its
    /// occupant has, and the occupant is not marked as defeated yet.
    pub open spec fn eliminates(self, attack: Attack) -> bool {
        let loser = self.board.territories@[attack.defender as int].player->0;
        self.wipes_out(attack) && !self.states@[loser as int].defeated
    }

    /// Takes the defending territory of an attack for the attacker, who moves
    /// `moved` armies into it. Returns the player who lost the territory if it
    /// was its last: that player is defeated.
    pub fn capture(&mut self, attack: &Attack, moved: u32) -> (defeated: Option<usize>)
        requires
            old(self).wf(),
            attack.attacker < old(self).board.territories@.len(),
            old(self).board.territories@[attack.attacker as int].player is Some,
            old(self).board.attack_allowed(
                old(self).board.territories@[attack.attacker as int].player->0,
                *attack,
            ),
            old(self).board.capture_allowed(*attack, moved),
        ensures
            final(self).wf(),
            old(self).conquered(*final(self), *attack, moved),
            old(self).board.same_map(final(self).board),
            final(self).states@.len() == old(self).states@.len(),
            defeated == if old(self).eliminates(*attack) {
                old(self).board.territories@[attack.defender as int].player
            } else {
                None
            },
            armies_on(final(self).board.territories@) == armies_on(old(self).board.territories@)
                - old(self).board.territories@[attack.defender as int].armies,
    {
        let winner: usize = match self.board.territories[attack.attacker].player {
            Some(occupant) => occupant,
            None => 0,
        };
        let loser: usize = match self.board.territories[attack.defender].player {
            Some(occupant) => occupant,
            None => 0,
        };
        let standing: u32 = self.board.territories[attack.attacker].armies;
        let fallen: u32 = self.board.territories[attack.defender].armies;
        proof {
            self.lemma_garrison_bound(attack.attacker as int);
            self.lemma_garrison_bound(attack.defender as int);
            assert(self.board.occupant_ok(attack.attacker as int));
            assert(self.board.occupant_ok(attack.defender as int));
        }
        self.board.transfer_ownership(attack.defender, &mut self.states, loser, winner);
        let ghost handed = self.board;
        let ghost noted = self.states@;
        self.board.station(attack.defender, moved);
        let ghost entered = self.board;
        self.board.station(attack.attacker, standing - moved);
        self.armies_in_box[loser] = self.armies_in_box[loser] + fallen;
        let wiped_out: bool = self.states[loser].territories.len() == 0;
        let mut defeated: Option<usize> = None;
        proof {
            old(self).board.lemma_transfer_keeps_wf(
                handed,
                old(self).states@,
                noted,
                attack.defender as int,
                loser,
                winner,
            );
            handed.lemma_stationed(entered, attack.defender as int, moved);
            entered.lemma_stationed(self.board, attack.attacker as int, (standing - moved) as u32);
            old(self).board.lemma_same_map_transitive(handed, entered);
            old(self).board.lemma_same_map_transitive(entered, self.board);
            assert forall|p: int|
                0 <= p < noted.len()
                implies (#[trigger] noted[p]).index == p && self.board.agrees_with(noted[p]) by {
                assert(handed.agrees_with(noted[p]));
                assert(entered.agrees_with(noted[p]));
            }
            assert forall|p: int|
                0 <= p < self.states@.len() implies #[trigger] self.accounts_ok(p) by {
                assert(old(self).accounts_ok(p));
                assert(old(self).states@.len() == old(self).states.len());
                let q = p as usize;
                assert(armies_of(handed.territories@, q) == armies_of(
                    old(self).board.territories@,
                    q,
                ) + (if q == winner {
                    fallen as int
                } else if q == loser {
                    -(fallen as int)
                } else {
                    0
                }));
                assert(armies_of(entered.territories@, q) == armies_of(handed.territories@, q) + (
                if q == winner {
                    moved - fallen
                } else {
                    0
                }));
                assert(armies_of(self.board.territories@, q) == armies_of(entered.territories@, q)
                    + (if q == winner {
                    (standing - moved) - standing
                } else {
                    0
                }));
            }
            assert forall|p: int| 0 <= p < noted.len() implies 0 <= defeat_weight()(
                #[trigger] noted[p],
            ) <= 1 by {}
            crate::tally::lemma_sum_by_count(noted, defeat_weight());
            Self::lemma_same_defeats(old(self).states@, noted);
            assert(noted.len() == self.states.len());
        }
        let ghost settled = *self;
        if wiped_out && !self.states[loser].defeated {
            proof {
                let marked = PlayerState { defeated: true, ..noted[loser as int] };
                lemma_sum_by_update(noted, defeat_weight(), loser as int, marked);
                assert forall|p: int| 0 <= p < noted.len() implies 0 <= defeat_weight()(
                    #[trigger] noted.update(loser as int, marked)[p],
                ) <= 1 by {}
                crate::tally::lemma_sum_by_count(noted.update(loser as int, marked), defeat_weight());
            }
            self.states[loser].defeated = true;
            self.defeated_players = self.defeated_players + 1;
            defeated = Some(loser);
            proof {
                assert(self.states@ == noted.update(
                    loser as int,
                    PlayerState { defeated: true, ..noted[loser as int] },
                ));
                assert forall|p: int| 0 <= p < self.states@.len() implies (
                #[trigger] self.states@[p]).index == p && self.board.agrees_with(self.states@[p]) by {
                    assert(noted[p].index == p && self.board.agrees_with(noted[p]));
                }
                assert forall|p: int|
                    0 <= p < self.states@.len() implies #[trigger] self.accounts_ok(p) by {
                    assert(settled.accounts_ok(p));
                    assert(noted[p].armies == self.states@[p].armies);
                }
            }
        }
        proof {
            assert forall|p: int|
                0 <= p < self.states@.len() implies #[trigger] self.rout_ok(p) by {
                assert(old(self).rout_ok(p));
                assert(old(self).board.agrees_with(old(self).states@[p]));
                assert(old(self).states@[p].index == p);
                if p == winner {
                    assert(old(self).states@[p].territories@.contains(attack.attacker));
                } else if p == loser {
                    assert(old(self).states@[p].territories@.contains(attack.defender));
                } else {
                    assert(noted[p] == old(self).states@[p]);
                }
            }
            assert(self.board.territories@ == old(self).board.territories@.update(
                attack.defender as int,
                Territory {
                    player: Some(winner),
                    armies: moved,
                    ..old(self).board.territories@[attack.defender as int]
                },
            ).update(
                attack.attacker as int,
                Territory {
                    armies: (standing - moved) as u32,
                    ..old(self).board.territories@[attack.attacker as int]
                },
            ));
            assert(old(self).board.recounted(
                self.board,
                old(self).board.territories@[attack.defender as int].continent,
                loser,
                winner,
            ));
        }
        defeated
    }

    /// Whether `after` and `report` are what one attack of player `p` made of
    /// `self`: the rules allow the attack and the dice of the defender; the
    /// losses are what the dice say; where the defending territory keeps an
    /// army both sides have taken their losses, and where it lost all, the
    /// attacker has taken it with the armies that the report names.
    pub open spec fn battle_fought(self, after: Game, p: int, report: BattleReport) -> bool {
        let attack = report.attack;
        let garrison = self.board.territories@[attack.defender as int].armies;
        &&& self.board.attack_allowed(p as usize, attack)
        &&& self.board.defense_allowed(attack, report.defender_rolls@.len() as u32)
        &&& report.coherent()
        &&& match report.moved {
            None => {
                &&& report.defender_losses < garrison
                &&& self.suffered(after, attack, report.attacker_losses, report.defender_losses)
            },
            Some(moved) => {
                &&& report.defender_losses == garrison
                &&& self.conquered(after, attack, moved)
                &&& report.defeated == if self.eliminates(attack) {
                    self.board.territories@[attack.defender as int].player
                } else {
                    None
                }
            },
        }
    }

    /// Whether `after` is what these attacks of player `p` made of `self`,
    /// one after the other.
    pub open spec fn battles_fought(self, after: Game, p: int, battles: Seq<BattleReport>) -> bool
        decreases battles.len(),
    {
        if battles.len() == 0 {
            after == self
        } else {
            exists|between: Game|
                {
                    &&& self.battles_fought(between, p, battles.drop_last())
                    &&& #[trigger] between.battle_fought(after, p, battles.last())
                }
        }
    }

    /// One more attack after attacks that were fought makes attacks that were
    /// fought.
    pub proof fn lemma_one_more_battle(
        self,
        between: Game,
        after: Game,
        p: int,
        battles: Seq<BattleReport>,
        report: BattleReport,
    )
        requires
            self.battles_fought(between, p, battles),
            between.battle_fought(after, p, report),
        ensures
            self.battles_fought(after, p, battles.push(report)),
    {
        let longer = battles.push(report);
        assert(longer.drop_last() == battles);
        assert(longer.last() == report);
        assert(between.battle_fought(after, p, longer.last()));
    }

    /// An attack that takes the territory costs the attacker nothing: the
    /// defender rolls no more dice than it has armies, so it loses them all
    /// only by losing every pair.
    pub proof fn lemma_capture_is_clean(attacker_rolls: Seq<u32>, defender_rolls: Seq<u32>, armies: int)
        requires
            1 <= defender_rolls.len() <= armies,
            defender_losses(attacker_rolls, defender_rolls) >= armies,
        ensures
            attacker_losses(attacker_rolls, defender_rolls) == 0,
            defender_losses(attacker_rolls, defender_rolls) == armies,
    {
        crate::combat::lemma_losses_add_up(attacker_rolls, defender_rolls);
    }

    /// Settles an attack of `player` whose dice have been rolled. The dice
    /// decide the losses of both sides. Where the defending territory keeps
    /// an army, both sides take their losses. Where it loses all, the strategy
    /// of `player` says how many armies move in, and the territory is taken;
    /// where that number breaks the rules nothing changes.
    pub fn settle(
        &mut self,
        player: usize,
        attack: &Attack,
        attacker_rolls: Vec<u32>,
        defender_rolls: Vec<u32>,
    ) -> (result: Result<BattleReport, GameError>)
        requires
            old(self).wf(),
            player < old(self).states@.len(),
            old(self).board.attack_allowed(player, *attack),
            attacker_rolls@.len() == attack.dice,
            defender_rolls@.len() <= u32::MAX,
            old(self).board.defense_allowed(*attack, defender_rolls@.len() as u32),
        ensures
            final(self).wf(),
            final(self).players == old(self).players,
            old(self).board.same_map(final(self).board),
            final(self).states@.len() == old(self).states@.len(),
            final(self).board.free_territories == old(self).board.free_territories,
            final(self).states@[player as int].defeated == old(self).states@[player as int].defeated,
            match result {
                Ok(report) => {
                    &&& report.attack == *attack
                    &&& report.attacker_rolls@ == attacker_rolls@
                    &&& report.defender_rolls@ == defender_rolls@
                    &&& report.coherent()
                    &&& old(self).battle_fought(*final(self), player as int, report)
                    &&& final(self).defeated_players == old(self).defeated_players + rout_weight()(
                        report,
                    )
                    &&& report.attacker_losses == attacker_losses(attacker_rolls@, defender_rolls@)
                    &&& report.defender_losses == defender_losses(attacker_rolls@, defender_rolls@)
                    &&& report.attacker_losses + report.defender_losses == pairs(
                        attacker_rolls@,
                        defender_rolls@,
                    )
                    &&& armies_on(final(self).board.territories@) == armies_on(
                        old(self).board.territories@,
                    ) - report.attacker_losses - report.defender_losses
                    &&& match report.moved {
                        None => {
                            &&& report.defender_losses < old(
                                self,
                            ).board.territories@[attack.defender as int].armies
                            &&& old(self).suffered(
                                *final(self),
                                *attack,
                                report.attacker_losses,
                                report.defender_losses,
                            )
                            &&& report.defeated is None
                        },
                        Some(moved) => {
                            &&& report.defender_losses == old(
                                self,
                            ).board.territories@[attack.defender as int].armies
                            &&& report.attacker_losses == 0
                            &&& attack.dice <= moved < old(
                                self,
                            ).board.territories@[attack.attacker as int].armies
                            &&& old(self).conquered(*final(self), *attack, moved)
                            &&& report.defeated == if old(self).eliminates(*attack) {
                                old(self).board.territories@[attack.defender as int].player
                            } else {
                                None
                            }
                        },
                    }
                },
                Err(error) => {
                    &&& error == (GameError::IllegalDecision { player, decision: Decision::Capture })
                    &&& defender_losses(attacker_rolls@, defender_rolls@) == old(
                        self,
                    ).board.territories@[attack.defender as int].armies
                    &&& *final(self) == *old(self)
                },
            },
    {
        let ghost thrown = attacker_rolls@;
        let ghost parried = defender_rolls@;
        proof {
            crate::combat::lemma_losses_add_up(thrown, parried);
            assert(self.board.occupant_ok(attack.attacker as int));
            assert(self.board.occupant_ok(attack.defender as int));
            self.board.lemma_same_map_reflexive();
        }
        let (attacker_lost, defender_lost) = battle(&attacker_rolls, &defender_rolls);
        let garrison: u32 = self.board.territories[attack.defender].armies;
        if defender_lost >= garrison {
            proof {
                Self::lemma_capture_is_clean(thrown, parried, garrison as int);
                assert(self.board.keeps(self.states@));
                assert(self.board.agrees_with(self.states@[player as int]));
            }
            let answer: u32 = self.players[player].capture(
                &self.states[player],
                &self.board,
                attack,
            );
            let moved: u32 = match self.board.judge_capture(player, attack, answer) {
                Ok(moved) => moved,
                Err(error) => {
                    return Err(error);
                },
            };
            let defeated: Option<usize> = self.capture(attack, moved);
            Ok(
                BattleReport {
                    attack: *attack,
                    attacker_rolls,
                    defender_rolls,
                    attacker_losses: attacker_lost,
                    defender_losses: defender_lost,
                    moved: Some(moved),
                    defeated,
                },
            )
        } else {
            self.inflict(attack, attacker_lost, defender_lost);
            Ok(
                BattleReport {
                    attack: *attack,
                    attacker_rolls,
                    defender_rolls,
                    attacker_losses: attacker_lost,
                    defender_losses: defender_lost,
                    moved: None,
                    defeated: None,
                },
            )
        }
    }

    /// The attacking phase of a player. Its strategy attacks as often as it
    /// likes. Every attack is checked against the rules; the defender says
    /// with how many dice it defends, which is checked too; then the dice are
    /// rolled and the attack is settled. Returns what the attacks came to, in
    /// their order: the game is then what they made of it, one after the
    /// other. An answer that breaks the rules ends the phase with the game as
    /// the attacks before it left it.
    pub fn attack(&mut self, player: usize) -> (result: Result<Vec<BattleReport>, GameError>)
        requires
            old(self).wf(),
            player < old(self).states@.len(),
        ensures
            final(self).wf(),
            final(self).players == old(self).players,
            old(self).board.same_map(final(self).board),
            final(self).states@.len() == old(self).states@.len(),
            final(self).board.free_territories == old(self).board.free_territories,
            final(self).states@[player as int].defeated == old(self).states@[player as int].defeated,
            armies_on(final(self).board.territories@) <= armies_on(old(self).board.territories@),
            match result {
                Ok(battles) => {
                    &&& old(self).battles_fought(*final(self), player as int, battles@)
                    &&& forall|i: int|
                        0 <= i < battles@.len() ==> {
                            let battle = #[trigger] battles@[i];
                            &&& battle.coherent()
                            &&& are_faces(battle.attacker_rolls@)
                            &&& are_faces(battle.defender_rolls@)
                        }
                    &&& armies_on(final(self).board.territories@) == armies_on(
                        old(self).board.territories@,
                    ) - sum_by(battles@, loss_weight())
                    &&& final(self).defeated_players == old(self).defeated_players + sum_by(
                        battles@,
                        rout_weight(),
                    )
                },
                Err(error) => {
                    &&& exists|battles: Seq<BattleReport>| #[trigger]
                        old(self).battles_fought(*final(self), player as int, battles)
                    &&& {
                        ||| error == (GameError::IllegalDecision {
                            player,
                            decision: Decision::Attack,
                        })
                        ||| error == (GameError::IllegalDecision {
                            player,
                            decision: Decision::Capture,
                        })
                        ||| error matches GameError::IllegalDecision {
                            decision: Decision::Defense,
                            ..
                        }
                    }
                },
            },
    {
        let mut battles: Vec<BattleReport> = Vec::new();
        proof {
            self.board.lemma_same_map_reflexive();
        }
        loop
            invariant
                self.wf(),
                old(self).battles_fought(*self, player as int, battles@),
                player < self.states@.len(),
                self.states@.len() == old(self).states@.len(),
                self.players == old(self).players,
                old(self).board.same_map(self.board),
                self.board.free_territories == old(self).board.free_territories,
                self.states@[player as int].defeated == old(self).states@[player as int].defeated,
                armies_on(self.board.territories@) <= armies_on(old(self).board.territories@),
                forall|i: int|
                    0 <= i < battles@.len() ==> {
                        let battle = #[trigger] battles@[i];
                        &&& battle.coherent()
                        &&& are_faces(battle.attacker_rolls@)
                        &&& are_faces(battle.defender_rolls@)
                    },
                armies_on(self.board.territories@) == armies_on(old(self).board.territories@)
                    - sum_by(battles@, loss_weight()),
                self.defeated_players == old(self).defeated_players + sum_by(
                    battles@,
                    rout_weight(),
                ),
            decreases armies_on(self.board.territories@),
        {
            proof {
                assert(self.board.keeps(self.states@));
                assert(self.board.agrees_with(self.states@[player as int]));
            }
            let decision: Option<Attack> = self.players[player].attack(
                &self.states[player],
                &self.board,
            );
            let attack: Attack = match decision {
                Some(attack) => attack,
                None => {
                    break ;
                },
            };
            let defender: usize = match self.board.judge_attack(player, &attack) {
                Ok(defender) => defender,
                Err(error) => {
                    return Err(error);
                },
            };
            proof {
                assert(self.board.occupant_ok(attack.defender as int));
                assert(self.board.agrees_with(self.states@[defender as int]));
            }
            let answer: u32 = self.players[defender].defend(
                &self.states[defender],
                &self.board,
                &attack,
            );
            let defense: u32 = match self.board.judge_defense(defender, &attack, answer) {
                Ok(defense) => defense,
                Err(error) => {
                    return Err(error);
                },
            };
            let attacker_rolls: Vec<u32> = roll_dice(attack.dice);
            let defender_rolls: Vec<u32> = roll_dice(defense);
            let ghost before = *self;
            let ghost fought = battles@;
            match self.settle(player, &attack, attacker_rolls, defender_rolls) {
                Ok(report) => {
                    proof {
                        lemma_sum_by_push(fought, loss_weight(), report);
                        lemma_sum_by_push(fought, rout_weight(), report);
                    }
                    battles.push(report);
                },
                Err(error) => {
                    return Err(error);
                },
            }
            proof {
                old(self).lemma_one_more_battle(
                    before,
                    *self,
                    player as int,
                    fought,
                    battles@.last(),
                );
                assert(battles@ == fought.push(battles@.last()));
                old(self).board.lemma_same_map_transitive(before.board, self.board);
                assert forall|u: int| 0 <= u < self.board.territories@.len() implies 0
                    <= crate::boards::garrison_weight()(#[trigger] self.board.territories@[u]) by {}
                crate::tally::lemma_sum_by_nonnegative(
                    self.board.territories@,
                    crate::boards::garrison_weight(),
                );
            }
        }
        Ok(battles)
    }

    /// The free move of a player at the end of its turn. There is none yet.
    pub fn free_move(&mut self, player: usize)
        ensures
            *final(self) == *old(self),
    {
    }

    /// Whether `player` occupies every territory of the board.
    pub fn occupies_all(&self, player: usize) -> (all: bool)
        ensures
            all == forall|t: int|
                0 <= t < self.board.territories@.len() ==> (
                #[trigger] self.board.territories@[t]).player == Some(player),
    {
        let mut t: usize = 0;
        while t < self.board.territories.len()
            invariant
                t <= self.board.territories@.len(),
                forall|u: int| 0 <= u < t
                    ==> (#[trigger] self.board.territories@[u]).player == Some(
                    player,
                ),
            decreases self.board.territories@.len() - t,
        {
            let occupies: bool = match self.board.territories[t].player {
                Some(occupant) => occupant == player,
                None => false,
            };
            if !occupies {
                return false;
            }
            t += 1;
        }
        true
    }

    /// Whether `after` and `report` are what a turn of player `p` made of
    /// `self`: the player received its armies; it placed armies of its
    /// reserve on territories of its own; its attacks were rolled for with
    /// dice and cost what the dice say; the players that the attacks defeated
    /// are counted; the player has won if all others are defeated, in which
    /// case it occupies every territory; and the game is what the armies
    /// received, the placements and the attacks made of it, in this order.
    pub open spec fn turn_taken(self, after: Game, p: int, report: TurnReport) -> bool {
        &&& report.received == self.reinforcement(p)
        &&& self.placements_accepted(p, report.received, report.placements@)
        &&& forall|i: int|
            0 <= i < report.battles@.len() ==> {
                let battle = #[trigger] report.battles@[i];
                &&& battle.coherent()
                &&& are_faces(battle.attacker_rolls@)
                &&& are_faces(battle.defender_rolls@)
            }
        &&& after.defeated_players == self.defeated_players + sum_by(
            report.battles@,
            rout_weight(),
        )
        &&& report.won == (after.defeated_players + 1 == after.states@.len())
        &&& report.won ==> forall|t: int|
            0 <= t < after.board.territories@.len() ==> (
            #[trigger] after.board.territories@[t]).player == Some(p as usize)
        &&& exists|funded: Game, placed: Game|
            {
                &&& #[trigger] self.funded(funded, p, report.received)
                &&& #[trigger] funded.placed(placed, p, report.placements@)
                &&& placed.battles_fought(after, p, report.battles@)
            }
    }

    /// Whether `after` is what a turn of player `p` that was begun made of
    /// `self`, however far it came: the player received its armies, made
    /// some placements, and fought some attacks.
    pub open spec fn turn_begun(self, after: Game, p: int) -> bool {
        exists|funded: Game, placed: Game, placements: Seq<(usize, u32)>, battles: Seq<BattleReport>|
            {
                &&& self.funded(funded, p, self.reinforcement(p) as u32)
                &&& #[trigger] funded.placed(placed, p, placements)
                &&& #[trigger] placed.battles_fought(after, p, battles)
            }
    }

    /// One turn of a player: it receives its armies, places armies, attacks,
    /// and makes its free move. The player has won once all others are
    /// defeated; it must then occupy every territory.
    pub fn take_turn(&mut self, player: usize) -> (result: Result<TurnReport, GameError>)
        requires
            old(self).wf(),
            player < old(self).states@.len(),
        ensures
            final(self).wf(),
            final(self).players == old(self).players,
            old(self).board.same_map(final(self).board),
            final(self).states@.len() == old(self).states@.len(),
            match result {
                Ok(report) => old(self).turn_taken(*final(self), player as int, report),
                Err(error) => {
                    &&& old(self).turn_begun(*final(self), player as int)
                    &&& {
                        ||| error matches GameError::InsufficientArmies { .. }
                        ||| error matches GameError::IllegalDecision { .. }
                        ||| error == (GameError::InvariantViolation { player })
                    }
                },
            },
            final(self).board.free_territories == old(self).board.free_territories,
            final(self).states@[player as int].defeated == old(self).states@[player as int].defeated,
            old(self).board.free_territories@.len() == 0 && !old(self).states@[player as int].defeated
                ==> !(result matches Err(GameError::InvariantViolation { .. })),
    {
        let received: u32 = self.army_accumulation(player);
        let ghost funded = *self;
        let placements: Vec<(usize, u32)> = match self.army_placement(player) {
            Ok(placements) => placements,
            Err(error) => {
                proof {
                    let (answer, made) = choose|answer: Seq<(usize, u32)>, made: int|
                        {
                            &&& 0 <= made < answer.len()
                            &&& funded.placements_refusal(player as int, answer) == Some(error)
                            &&& #[trigger] funded.placed(*self, player as int, answer.take(made))
                        };
                    assert(funded.placed(*self, player as int, answer.take(made)));
                    assert(self.battles_fought(*self, player as int, Seq::<BattleReport>::empty()));
                }
                return Err(error);
            },
        };
        proof {
            funded.lemma_accepted_placements(player as int, placements@);
        }
        let ghost reinforced = *self;
        let battles: Vec<BattleReport> = match self.attack(player) {
            Ok(battles) => battles,
            Err(error) => {
                proof {
                    old(self).board.lemma_same_map_transitive(reinforced.board, self.board);
                    let fought = choose|fought: Seq<BattleReport>| #[trigger]
                        reinforced.battles_fought(*self, player as int, fought);
                    assert(funded.placed(reinforced, player as int, placements@));
                    assert(reinforced.battles_fought(*self, player as int, fought));
                }
                return Err(error);
            },
        };
        proof {
            old(self).board.lemma_same_map_transitive(reinforced.board, self.board);
            assert(old(self).funded(funded, player as int, received));
            assert(funded.placed(reinforced, player as int, placements@));
            assert(reinforced.battles_fought(*self, player as int, battles@));
            assert(old(self).turn_begun(*self, player as int));
        }
        proof {
            assert forall|p: int| 0 <= p < self.states@.len() implies 0 <= defeat_weight()(
                #[trigger] self.states@[p],
            ) <= 1 by {}
            crate::tally::lemma_sum_by_count(self.states@, defeat_weight());
        }
        let won: bool = self.states.len() - self.defeated_players == 1;
        proof {
            if won && self.board.free_territories@.len() == 0 && !self.states@[player as int].defeated {
                assert forall|t: int|
                    0 <= t < self.board.territories@.len()
                    implies (#[trigger] self.board.territories@[t]).player == Some(player) by {
                    self.lemma_winner_takes_all(player as int, t);
                }
            }
        }
        if won && !self.occupies_all(player) {
            return Err(GameError::InvariantViolation { player });
        }
        self.free_move(player);
        let report = TurnReport { received, placements, battles, won };
        proof {
            assert(old(self).funded(funded, player as int, report.received));
            assert(funded.placed(reinforced, player as int, report.placements@));
            assert(reinforced.battles_fought(*self, player as int, report.battles@));
        }
        Ok(report)
    }

    /// The player whose turn comes after that of `player`.
    pub fn next_player(&self, player: usize) -> (next: usize)
        requires
            player < self.states@.len(),
        ensures
            next == if player + 1 < self.states@.len() {
                player + 1
            } else {
                0
            },
    {
        if player < self.states.len() - 1 {
            player + 1
        } else {
            0
        }
    }

    /// Whether a game of `self` can go on from where `progress` says it
    /// stands: it is the turn of one of the players, the first turn or a
    /// later one, and the players that were passed over last are indeed
    /// defeated.
    pub open spec fn on_track(self, progress: Progress) -> bool {
        &&& progress.player < self.states@.len()
        &&& progress.passed_over <= self.states@.len()
        &&& 1 <= progress.turn
        &&& forall|q: int|
            0 <= q < self.states@.len() && turns_behind(
                q,
                progress.player as int,
                self.states@.len() as int,
            ) <= progress.passed_over ==> (#[trigger] self.states@[q]).defeated
    }

    /// Whether a game that stands where `progress` says has nothing to go on
    /// with: the number of the turn has reached `max_turns` or the end of
    /// the numbers, or every player has been passed over.
    pub open spec fn run_out(self, progress: Progress, max_turns: Option<u64>) -> bool {
        ||| max_turns matches Some(turns) && progress.turn >= turns
        ||| progress.turn == u64::MAX
        ||| progress.passed_over >= self.states@.len()
    }

    /// Where the game stands before its first turn: the dice decide who
    /// begins.
    pub fn begin(&self) -> (progress: Progress)
        requires
            self.wf(),
            self.states@.len() > 0,
        ensures
            self.on_track(progress),
            progress.turn == 1,
            progress.passed_over == 0,
    {
        Progress { player: first_player(&self.states), turn: 1, passed_over: 0 }
    }

    /// Lets the game go on by one player: the player whose turn it is takes
    /// it, or is passed over because it is defeated; then it is the turn of
    /// the next player. Where a turn wins the game or fails, it stays the
    /// turn of the player; where the game has nothing to go on with, nothing
    /// changes. A defeated player is never asked anything, and no turn of it
    /// fails.
    pub fn advance(&mut self, progress: &mut Progress, max_turns: Option<u64>) -> (result: Result<
        Step,
        GameError,
    >)
        requires
            old(self).wf(),
            old(self).on_track(*old(progress)),
        ensures
            final(self).wf(),
            final(self).on_track(*final(progress)),
            final(self).players == old(self).players,
            old(self).board.same_map(final(self).board),
            final(self).states@.len() == old(self).states@.len(),
            final(self).board.free_territories == old(self).board.free_territories,
            match result {
                Ok(Step::Stopped) => {
                    &&& old(self).run_out(*old(progress), max_turns)
                    &&& *final(self) == *old(self)
                    &&& *final(progress) == *old(progress)
                },
                Ok(Step::PassedOver) => {
                    &&& !old(self).run_out(*old(progress), max_turns)
                    &&& old(self).states@[old(progress).player as int].defeated
                    &&& *final(self) == *old(self)
                    &&& final(progress).turn == old(progress).turn
                    &&& final(progress).passed_over == old(progress).passed_over + 1
                    &&& final(progress).player == if old(progress).player + 1 < old(
                        self,
                    ).states@.len() {
                        old(progress).player + 1
                    } else {
                        0
                    }
                },
                Ok(Step::Turn(report)) => {
                    &&& !old(self).run_out(*old(progress), max_turns)
                    &&& !old(self).states@[old(progress).player as int].defeated
                    &&& !final(self).states@[old(progress).player as int].defeated
                    &&& old(self).turn_taken(*final(self), old(progress).player as int, report)
                    &&& if report.won {
                        *final(progress) == (Progress { passed_over: 0, ..*old(progress) })
                    } else {
                        &&& final(progress).turn == old(progress).turn + 1
                        &&& final(progress).passed_over == 0
                        &&& final(progress).player == if old(progress).player + 1 < old(
                            self,
                        ).states@.len() {
                            old(progress).player + 1
                        } else {
                            0
                        }
                    }
                },
                Err(error) => {
                    &&& !old(self).run_out(*old(progress), max_turns)
                    &&& !old(self).states@[old(progress).player as int].defeated
                    &&& old(self).turn_begun(*final(self), old(progress).player as int)
                    &&& *final(progress) == (Progress { passed_over: 0, ..*old(progress) })
                    &&& {
                        ||| error matches GameError::InsufficientArmies { .. }
                        ||| error matches GameError::IllegalDecision { .. }
                        ||| error == (GameError::InvariantViolation { player: old(progress).player })
                    }
                },
            },
            old(self).board.free_territories@.len() == 0 ==> !(result matches Err(
                GameError::InvariantViolation { .. },
            )),
    {
        let seats: usize = self.states.len();
        proof {
            self.board.lemma_same_map_reflexive();
        }
        if progress.passed_over >= seats || progress.turn == u64::MAX {
            return Ok(Step::Stopped);
        }
        if let Some(turns) = max_turns {
            if progress.turn >= turns {
                return Ok(Step::Stopped);
            }
        }
        let player: usize = progress.player;
        if self.states[player].defeated {
            progress.passed_over = progress.passed_over + 1;
            progress.player = self.next_player(player);
            return Ok(Step::PassedOver);
        }
        progress.passed_over = 0;
        let report: TurnReport = match self.take_turn(player) {
            Ok(report) => report,
            Err(error) => {
                return Err(error);
            },
        };
        if !report.won {
            progress.turn = progress.turn + 1;
            progress.player = self.next_player(player);
        }
        Ok(Step::Turn(report))
    }

    /// Whether in `self` the turn of player `next` comes after that of player
    /// `previous`: every player between the two in the order of the indices
    /// is defeated and passed over.
    pub open spec fn follows(self, previous: int, next: int) -> bool {
        forall|q: int|
            0 <= q < self.states@.len() && turns_behind(q, next, self.states@.len() as int)
                < turns_behind(previous, next, self.states@.len() as int) ==> (
            #[trigger] self.states@[q]).defeated
    }

    /// Whether in `self` it is the turn of `player` once these turns are
    /// taken: it comes after the last of them. After no turn it is the turn
    /// of whom the dice let begin.
    pub open spec fn to_move(self, turns: Seq<(usize, TurnReport)>, player: int) -> bool {
        turns.len() > 0 ==> self.follows(turns.last().0 as int, player)
    }

    /// Whether `after` is what these turns made of `self`, one after the
    /// other. Each is the turn of a player with its report; the player was
    /// not defeated when it took the turn, its turn came after the turn
    /// before it in the order of the indices, and the turn did not win the
    /// game.
    pub open spec fn turns_taken(self, after: Game, turns: Seq<(usize, TurnReport)>) -> bool
        decreases turns.len(),
    {
        if turns.len() == 0 {
            after == self
        } else {
            exists|between: Game|
                {
                    &&& self.turns_taken(between, turns.drop_last())
                    &&& turns.last().0 < between.states@.len()
                    &&& !between.states@[turns.last().0 as int].defeated
                    &&& between.to_move(turns.drop_last(), turns.last().0 as int)
                    &&& !turns.last().1.won
                    &&& #[trigger] between.turn_taken(
                        after,
                        turns.last().0 as int,
                        turns.last().1,
                    )
                }
        }
    }

    /// One more turn after turns that were taken makes turns that were taken.
    pub proof fn lemma_one_more_turn(
        self,
        between: Game,
        after: Game,
        turns: Seq<(usize, TurnReport)>,
        player: usize,
        report: TurnReport,
    )
        requires
            self.turns_taken(between, turns),
            player < between.states@.len(),
            !between.states@[player as int].defeated,
            between.to_move(turns, player as int),
            !report.won,
            between.turn_taken(after, player as int, report),
        ensures
            self.turns_taken(after, turns.push((player, report))),
    {
        let longer = turns.push((player, report));
        assert(longer.drop_last() == turns);
        assert(longer.last() == (player, report));
        assert(between.turn_taken(after, longer.last().0 as int, longer.last().1));
    }

    /// Attacks leave every reserve as it is, and a player that was marked as
    /// defeated stays so.
    pub proof fn lemma_battles_spare_reserves(
        self,
        after: Game,
        p: int,
        battles: Seq<BattleReport>,
        q: int,
    )
        requires
            self.battles_fought(after, p, battles),
            0 <= q < self.states@.len(),
        ensures
            after.states@.len() == self.states@.len(),
            after.states@[q].armies == self.states@[q].armies,
            self.states@[q].defeated ==> after.states@[q].defeated,
        decreases battles.len(),
    {
        if battles.len() > 0 {
            let between = choose|between: Game|
                {
                    &&& self.battles_fought(between, p, battles.drop_last())
                    &&& #[trigger] between.battle_fought(after, p, battles.last())
                };
            self.lemma_battles_spare_reserves(between, p, battles.drop_last(), q);
        }
    }

    /// The turn of a player leaves the reserve of every other player as it
    /// is, and a player that was marked as defeated stays so.
    pub proof fn lemma_turn_spares_others(self, after: Game, p: int, report: TurnReport, q: int)
        requires
            self.turn_taken(after, p, report),
            0 <= q < self.states@.len(),
        ensures
            after.states@.len() == self.states@.len(),
            q != p ==> after.states@[q].armies == self.states@[q].armies,
            self.states@[q].defeated ==> after.states@[q].defeated,
    {
        let (funded, placed) = choose|funded: Game, placed: Game|
            {
                &&& #[trigger] self.funded(funded, p, report.received)
                &&& #[trigger] funded.placed(placed, p, report.placements@)
                &&& placed.battles_fought(after, p, report.battles@)
            };
        assert(funded.states@.len() == self.states@.len());
        assert(placed.states@.len() == self.states@.len());
        placed.lemma_battles_spare_reserves(after, p, report.battles@, q);
    }

    /// Turns leave a player that is defeated as it is: it stays defeated,
    /// takes none of them, and keeps its reserve.
    pub proof fn lemma_turns_spare_the_defeated(
        self,
        after: Game,
        turns: Seq<(usize, TurnReport)>,
        q: int,
    )
        requires
            self.turns_taken(after, turns),
            0 <= q < self.states@.len(),
            self.states@[q].defeated,
        ensures
            after.states@.len() == self.states@.len(),
            after.states@[q].defeated,
            after.states@[q].armies == self.states@[q].armies,
            forall|i: int| 0 <= i < turns.len() ==> (#[trigger] turns[i]).0 != q,
        decreases turns.len(),
    {
        if turns.len() > 0 {
            let between = choose|between: Game|
                {
                    &&& self.turns_taken(between, turns.drop_last())
                    &&& turns.last().0 < between.states@.len()
                    &&& !between.states@[turns.last().0 as int].defeated
                    &&& !turns.last().1.won
                    &&& #[trigger] between.turn_taken(
                        after,
                        turns.last().0 as int,
                        turns.last().1,
                    )
                };
            self.lemma_turns_spare_the_defeated(between, turns.drop_last(), q);
            between.lemma_turn_spares_others(after, turns.last().0 as int, turns.last().1, q);
            assert forall|i: int| 0 <= i < turns.len() implies (#[trigger] turns[i]).0 != q by {
                if i < turns.len() - 1 {
                    assert(turns.drop_last()[i] == turns[i]);
                }
            }
        }
    }

    /// Whether `after` is `self` played up to turn number `turn`: the turns
    /// before it were taken, none of them won the game, and no other was.
    pub open spec fn played_until(self, after: Game, turn: u64) -> bool {
        exists|turns: Seq<(usize, TurnReport)>| #[trigger]
            self.turns_taken(after, turns) && turn == turns.len() + 1
    }

    /// Whether `after` is `self` won by `winner` in turn number `turn`: the
    /// turns before it were taken and did not win the game, and then
    /// `winner`, who was not defeated and whose turn it was, took the turn
    /// that won it.
    pub open spec fn won_in(self, after: Game, winner: usize, turn: u64) -> bool {
        exists|turns: Seq<(usize, TurnReport)>, between: Game, report: TurnReport|
            {
                &&& #[trigger] self.turns_taken(between, turns)
                &&& turn == turns.len() + 1
                &&& winner < between.states@.len()
                &&& !between.states@[winner as int].defeated
                &&& between.to_move(turns, winner as int)
                &&& report.won
                &&& #[trigger] between.turn_taken(after, winner as int, report)
            }
    }

    /// Whether `after` is `self` played until a turn failed: turns were taken
    /// that did not win the game, and then a player that was not defeated
    /// and whose turn it was began the turn that failed.
    pub open spec fn failed_in(self, after: Game) -> bool {
        exists|turns: Seq<(usize, TurnReport)>, between: Game, player: int|
            {
                &&& #[trigger] self.turns_taken(between, turns)
                &&& 0 <= player < between.states@.len()
                &&& !between.states@[player].defeated
                &&& between.to_move(turns, player)
                &&& #[trigger] between.turn_begun(after, player)
            }
    }

    /// Why a game that ended without a winner in turn number `turn` did so:
    /// the number of the turn had reached the limit; or there is no limit
    /// and the numbers had run out; or the limit was not reached and every
    /// player is defeated.
    pub open spec fn ended_early(self, turn: u64, max_turns: Option<u64>) -> bool {
        match max_turns {
            Some(turns) => {
                ||| turn == if turns < 1 {
                    1
                } else {
                    turns
                }
                ||| turn < turns && self.nobody_left()
            },
            None => turn == u64::MAX || self.nobody_left(),
        }
    }

    /// Whether every player is defeated.
    pub open spec fn nobody_left(self) -> bool {
        forall|p: int| 0 <= p < self.states@.len() ==> (#[trigger] self.states@[p]).defeated
    }

    /// Starts the actual game and game loop. The dice decide who begins; the
    /// players then take their turns in the order of their indices, and a
    /// defeated player is passed over. The game ends when a player has won.
    /// It ends without a winner when the number of the turn reaches
    /// `max_turns`, the first turn being turn one, or when nobody is left to
    /// take a turn. With a limit of one turn or none the game stays as it
    /// is.
    pub fn play(&mut self, max_turns: Option<u64>) -> (result: Result<Played, GameError>)
        requires
            old(self).wf(),
            old(self).states@.len() > 0,
        ensures
            final(self).wf(),
            final(self).players == old(self).players,
            old(self).board.same_map(final(self).board),
            final(self).states@.len() == old(self).states@.len(),
            match result {
                Ok(played) => {
                    &&& 1 <= played.turn
                    &&& match played.outcome {
                        Outcome::Victory(winner) => {
                            &&& winner < final(self).states@.len()
                            &&& final(self).defeated_players + 1 == final(self).states@.len()
                            &&& forall|t: int|
                                0 <= t < final(self).board.territories@.len() ==> (
                                #[trigger] final(self).board.territories@[t]).player == Some(winner)
                            &&& match max_turns {
                                Some(turns) => played.turn < turns,
                                None => true,
                            }
                            &&& old(self).won_in(*final(self), winner, played.turn)
                        },
                        Outcome::Incomplete => {
                            &&& final(self).ended_early(played.turn, max_turns)
                            &&& old(self).played_until(*final(self), played.turn)
                        },
                    }
                },
                Err(error) => {
                    &&& old(self).failed_in(*final(self))
                    &&& {
                        ||| error matches GameError::InsufficientArmies { .. }
                        ||| error matches GameError::IllegalDecision { .. }
                        ||| error matches GameError::InvariantViolation { .. }
                    }
                },
            },
            max_turns matches Some(turns) && turns <= 1 ==> result == Ok::<Played, GameError>(
                Played { outcome: Outcome::Incomplete, turn: 1 },
            ) && *final(self) == *old(self),
            final(self).board.free_territories == old(self).board.free_territories,
            old(self).board.free_territories@.len() == 0 ==> !(result matches Err(
                GameError::InvariantViolation { .. },
            )),
    {
        let mut progress: Progress = self.begin();
        let ghost mut turns: Seq<(usize, TurnReport)> = Seq::empty();
        proof {
            self.board.lemma_same_map_reflexive();
        }
        loop
            invariant
                self.wf(),
                self.on_track(progress),
                self.states@.len() == old(self).states@.len(),
                match max_turns {
                    Some(limit) => progress.turn <= limit || progress.turn == 1,
                    None => true,
                },
                old(self).turns_taken(*self, turns),
                progress.turn == turns.len() + 1,
                progress.turn == 1 ==> *self == *old(self),
                turns.len() > 0 ==> {
                    &&& turns.last().0 < self.states@.len()
                    &&& !self.states@[turns.last().0 as int].defeated
                    &&& turns_behind(
                        turns.last().0 as int,
                        progress.player as int,
                        self.states@.len() as int,
                    ) == progress.passed_over + 1
                },
                self.players == old(self).players,
                old(self).board.same_map(self.board),
                self.board.free_territories == old(self).board.free_territories,
            decreases u64::MAX - progress.turn, self.states@.len() - progress.passed_over,
        {
            let ghost before = *self;
            let ghost stood = progress;
            let step: Step = match self.advance(&mut progress, max_turns) {
                Ok(step) => step,
                Err(error) => {
                    proof {
                        old(self).board.lemma_same_map_transitive(before.board, self.board);
                        assert(old(self).turns_taken(before, turns));
                        assert(before.to_move(turns, stood.player as int));
                        assert(before.turn_begun(*self, stood.player as int));
                    }
                    return Err(error);
                },
            };
            proof {
                old(self).board.lemma_same_map_transitive(before.board, self.board);
            }
            match step {
                Step::Stopped => {
                    proof {
                        if progress.passed_over >= self.states@.len() {
                            assert forall|p: int| 0 <= p < self.states@.len() implies (
                            #[trigger] self.states@[p]).defeated by {
                                assert(turns_behind(
                                    p,
                                    progress.player as int,
                                    self.states@.len() as int,
                                ) <= progress.passed_over);
                            }
                        }
                        assert(old(self).turns_taken(*self, turns));
                    }
                    return Ok(Played { outcome: Outcome::Incomplete, turn: progress.turn });
                },
                Step::PassedOver => {},
                Step::Turn(report) => {
                    if report.won {
                        proof {
                            assert(old(self).turns_taken(before, turns));
                            assert(before.to_move(turns, stood.player as int));
                            assert(before.turn_taken(*self, stood.player as int, report));
                        }
                        return Ok(
                            Played { outcome: Outcome::Victory(progress.player), turn: progress.turn },
                        );
                    }
                    proof {
                        old(self).lemma_one_more_turn(before, *self, turns, stood.player, report);
                        turns = turns.push((stood.player, report));
                    }
                },
            }
        }
    }

    /// No army appears or vanishes: what a player has in its reserve, on the
    /// board and in the box is `ARMIES_PER_PLAYER` armies together, in every
    /// sound game.
    pub proof fn lemma_armies_conserved(self, p: int)
        requires
            self.wf(),
            0 <= p < self.states@.len(),
        ensures
            self.states@[p].armies + armies_of(self.board.territories@, p as usize)
                + self.armies_in_box@[p] == ARMIES_PER_PLAYER,
    {
        assert(self.accounts_ok(p));
    }

    /// The armies that move into a territory that was taken are no fewer than
    /// the dice of the attack and fewer than stood on the attacking
    /// territory: they are what then stands on the territory that was taken,
    /// and at least one army stays behind.
    pub proof fn lemma_capture_bound(self, after: Game, attack: Attack, moved: u32)
        requires
            self.wf(),
            self.conquered(after, attack, moved),
        ensures
            attack.dice <= moved < self.board.territories@[attack.attacker as int].armies,
            after.board.territories@[attack.defender as int].armies == moved,
            after.board.territories@[attack.defender as int].player
                == self.board.territories@[attack.attacker as int].player,
            after.board.territories@[attack.attacker as int].armies
                == self.board.territories@[attack.attacker as int].armies - moved,
            after.board.territories@[attack.attacker as int].armies >= 1,
    {
        assert(self.board.occupant_ok(attack.attacker as int));
        assert(self.board.occupant_ok(attack.defender as int));
    }
}

} // verus!
