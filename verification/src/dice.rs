//! Dice, and the other draws that the game takes from the random number
//! generator of the thread.
use crate::players::player_state::PlayerState;
use rand::distributions::Uniform;
use rand::Rng;
use vstd::prelude::*;

verus! {

/// The lowest face of a die.
pub const LOWEST_FACE: u32 = 1;

/// The highest face of a die.
pub const HIGHEST_FACE: u32 = 6;

/// Whether `roll` is a face of a standard die.
pub open spec fn is_face(roll: u32) -> bool {
    LOWEST_FACE <= roll <= HIGHEST_FACE
}

/// Whether every one of `rolls` is a face of a standard die.
pub open spec fn are_faces(rolls: Seq<u32>) -> bool {
    forall|i: int| 0 <= i < rolls.len() ==> is_face(#[trigger] rolls[i])
}

/// A number drawn from `low` up to and including `high`.
///
/// Calls `Uniform::new_inclusive` and `Rng::sample` of the `rand` crate on
/// `thread_rng`, the generator of the thread. `new_inclusive` panics where
/// `low > high`; the sample lies in the closed range. Which number comes is
/// left open. `thread_rng` panics where the system has no seed to give.
#[verifier::external_body]
pub(crate) fn draw_inclusive(low: u64, high: u64) -> (drawn: u64)
    requires
        low <= high,
    ensures
        low <= drawn <= high,
{
    rand::thread_rng().sample(Uniform::new_inclusive(low, high))
}

/// A number drawn from `low` up to but not including `high`.
///
/// Calls `Uniform::new` and `Rng::sample` of the `rand` crate on `thread_rng`,
/// the generator of the thread. `new` panics where `low >= high`; the sample
/// lies in the half-open range. Which number comes is left open.
/// `thread_rng` panics where the system has no seed to give.
#[verifier::external_body]
pub(crate) fn draw_below(low: u64, high: u64) -> (drawn: u64)
    requires
        low < high,
    ensures
        low <= drawn < high,
{
    rand::thread_rng().sample(Uniform::new(low, high))
}

/// A coin flip.
///
/// Calls `Rng::gen` of the `rand` crate for a `bool` on `thread_rng`, the
/// generator of the thread. Nothing is claimed of the side that comes up.
/// `thread_rng` panics where the system has no seed to give.
#[verifier::external_body]
pub(crate) fn flip() -> bool {
    rand::thread_rng().gen()
}

/// Rolls one standard six-sided die.
pub fn roll_die() -> (roll: u32)
    ensures
        is_face(roll),
{
    let drawn: u64 = draw_inclusive(LOWEST_FACE as u64, HIGHEST_FACE as u64);
    drawn as u32
}

/// Rolls `count` dice, one after the other.
pub fn roll_each(count: usize) -> (rolls: Vec<u32>)
    ensures
        rolls@.len() == count,
        are_faces(rolls@),
{
    let mut rolls: Vec<u32> = Vec::new();
    let mut rolled: usize = 0;
    while rolled < count
        invariant
            rolled <= count,
            rolls@.len() == rolled,
            are_faces(rolls@),
        decreases count - rolled,
    {
        rolls.push(roll_die());
        rolled += 1;
    }
    rolls
}

/// Simulates rolling a given amount of standard six-sided dice.
pub fn roll_dice(amount: u32) -> (rolls: Vec<u32>)
    ensures
        rolls@.len() == amount,
        are_faces(rolls@),
{
    roll_each(amount as usize)
}

/// Lets a player roll a given amount of standard six-sided dice. The dice
/// fall alike for every player.
pub fn player_rolls_dice(_player: &PlayerState, amount: u32) -> (rolls: Vec<u32>)
    ensures
        rolls@.len() == amount,
        are_faces(rolls@),
{
    roll_dice(amount)
}

/// Rolls a standard six-sided die for every player. The rolls come in the
/// order of the players.
pub fn players_roll_die(players: &Vec<PlayerState>) -> (rolls: Vec<u32>)
    ensures
        rolls@.len() == players@.len(),
        are_faces(rolls@),
{
    roll_each(players.len())
}

} // verus!
