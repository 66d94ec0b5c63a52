//! The ways in which a game run can fail.
use vstd::prelude::*;

verus! {

/// The decisions that the engine asks of a player's strategy.
#[derive(Debug, Clone, Copy, PartialEq, Eq, Structural)]
pub enum Decision {
    /// Which free territory to claim.
    Claim,
    /// Where to place armies from the reserve.
    Placement,
    /// Which territory to attack, from where and with how many dice.
    Attack,
    /// With how many dice to defend.
    Defense,
    /// How many armies to move into a captured territory.
    Capture,
}

/// Why a game run was aborted. None of these is recovered from: the run ends.
#[derive(Debug, Clone, Copy, PartialEq, Eq, Structural)]
pub enum GameError {
    /// More armies were to leave a reserve or the box than it holds.
    InsufficientArmies { player: usize, requested: u32, available: u32 },
    /// A territory that already has an occupant was to be claimed.
    TerritoryOccupied { player: usize, territory: usize },
    /// A strategy returned a decision outside the bounds that the rules set.
    IllegalDecision { player: usize, decision: Decision },
    /// The ownership ledger disagrees with the board.
    InvariantViolation { player: usize },
}

} // verus!
