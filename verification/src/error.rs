//! What can go wrong in a game.

use vstd::prelude::*;

verus! {

/// Why a draw or a wager was refused.
#[derive(Clone, Copy, Debug, PartialEq, Eq, Structural)]
pub enum GameError {
    /// A card was asked of a deck that holds none.
    EmptyDeck,
    /// The wager is below the minimum of one unit.
    InvalidWager,
    /// The wager is more than the player's balance.
    InsufficientBalance,
}

} // verus!
