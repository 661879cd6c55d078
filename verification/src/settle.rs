//! Settling a round: the player's total against the opponent's, and what
//! of the wager goes back to the player.

use vstd::prelude::*;

verus! {

/// The total that a hand may not exceed.
pub const LIMIT: u32 = 21;

/// How a round ended for the player.
#[derive(Clone, Copy, Debug, PartialEq, Eq, Structural)]
pub enum Outcome {
    /// The opponent went over 21.
    OpponentBust,
    /// The player beat the opponent with a total of exactly 21.
    TwentyOne,
    /// The player beat the opponent with another total.
    Win,
    /// Both totals are the same.
    Push,
    /// The opponent's total is the higher one.
    Lose,
    /// The player went over 21 on a hit.
    Bust,
}

/// The outcome of a round, told in three.
#[derive(Clone, Copy, Debug, PartialEq, Eq, Structural)]
pub enum Verdict {
    Win,
    Push,
    Lose,
}

/// The outcome for a player who stands on `player` against `opponent`.
pub open spec fn settled(player: nat, opponent: nat) -> Outcome {
    if opponent > 21 {
        Outcome::OpponentBust
    } else if player > opponent {
        if player == 21 {
            Outcome::TwentyOne
        } else {
            Outcome::Win
        }
    } else if player == opponent {
        Outcome::Push
    } else {
        Outcome::Lose
    }
}

impl Outcome {
    /// Whether the player won, drew or lost.
    pub open spec fn spec_verdict(self) -> Verdict {
        match self {
            Outcome::OpponentBust | Outcome::TwentyOne | Outcome::Win => Verdict::Win,
            Outcome::Push => Verdict::Push,
            Outcome::Lose | Outcome::Bust => Verdict::Lose,
        }
    }

    /// What the player's balance gains, in halves of the wager: a win pays
    /// the wager back and as much again, a win on 21 the wager and one and
    /// a half times as much, a push the wager alone, a loss nothing.
    pub open spec fn spec_payout_halves(self) -> u32 {
        match self {
            Outcome::OpponentBust | Outcome::Win => 4,
            Outcome::TwentyOne => 5,
            Outcome::Push => 2,
            Outcome::Lose | Outcome::Bust => 0,
        }
    }

    /// Whether the player won, drew or lost.
    #[verifier::when_used_as_spec(spec_verdict)]
    pub fn verdict(self) -> (verdict: Verdict)
        ensures
            verdict == self.spec_verdict(),
    {
        match self {
            Outcome::OpponentBust | Outcome::TwentyOne | Outcome::Win => Verdict::Win,
            Outcome::Push => Verdict::Push,
            Outcome::Lose | Outcome::Bust => Verdict::Lose,
        }
    }

    /// What the player's balance gains, in halves of the wager.
    #[verifier::when_used_as_spec(spec_payout_halves)]
    pub fn payout_halves(self) -> (halves: u32)
        ensures
            halves == self.spec_payout_halves(),
    {
        match self {
            Outcome::OpponentBust | Outcome::Win => 4,
            Outcome::TwentyOne => 5,
            Outcome::Push => 2,
            Outcome::Lose | Outcome::Bust => 0,
        }
    }
}

/// Settles a round in which the player stands on `player` and the opponent
/// on `opponent`.
pub fn settle(player: u32, opponent: u32) -> (outcome: Outcome)
    ensures
        outcome == settled(player as nat, opponent as nat),
{
    if opponent > LIMIT {
        Outcome::OpponentBust
    } else if player > opponent {
        if player == LIMIT {
            Outcome::TwentyOne
        } else {
            Outcome::Win
        }
    } else if player == opponent {
        Outcome::Push
    } else {
        Outcome::Lose
    }
}

} // verus!
