//! Playing cards: a suit label and a rank from 1 (ace) to 10 (ten and the
//! face cards, which count alike).

use std::cmp::Ordering;
use vstd::prelude::*;
use vstd::std_specs::cmp::PartialEqSpecImpl;
use vstd::std_specs::cmp::PartialOrdSpecImpl;

verus! {

/// The four suits. A suit is a label only: it plays no part in comparing
/// or scoring cards.
#[derive(Clone, Copy, Debug, PartialEq, Eq, Structural)]
pub enum Suit {
    Spade,
    Heart,
    Diamond,
    Club,
}

/// One card. Two cards compare by rank alone, so cards of different suits
/// and the same rank are equal under `==` and `<`.
#[derive(Clone, Copy, Debug)]
pub struct Card {
    pub suit: Suit,
    pub rank: u32,
}

impl Card {
    /// A rank between 1 and 10.
    pub open spec fn is_valid(self) -> bool {
        1 <= self.rank <= 10
    }

    /// The rank-1 card, which scores 11 or 1.
    pub open spec fn is_ace(self) -> bool {
        self.rank == 1
    }

    /// The card of this suit and rank.
    pub fn new(suit: Suit, rank: u32) -> (card: Card)
        requires
            1 <= rank <= 10,
        ensures
            card.suit == suit,
            card.rank == rank,
            card.is_valid(),
    {
        Card { suit, rank }
    }

    /// Orders two cards by rank.
    pub fn cmp(&self, other: &Card) -> (order: Ordering)
        ensures
            order == rank_order(self.rank, other.rank),
    {
        if self.rank < other.rank {
            Ordering::Less
        } else if self.rank == other.rank {
            Ordering::Equal
        } else {
            Ordering::Greater
        }
    }
}

/// How rank `a` stands to rank `b`.
pub open spec fn rank_order(a: u32, b: u32) -> Ordering {
    if a < b {
        Ordering::Less
    } else if a == b {
        Ordering::Equal
    } else {
        Ordering::Greater
    }
}

impl PartialEq for Card {
    fn eq(&self, other: &Card) -> (same: bool) {
        self.rank == other.rank
    }
}

impl PartialEqSpecImpl for Card {
    open spec fn obeys_eq_spec() -> bool {
        true
    }

    open spec fn eq_spec(&self, other: &Card) -> bool {
        self.rank == other.rank
    }
}

impl Eq for Card {}

impl PartialOrd for Card {
    fn partial_cmp(&self, other: &Card) -> (order: Option<Ordering>) {
        Some(self.cmp(other))
    }
}

impl PartialOrdSpecImpl for Card {
    open spec fn obeys_partial_cmp_spec() -> bool {
        true
    }

    open spec fn partial_cmp_spec(&self, other: &Card) -> Option<Ordering> {
        Some(rank_order(self.rank, other.rank))
    }
}

} // verus!
