//! A player at the table: the hand, which grows by one card with each hit.

use crate::card::Card;
use crate::deck::drawn_from;
use crate::deck::Deck;
use crate::error::GameError;
use crate::score::hand_total;
use crate::score::CardCollection;
use crate::settle::settle;
use crate::settle::settled;
use crate::settle::Outcome;
use vstd::prelude::*;

verus! {

/// A player, or the dealer: a hand of cards.
pub struct Player {
    hand: Vec<Card>,
}

impl View for Player {
    type V = Seq<Card>;

    /// The hand, in the order in which the cards were drawn.
    closed spec fn view(&self) -> Seq<Card> {
        self.hand@
    }
}

impl Player {
    /// A player with an empty hand.
    pub fn new() -> (player: Player)
        ensures
            player@ == Seq::<Card>::empty(),
    {
        Player { hand: Vec::new() }
    }

    /// The hand.
    pub fn hand(&self) -> (hand: &Vec<Card>)
        ensures
            hand@ == self@,
    {
        &self.hand
    }

    /// Gives the hand up.
    pub fn clear(&mut self)
        ensures
            final(self)@ == Seq::<Card>::empty(),
    {
        self.hand.clear();
    }

    /// Draws one card from `deck` into the hand. An empty deck gives
    /// `EmptyDeck`, and nothing changes.
    pub fn hit(&mut self, deck: &mut Deck) -> (done: Result<(), GameError>)
        ensures
            old(deck)@.len() == 0 ==> done == Err::<(), GameError>(GameError::EmptyDeck)
                && final(self)@ == old(self)@ && final(deck)@ == old(deck)@,
            old(deck)@.len() > 0 ==> done is Ok && final(self)@.len() == old(self)@.len() + 1
                && final(self)@.drop_last() == old(self)@ && final(self)@.last().is_valid()
                && drawn_from(old(deck)@, final(self)@.last(), final(deck)@),
    {
        match deck.draw() {
            Ok(card) => {
                self.hand.push(card);
                assert(self.hand@.drop_last() == old(self)@);
                Ok(())
            },
            Err(e) => Err(e),
        }
    }

    /// The score of the hand.
    pub fn score(&mut self) -> (total: u32)
        requires
            hand_total(old(self)@) <= u32::MAX,
        ensures
            total == hand_total(old(self)@),
            final(self)@ == old(self)@,
    {
        self.hand.calc()
    }

    /// Settles the round for this player against `opponent`. Both hands
    /// stay as they are.
    pub fn stand(&mut self, opponent: &mut Player) -> (outcome: Outcome)
        requires
            hand_total(old(self)@) <= u32::MAX,
            hand_total(old(opponent)@) <= u32::MAX,
        ensures
            outcome == settled(hand_total(old(self)@), hand_total(old(opponent)@)),
            final(self)@ == old(self)@,
            final(opponent)@ == old(opponent)@,
    {
        let player_n = self.hand.calc();
        let opponent_n = opponent.hand.calc();
        settle(player_n, opponent_n)
    }
}

} // verus!
