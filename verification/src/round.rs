//! The table: one deck, the player and the dealer, and the phase that the
//! round is in. A round is bet on, played by the player, played out by the
//! dealer and settled; the next one is dealt from what the deck has left.

use crate::card::Card;
use crate::deck::draw_run;
use crate::deck::drawn_from;
use crate::deck::fresh_deck;
use crate::deck::lemma_draw_run_keeps_cards;
use crate::deck::lemma_draw_run_push;
use crate::deck::lemma_within_fresh_deck;
use crate::deck::within;
use crate::deck::Deck;
use crate::error::GameError;
use crate::player::Player;
use crate::score::ace_count;
use crate::score::hand_total;
use crate::score::lemma_total_bound;
use crate::score::non_ace_sum;
use crate::settle::settled;
use crate::settle::Outcome;
use crate::settle::LIMIT;
use vstd::prelude::*;

verus! {

/// The total from which on the dealer draws no more.
pub const DEALER_STANDS: u32 = 17;

/// Where a round stands.
#[derive(Clone, Copy, Debug, PartialEq, Eq, Structural)]
pub enum Phase {
    /// The hands are dealt, and the wager is awaited.
    Betting,
    /// The player hits or stands.
    PlayerTurn,
    /// The player stands, and the dealer draws.
    DealerTurn,
    /// The round is over.
    Settled,
}

/// All the cards at the table: those left in the deck and the two hands.
pub open spec fn table(deck: Seq<Card>, player: Seq<Card>, dealer: Seq<Card>) -> Seq<Card> {
    deck + player + dealer
}

/// Each card of `hand` counts at least 1: the total of a hand whose aces
/// all count 1.
pub open spec fn low_total(hand: Seq<Card>) -> nat {
    non_ace_sum(hand) + ace_count(hand)
}

/// What the dealer's turn does to deck and hand: the dealer's hand grows
/// at its end by cards drawn from the deck in turn, and before each draw
/// its total is below 17.
pub open spec fn dealer_played(
    deck: Seq<Card>,
    hand: Seq<Card>,
    deck_after: Seq<Card>,
    hand_after: Seq<Card>,
) -> bool {
    &&& hand.len() <= hand_after.len()
    &&& hand_after.take(hand.len() as int) == hand
    &&& draw_run(deck, hand_after.skip(hand.len() as int), deck_after)
    &&& forall|k: int|
        hand.len() <= k < hand_after.len() ==> hand_total(#[trigger] hand_after.take(k)) < 17
}

/// The cards at a table are those of the deck and of the two hands.
proof fn lemma_table_cards(deck: Seq<Card>, player: Seq<Card>, dealer: Seq<Card>)
    ensures
        table(deck, player, dealer).to_multiset() == deck.to_multiset().add(
            player.to_multiset(),
        ).add(dealer.to_multiset()),
{
    broadcast use vstd::multiset::group_multiset_axioms;

    vstd::seq_lib::lemma_multiset_commutative(deck, player);
    vstd::seq_lib::lemma_multiset_commutative(deck + player, dealer);
    assert(table(deck, player, dealer).to_multiset() =~= deck.to_multiset().add(
        player.to_multiset(),
    ).add(dealer.to_multiset()));
}

/// At a table whose cards are among those of a new deck, there are at
/// most 52 cards, and each hand's total is at most 530.
proof fn lemma_table_totals(deck: Seq<Card>, player: Seq<Card>, dealer: Seq<Card>)
    requires
        within(table(deck, player, dealer), fresh_deck()),
    ensures
        deck.len() + player.len() + dealer.len() <= 52,
        hand_total(player) <= 530,
        hand_total(dealer) <= 530,
{
    let all = table(deck, player, dealer);
    lemma_within_fresh_deck(all);
    assert forall|i: int| 0 <= i < player.len() implies (#[trigger] player[i]).is_valid() by {
        assert(player[i] == all[deck.len() + i]);
    }
    assert forall|i: int| 0 <= i < dealer.len() implies (#[trigger] dealer[i]).is_valid() by {
        assert(dealer[i] == all[deck.len() + player.len() + i]);
    }
    lemma_total_bound(player);
    lemma_total_bound(dealer);
}

/// A card that goes from the deck to the end of the player's hand leaves
/// the cards at the table what they were.
proof fn lemma_player_draws(
    deck: Seq<Card>,
    player: Seq<Card>,
    dealer: Seq<Card>,
    card: Card,
    deck_after: Seq<Card>,
)
    requires
        drawn_from(deck, card, deck_after),
    ensures
        table(deck_after, player.push(card), dealer).to_multiset() == table(
            deck,
            player,
            dealer,
        ).to_multiset(),
{
    broadcast use vstd::multiset::group_multiset_axioms;

    let i = choose|i: int| 0 <= i < deck.len() && card == deck[i] && deck_after == deck.remove(i);
    lemma_table_cards(deck, player, dealer);
    lemma_table_cards(deck_after, player.push(card), dealer);
    vstd::seq_lib::to_multiset_remove(deck, i);
    vstd::seq_lib::to_multiset_build(player, card);
    vstd::seq_lib::to_multiset_contains(deck, card);
    assert(deck.contains(card));
    assert(table(deck_after, player.push(card), dealer).to_multiset() =~= table(
        deck,
        player,
        dealer,
    ).to_multiset());
}

/// A card that goes from the deck to the end of the dealer's hand leaves
/// the cards at the table what they were.
proof fn lemma_dealer_draws(
    deck: Seq<Card>,
    player: Seq<Card>,
    dealer: Seq<Card>,
    card: Card,
    deck_after: Seq<Card>,
)
    requires
        drawn_from(deck, card, deck_after),
    ensures
        table(deck_after, player, dealer.push(card)).to_multiset() == table(
            deck,
            player,
            dealer,
        ).to_multiset(),
{
    broadcast use vstd::multiset::group_multiset_axioms;

    let i = choose|i: int| 0 <= i < deck.len() && card == deck[i] && deck_after == deck.remove(i);
    lemma_table_cards(deck, player, dealer);
    lemma_table_cards(deck_after, player, dealer.push(card));
    vstd::seq_lib::to_multiset_remove(deck, i);
    vstd::seq_lib::to_multiset_build(dealer, card);
    vstd::seq_lib::to_multiset_contains(deck, card);
    assert(deck.contains(card));
    assert(table(deck_after, player, dealer.push(card)).to_multiset() =~= table(
        deck,
        player,
        dealer,
    ).to_multiset());
}

/// With the hands given up, the deck alone is still among the cards of a
/// new deck.
proof fn lemma_hands_cleared(deck: Seq<Card>, player: Seq<Card>, dealer: Seq<Card>)
    requires
        within(table(deck, player, dealer), fresh_deck()),
    ensures
        within(table(deck, Seq::empty(), Seq::empty()), fresh_deck()),
{
    broadcast use vstd::multiset::group_multiset_axioms;

    lemma_table_cards(deck, player, dealer);
    assert(table(deck, Seq::empty(), Seq::empty()) =~= deck);
}

/// Each card that comes to a hand adds at least 1 to its low total.
proof fn lemma_low_total_grows(hand: Seq<Card>, card: Card)
    requires
        card.is_valid(),
    ensures
        low_total(hand.push(card)) >= low_total(hand) + 1,
{
    assert(hand.push(card).drop_last() == hand);
}

/// A table. Its cards are at all times among those of one new deck: what
/// the deck has left, and the two hands.
pub struct Round {
    deck: Deck,
    player: Player,
    dealer: Player,
    phase: Phase,
}

impl Round {
    /// The cards left in the deck.
    pub closed spec fn deck_cards(&self) -> Seq<Card> {
        self.deck@
    }

    /// The player's hand.
    pub closed spec fn player_cards(&self) -> Seq<Card> {
        self.player@
    }

    /// The dealer's hand.
    pub closed spec fn dealer_cards(&self) -> Seq<Card> {
        self.dealer@
    }

    /// The phase that the round is in.
    pub closed spec fn spec_phase(&self) -> Phase {
        self.phase
    }

    /// This table and `other` hold the same cards in the same places, and
    /// stand in the same phase.
    pub open spec fn same_as(&self, other: &Round) -> bool {
        &&& self.deck_cards() == other.deck_cards()
        &&& self.player_cards() == other.player_cards()
        &&& self.dealer_cards() == other.dealer_cards()
        &&& self.spec_phase() == other.spec_phase()
    }

    /// The cards at the table are among those of one new deck.
    pub open spec fn wf(&self) -> bool {
        within(table(self.deck_cards(), self.player_cards(), self.dealer_cards()), fresh_deck())
    }

    /// A table with a new deck, from which two cards are dealt to the
    /// player and then two to the dealer. The wager is awaited.
    pub fn new() -> (round: Round)
        ensures
            round.wf(),
            round.spec_phase() == Phase::Betting,
            round.player_cards().len() == 2,
            round.dealer_cards().len() == 2,
            round.deck_cards().len() == 48,
            draw_run(
                fresh_deck(),
                round.player_cards() + round.dealer_cards(),
                round.deck_cards(),
            ),
    {
        let mut round = Round {
            deck: Deck::new(),
            player: Player::new(),
            dealer: Player::new(),
            phase: Phase::Settled,
        };
        proof {
            assert(table(round.deck@, round.player@, round.dealer@) =~= fresh_deck());
        }
        let dealt = round.deal();
        assert(dealt is Ok);
        round
    }

    /// The phase that the round is in.
    #[verifier::when_used_as_spec(spec_phase)]
    pub fn phase(&self) -> (phase: Phase)
        ensures
            phase == self.spec_phase(),
    {
        self.phase
    }

    /// The player's hand.
    pub fn player_hand(&self) -> (hand: &Vec<Card>)
        ensures
            hand@ == self.player_cards(),
    {
        self.player.hand()
    }

    /// The dealer's hand.
    pub fn dealer_hand(&self) -> (hand: &Vec<Card>)
        ensures
            hand@ == self.dealer_cards(),
    {
        self.dealer.hand()
    }

    /// How many cards the deck has left.
    pub fn cards_left(&self) -> (n: usize)
        ensures
            n == self.deck_cards().len(),
    {
        self.deck.len()
    }

    /// The total of the player's hand.
    pub fn player_total(&mut self) -> (total: u32)
        requires
            old(self).wf(),
        ensures
            final(self).same_as(old(self)),
            total == hand_total(old(self).player_cards()),
    {
        proof {
            lemma_table_totals(self.deck@, self.player@, self.dealer@);
        }
        self.player.score()
    }

    /// The total of the dealer's hand.
    pub fn dealer_total(&mut self) -> (total: u32)
        requires
            old(self).wf(),
        ensures
            final(self).same_as(old(self)),
            total == hand_total(old(self).dealer_cards()),
    {
        proof {
            lemma_table_totals(self.deck@, self.player@, self.dealer@);
        }
        self.dealer.score()
    }

    /// Begins the next round: both hands are given up, and two cards are
    /// dealt to the player and then two to the dealer. A deck with fewer
    /// than four cards gives `EmptyDeck`, and nothing changes.
    pub fn deal(&mut self) -> (dealt: Result<(), GameError>)
        requires
            old(self).wf(),
            old(self).spec_phase() == Phase::Settled,
        ensures
            final(self).wf(),
            old(self).deck_cards().len() < 4 ==> dealt == Err::<(), GameError>(
                GameError::EmptyDeck,
            ) && final(self).same_as(old(self)),
            old(self).deck_cards().len() >= 4 ==> dealt is Ok && final(self).spec_phase()
                == Phase::Betting && final(self).player_cards().len() == 2 && final(
                self
            ).dealer_cards().len() == 2 && final(self).deck_cards().len() == old(
                self
            ).deck_cards().len() - 4 && draw_run(
                old(self).deck_cards(),
                final(self).player_cards() + final(self).dealer_cards(),
                final(self).deck_cards(),
            ),
    {
        if self.deck.len() < 4 {
            return Err(GameError::EmptyDeck);
        }
        let ghost deck0 = self.deck@;
        proof {
            lemma_hands_cleared(self.deck@, self.player@, self.dealer@);
        }
        self.player.clear();
        self.dealer.clear();
        let ghost none = Seq::<Card>::empty();

        self.player.hit(&mut self.deck)?;
        let ghost deck1 = self.deck@;
        let ghost one = self.player@;
        proof {
            assert(one =~= none.push(one.last()));
            lemma_player_draws(deck0, none, none, one.last(), deck1);
            lemma_draw_run_push(deck0, none, deck0, one.last(), deck1);
        }

        self.player.hit(&mut self.deck)?;
        let ghost deck2 = self.deck@;
        let ghost both = self.player@;
        proof {
            assert(both =~= one.push(both.last()));
            lemma_player_draws(deck1, one, none, both.last(), deck2);
            lemma_draw_run_push(deck0, one, deck1, both.last(), deck2);
        }

        self.dealer.hit(&mut self.deck)?;
        let ghost deck3 = self.deck@;
        let ghost d1 = self.dealer@;
        proof {
            assert(d1 =~= none.push(d1.last()));
            lemma_dealer_draws(deck2, both, none, d1.last(), deck3);
            lemma_draw_run_push(deck0, both, deck2, d1.last(), deck3);
            assert(both.push(d1.last()) =~= both + d1);
        }

        self.dealer.hit(&mut self.deck)?;
        let ghost deck4 = self.deck@;
        let ghost d2 = self.dealer@;
        proof {
            assert(d2 =~= d1.push(d2.last()));
            lemma_dealer_draws(deck3, both, d1, d2.last(), deck4);
            lemma_draw_run_push(deck0, both + d1, deck3, d2.last(), deck4);
            assert((both + d1).push(d2.last()) =~= both + d2);
            lemma_draw_run_keeps_cards(deck0, both + d2, deck4);
        }
        self.phase = Phase::Betting;
        Ok(())
    }

    /// Takes the wager. A wager that the player's balance does not cover
    /// gives `InsufficientBalance`; one that is covered and is below the
    /// minimum of one unit gives `InvalidWager`; in both cases nothing
    /// changes. Otherwise it is the player's turn.
    pub fn bet(&mut self, covered: bool, at_least_minimum: bool) -> (taken: Result<(), GameError>)
        requires
            old(self).spec_phase() == Phase::Betting,
        ensures
            final(self).deck_cards() == old(self).deck_cards(),
            final(self).player_cards() == old(self).player_cards(),
            final(self).dealer_cards() == old(self).dealer_cards(),
            !covered ==> taken == Err::<(), GameError>(GameError::InsufficientBalance),
            covered && !at_least_minimum ==> taken == Err::<(), GameError>(
                GameError::InvalidWager,
            ),
            covered && at_least_minimum ==> taken is Ok,
            taken is Err ==> final(self).same_as(old(self)),
            taken is Ok ==> final(self).spec_phase() == Phase::PlayerTurn,
    {
        if !covered {
            Err(GameError::InsufficientBalance)
        } else if !at_least_minimum {
            Err(GameError::InvalidWager)
        } else {
            self.phase = Phase::PlayerTurn;
            Ok(())
        }
    }

    /// The player draws a card. A hand that then totals over 21 loses the
    /// round at once, and the round is over; otherwise it stays the
    /// player's turn. An empty deck gives `EmptyDeck`, and nothing changes.
    pub fn hit(&mut self) -> (hit: Result<Option<Outcome>, GameError>)
        requires
            old(self).wf(),
            old(self).spec_phase() == Phase::PlayerTurn,
        ensures
            final(self).wf(),
            final(self).dealer_cards() == old(self).dealer_cards(),
            old(self).deck_cards().len() == 0 ==> hit == Err::<Option<Outcome>, GameError>(
                GameError::EmptyDeck,
            ) && final(self).same_as(old(self)),
            old(self).deck_cards().len() > 0 ==> hit is Ok && final(self).player_cards().len()
                == old(self).player_cards().len() + 1 && final(self).player_cards().drop_last()
                == old(self).player_cards() && drawn_from(
                old(self).deck_cards(),
                final(self).player_cards().last(),
                final(self).deck_cards(),
            ),
            hit is Ok && hand_total(final(self).player_cards()) > 21 ==> hit == Ok::<
                Option<Outcome>,
                GameError,
            >(Some(Outcome::Bust)) && final(self).spec_phase() == Phase::Settled,
            hit is Ok && hand_total(final(self).player_cards()) <= 21 ==> hit == Ok::<
                Option<Outcome>,
                GameError,
            >(None) && final(self).spec_phase() == Phase::PlayerTurn,
    {
        let ghost deck0 = self.deck@;
        let ghost held = self.player@;
        match self.player.hit(&mut self.deck) {
            Err(e) => Err(e),
            Ok(()) => {
                proof {
                    assert(self.player@ =~= held.push(self.player@.last()));
                    lemma_player_draws(deck0, held, self.dealer@, self.player@.last(), self.deck@);
                    lemma_table_totals(self.deck@, self.player@, self.dealer@);
                }
                let score = self.player.score();
                if score > LIMIT {
                    self.phase = Phase::Settled;
                    Ok(Some(Outcome::Bust))
                } else {
                    Ok(None)
                }
            },
        }
    }

    /// The player stands: it is the dealer's turn.
    pub fn stand(&mut self)
        requires
            old(self).spec_phase() == Phase::PlayerTurn,
        ensures
            final(self).spec_phase() == Phase::DealerTurn,
            final(self).deck_cards() == old(self).deck_cards(),
            final(self).player_cards() == old(self).player_cards(),
            final(self).dealer_cards() == old(self).dealer_cards(),
    {
        self.phase = Phase::DealerTurn;
    }

    /// The dealer draws while the dealer's total is below 17, and the
    /// round is then settled for the player and is over. Where the deck
    /// runs out before the dealer has 17, `EmptyDeck` comes back and it
    /// stays the dealer's turn; that cannot happen while deck and hand
    /// together hold enough cards to reach 17 with every card counted 1.
    pub fn dealer_turn(&mut self) -> (end: Result<Outcome, GameError>)
        requires
            old(self).wf(),
            old(self).spec_phase() == Phase::DealerTurn,
        ensures
            final(self).wf(),
            final(self).player_cards() == old(self).player_cards(),
            dealer_played(
                old(self).deck_cards(),
                old(self).dealer_cards(),
                final(self).deck_cards(),
                final(self).dealer_cards(),
            ),
            end is Ok ==> hand_total(final(self).dealer_cards()) >= 17 && end->Ok_0 == settled(
                hand_total(final(self).player_cards()),
                hand_total(final(self).dealer_cards()),
            ) && final(self).spec_phase() == Phase::Settled,
            end is Err ==> end->Err_0 == GameError::EmptyDeck && final(self).deck_cards().len()
                == 0 && hand_total(final(self).dealer_cards()) < 17 && final(self).spec_phase()
                == Phase::DealerTurn,
            old(self).deck_cards().len() + low_total(old(self).dealer_cards()) >= 17 ==> end
                is Ok,
    {
        let ghost deck0 = self.deck@;
        let ghost d0 = self.dealer@;
        proof {
            assert(d0.take(d0.len() as int) =~= d0);
            assert(d0.skip(d0.len() as int) =~= Seq::<Card>::empty());
            lemma_table_totals(self.deck@, self.player@, self.dealer@);
        }
        loop
            invariant
                self.wf(),
                self.phase == Phase::DealerTurn,
                self.player@ == old(self).player@,
                deck0 == old(self).deck@,
                d0 == old(self).dealer@,
                dealer_played(deck0, d0, self.deck@, self.dealer@),
                self.deck@.len() + low_total(self.dealer@) >= deck0.len() + low_total(d0),
            decreases self.deck@.len(),
        {
            proof {
                lemma_table_totals(self.deck@, self.player@, self.dealer@);
            }
            if self.dealer.score() >= DEALER_STANDS {
                self.phase = Phase::Settled;
                return Ok(self.player.stand(&mut self.dealer));
            }
            let ghost deck1 = self.deck@;
            let ghost d1 = self.dealer@;
            match self.dealer.hit(&mut self.deck) {
                Err(e) => {
                    return Err(e);
                },
                Ok(()) => {
                    proof {
                        let d2 = self.dealer@;
                        let card = d2.last();
                        assert(d2 =~= d1.push(card));
                        lemma_dealer_draws(deck1, self.player@, d1, card, self.deck@);
                        lemma_low_total_grows(d1, card);
                        lemma_draw_run_push(
                            deck0,
                            d1.skip(d0.len() as int),
                            deck1,
                            card,
                            self.deck@,
                        );
                        assert(d1.skip(d0.len() as int).push(card) =~= d2.skip(d0.len() as int));
                        assert(d2.take(d0.len() as int) =~= d1.take(d0.len() as int));
                        assert(d2.take(d1.len() as int) =~= d1);
                        assert forall|k: int| d0.len() <= k < d2.len() implies hand_total(
                            #[trigger] d2.take(k),
                        ) < 17 by {
                            if k < d1.len() {
                                assert(d2.take(k) =~= d1.take(k));
                            }
                        }
                    }
                },
            }
        }
    }
}

} // verus!
