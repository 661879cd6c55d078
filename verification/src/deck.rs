//! The deck: 52 cards, thirteen of each suit, the ten and the three face
//! cards all of rank 10. Cards leave it one at a time, at random, and never
//! come back.

use crate::card::Card;
use crate::card::Suit;
use crate::error::GameError;
use vstd::prelude::*;

verus! {

/// The suits in the order in which a new deck holds them.
pub open spec fn suit_at(k: int) -> Suit {
    if k == 0 {
        Suit::Spade
    } else if k == 1 {
        Suit::Heart
    } else if k == 2 {
        Suit::Diamond
    } else {
        Suit::Club
    }
}

/// The card at place `i` of a new deck: the suits follow one another, and
/// within a suit the ranks rise from 1 to 10, with 10 four times.
pub open spec fn fresh_card(i: int) -> Card {
    Card { suit: suit_at(i / 13), rank: if i % 13 < 9 { (i % 13 + 1) as u32 } else { 10 } }
}

/// The 52 cards of a new deck, in order.
pub open spec fn fresh_deck() -> Seq<Card> {
    Seq::new(52, |i: int| fresh_card(i))
}

/// `card` is one of the cards of `before`, and `after` is `before` without
/// it, the others in their order.
pub open spec fn drawn_from(before: Seq<Card>, card: Card, after: Seq<Card>) -> bool {
    exists|i: int| 0 <= i < before.len() && card == before[i] && after == before.remove(i)
}

/// `drawn` can be drawn from `start`, card by card and in that order, and
/// `rest` is what is then left of `start`.
pub open spec fn draw_run(start: Seq<Card>, drawn: Seq<Card>, rest: Seq<Card>) -> bool
    decreases drawn.len(),
{
    if drawn.len() == 0 {
        rest == start
    } else {
        exists|i: int|
            0 <= i < start.len() && start[i] == drawn.first() && draw_run(
                #[trigger] start.remove(i),
                drawn.drop_first(),
                rest,
            )
    }
}

/// How often a new deck holds `card`: each rank from 1 to 9 once in each
/// suit, rank 10 four times in each suit, and nothing else.
pub open spec fn fresh_count(card: Card) -> nat {
    if !card.is_valid() {
        0
    } else if card.rank == 10 {
        4
    } else {
        1
    }
}

/// A sequence that holds `card` at the places from `from` up to `to`, and
/// nowhere else, holds it `to - from` times.
proof fn lemma_count_in_range(cards: Seq<Card>, card: Card, from: int, to: int)
    requires
        0 <= from <= to <= cards.len(),
        forall|i: int| 0 <= i < cards.len() ==> (cards[i] == card <==> from <= i < to),
    ensures
        cards.to_multiset().count(card) == to - from,
    decreases cards.len(),
{
    broadcast use vstd::multiset::group_multiset_axioms;

    if cards.len() == 0 {
        cards.to_multiset_ensures();
    } else {
        let front = cards.drop_last();
        let n = front.len() as int;
        assert(cards == front.push(cards.last()));
        vstd::seq_lib::to_multiset_build(front, cards.last());
        assert forall|i: int| 0 <= i < front.len() implies (front[i] == card <==> (if from < n {
            from
        } else {
            n
        }) <= i < (if to < n {
            to
        } else {
            n
        })) by {
            assert(front[i] == cards[i]);
        }
        lemma_count_in_range(
            front,
            card,
            if from < n {
                from
            } else {
                n
            },
            if to < n {
                to
            } else {
                n
            },
        );
    }
}

/// A new deck holds 52 cards: in each of the four suits one card of each
/// rank from 1 to 9 and four of rank 10.
pub proof fn lemma_fresh_deck_census(card: Card)
    ensures
        fresh_deck().len() == 52,
        fresh_deck().to_multiset().len() == 52,
        fresh_deck().to_multiset().count(card) == fresh_count(card),
{
    let deck = fresh_deck();
    vstd::seq_lib::to_multiset_len(deck);
    let k: int = match card.suit {
        Suit::Spade => 0,
        Suit::Heart => 1,
        Suit::Diamond => 2,
        Suit::Club => 3,
    };
    assert(card.suit == suit_at(k));
    if !card.is_valid() {
        lemma_count_in_range(deck, card, 0, 0);
    } else if card.rank == 10 {
        lemma_count_in_range(deck, card, 13 * k + 9, 13 * k + 13);
    } else {
        lemma_count_in_range(deck, card, 13 * k + card.rank - 1, 13 * k + card.rank);
    }
}

/// Drawing loses no card and makes none: the cards drawn and the cards
/// left are together the cards there were.
pub proof fn lemma_draw_run_keeps_cards(start: Seq<Card>, drawn: Seq<Card>, rest: Seq<Card>)
    requires
        draw_run(start, drawn, rest),
    ensures
        start.to_multiset() == drawn.to_multiset().add(rest.to_multiset()),
        start.len() == drawn.len() + rest.len(),
    decreases drawn.len(),
{
    broadcast use vstd::multiset::group_multiset_axioms;

    if drawn.len() == 0 {
        drawn.to_multiset_ensures();
        assert(start.to_multiset() =~= drawn.to_multiset().add(rest.to_multiset()));
    } else {
        let i = choose|i: int|
            0 <= i < start.len() && start[i] == drawn.first() && draw_run(
                #[trigger] start.remove(i),
                drawn.drop_first(),
                rest,
            );
        lemma_draw_run_keeps_cards(start.remove(i), drawn.drop_first(), rest);
        let card = drawn.first();
        vstd::seq_lib::to_multiset_remove(start, i);
        vstd::seq_lib::to_multiset_contains(start, card);
        assert(start.contains(card));
        assert(start.to_multiset() =~= start.remove(i).to_multiset().insert(card));
        vstd::seq_lib::to_multiset_insert(drawn.drop_first(), 0, card);
        assert(drawn.drop_first().insert(0, card) =~= drawn);
        assert(start.to_multiset() =~= drawn.to_multiset().add(rest.to_multiset()));
    }
}

/// One more card drawn after a run of draws makes a run of draws.
pub proof fn lemma_draw_run_push(
    start: Seq<Card>,
    drawn: Seq<Card>,
    mid: Seq<Card>,
    card: Card,
    rest: Seq<Card>,
)
    requires
        draw_run(start, drawn, mid),
        drawn_from(mid, card, rest),
    ensures
        draw_run(start, drawn.push(card), rest),
    decreases drawn.len(),
{
    let more = drawn.push(card);
    if drawn.len() == 0 {
        let i = choose|i: int| 0 <= i < mid.len() && card == mid[i] && rest == mid.remove(i);
        assert(more.drop_first() =~= Seq::<Card>::empty());
        assert(draw_run(start.remove(i), more.drop_first(), rest));
    } else {
        let i = choose|i: int|
            0 <= i < start.len() && start[i] == drawn.first() && draw_run(
                #[trigger] start.remove(i),
                drawn.drop_first(),
                mid,
            );
        lemma_draw_run_push(start.remove(i), drawn.drop_first(), mid, card, rest);
        assert(more.drop_first() =~= drawn.drop_first().push(card));
        assert(draw_run(start.remove(i), more.drop_first(), rest));
    }
}

/// A new deck drawn until nothing is left gives 52 cards, each card as
/// often as the deck held it: none twice over, none left out.
pub proof fn lemma_drawing_out_a_fresh_deck(drawn: Seq<Card>, card: Card)
    requires
        draw_run(fresh_deck(), drawn, Seq::empty()),
    ensures
        drawn.len() == 52,
        drawn.to_multiset() == fresh_deck().to_multiset(),
        drawn.to_multiset().count(card) == fresh_count(card),
{
    broadcast use vstd::multiset::group_multiset_axioms;

    lemma_draw_run_keeps_cards(fresh_deck(), drawn, Seq::empty());
    lemma_fresh_deck_census(card);
    Seq::<Card>::empty().to_multiset_ensures();
    assert(drawn.to_multiset() =~= fresh_deck().to_multiset());
}

/// A place among `len` cards, picked by `rand::Rng::gen_range(0, len)` on
/// the generator that `rand::thread_rng()` hands out. Nothing of this is
/// proved. All that is claimed is that the place is below `len`, as
/// `gen_range` gives a number from its lower bound up to, and without, its
/// upper bound; which place it is differs from call to call, and that each
/// has the same chance is not stated. `gen_range` panics where its bounds
/// leave no number between them, so `len` must not be 0. `thread_rng`
/// panics where the system gives it no seed.
#[verifier::external_body]
fn random_index(len: usize) -> (index: usize)
    requires
        len > 0,
    ensures
        index < len,
{
    rand::Rng::gen_range(&mut rand::thread_rng(), 0, len)
}

/// A deck. What it holds is at all times among the cards of a new deck.
pub struct Deck {
    cards: Vec<Card>,
}

impl View for Deck {
    type V = Seq<Card>;

    /// The cards left, in order.
    closed spec fn view(&self) -> Seq<Card> {
        self.cards@
    }
}

/// Every card of `part` is a card of `whole`, and no card is in `part`
/// more often than in `whole`.
pub open spec fn within(part: Seq<Card>, whole: Seq<Card>) -> bool {
    part.to_multiset().subset_of(whole.to_multiset())
}

/// Cards taken from among those of a new deck are at most 52, and each has
/// a rank from 1 to 10.
pub proof fn lemma_within_fresh_deck(part: Seq<Card>)
    requires
        within(part, fresh_deck()),
    ensures
        part.len() <= 52,
        forall|i: int| 0 <= i < part.len() ==> (#[trigger] part[i]).is_valid(),
{
    broadcast use vstd::multiset::group_multiset_axioms;

    let whole = fresh_deck().to_multiset();
    vstd::seq_lib::to_multiset_len(part);
    vstd::seq_lib::to_multiset_len(fresh_deck());
    assert(whole =~= part.to_multiset().add(whole.sub(part.to_multiset())));
    assert forall|i: int| 0 <= i < part.len() implies (#[trigger] part[i]).is_valid() by {
        vstd::seq_lib::to_multiset_contains(part, part[i]);
        assert(part.contains(part[i]));
        lemma_fresh_deck_census(part[i]);
    }
}

/// What is left after a card is taken out is within what was there.
pub proof fn lemma_remove_within(cards: Seq<Card>, i: int)
    requires
        0 <= i < cards.len(),
    ensures
        within(cards.remove(i), cards),
{
    broadcast use vstd::multiset::group_multiset_axioms;

    vstd::seq_lib::to_multiset_remove(cards, i);
}

/// No cards are within any cards.
pub proof fn lemma_empty_within(whole: Seq<Card>)
    ensures
        within(Seq::empty(), whole),
{
    broadcast use vstd::multiset::group_multiset_axioms;

    Seq::<Card>::empty().to_multiset_ensures();
}

impl Deck {
    /// The cards left are among those of a new deck.
    #[verifier::type_invariant]
    spec fn from_fresh_deck(self) -> bool {
        within(self.cards@, fresh_deck())
    }

    /// A full deck, in its fixed order.
    pub fn new() -> (deck: Deck)
        ensures
            deck@ == fresh_deck(),
    {
        let suits = [Suit::Spade, Suit::Heart, Suit::Diamond, Suit::Club];
        let mut cards: Vec<Card> = Vec::new();
        let mut s: usize = 0;
        while s < 4
            invariant
                s <= 4,
                suits@ == seq![Suit::Spade, Suit::Heart, Suit::Diamond, Suit::Club],
                cards@ == fresh_deck().take(13 * s),
            decreases 4 - s,
        {
            let suit = suits[s];
            assert(suit == suit_at(s as int));
            let mut n: u32 = 1;
            while n < 11
                invariant
                    s < 4,
                    1 <= n <= 11,
                    suit == suit_at(s as int),
                    cards@ == fresh_deck().take(
                        if n <= 10 {
                            13 * s + n - 1
                        } else {
                            13 * s + 13
                        },
                    ),
                decreases 11 - n,
            {
                let ghost at = cards@.len() as int;
                cards.push(Card::new(suit, n));
                assert(cards@ == fresh_deck().take(at + 1));
                if n == 10 {
                    let mut extra: u32 = 1;
                    while extra < 4
                        invariant
                            s < 4,
                            1 <= extra <= 4,
                            suit == suit_at(s as int),
                            cards@ == fresh_deck().take(13 * s + 9 + extra),
                        decreases 4 - extra,
                    {
                        cards.push(Card::new(suit, 10));
                        assert(cards@ == fresh_deck().take(13 * s + 10 + extra));
                        extra = extra + 1;
                    }
                }
                n = n + 1;
            }
            s = s + 1;
        }
        assert(cards@ == fresh_deck());
        Deck { cards }
    }

    /// Takes out the card at place `index`, and returns it; the cards
    /// behind it move up by one place.
    pub fn draw_at(&mut self, index: usize) -> (card: Card)
        requires
            index < old(self)@.len(),
        ensures
            card == old(self)@[index as int],
            final(self)@ == old(self)@.remove(index as int),
            drawn_from(old(self)@, card, final(self)@),
            card.is_valid(),
    {
        proof {
            use_type_invariant(&*self);
            lemma_within_fresh_deck(self.cards@);
            lemma_remove_within(self.cards@, index as int);
            lemma_empty_within(fresh_deck());
        }
        let mut cards: Vec<Card> = Vec::new();
        std::mem::swap(&mut self.cards, &mut cards);
        let card = cards.remove(index);
        self.cards = cards;
        card
    }

    /// Takes out one of the cards left, picked at random, each with the
    /// same chance, and returns it. An empty deck gives `EmptyDeck` and
    /// stays empty.
    pub fn draw(&mut self) -> (drawn: Result<Card, GameError>)
        ensures
            old(self)@.len() == 0 ==> drawn == Err::<Card, GameError>(GameError::EmptyDeck)
                && final(self)@ == old(self)@,
            old(self)@.len() > 0 ==> drawn is Ok && drawn->Ok_0.is_valid() && drawn_from(
                old(self)@,
                drawn->Ok_0,
                final(self)@,
            ),
    {
        let left = self.cards.len();
        if left == 0 {
            return Err(GameError::EmptyDeck);
        }
        let index = random_index(left);
        Ok(self.draw_at(index))
    }

    /// How many cards are left.
    pub fn len(&self) -> (n: usize)
        ensures
            n == self@.len(),
            n <= 52,
    {
        proof {
            use_type_invariant(self);
            lemma_within_fresh_deck(self.cards@);
        }
        self.cards.len()
    }

    /// The cards that are left, in order.
    pub fn cards(&self) -> (cards: &Vec<Card>)
        ensures
            cards@ == self@,
            within(cards@, fresh_deck()),
    {
        proof {
            use_type_invariant(self);
        }
        &self.cards
    }
}

} // verus!
