use blackjack::card::Card;
use blackjack::deck::Deck;
use blackjack::error::GameError;
use blackjack::round::Phase;
use blackjack::round::Round;
use blackjack::round::DEALER_STANDS;
use blackjack::score::CardCollection;
use blackjack::settle::settle;
use blackjack::settle::Outcome;

fn keys(cards: &[Card]) -> Vec<(String, u32)> {
    cards.iter().map(|card| (format!("{:?}", card.suit), card.rank)).collect()
}

fn total(cards: &[Card]) -> u32 {
    let mut copy: Vec<Card> = cards.to_vec();
    copy.calc()
}

#[test]
fn new_round_deals_two_cards_each_and_awaits_the_wager() {
    let round = Round::new();
    assert_eq!(round.phase(), Phase::Betting);
    assert_eq!(round.player_hand().len(), 2);
    assert_eq!(round.dealer_hand().len(), 2);
    assert_eq!(round.cards_left(), 48);
}

#[test]
fn wager_over_the_balance_is_refused_and_the_hands_stay() {
    let mut round = Round::new();
    let player = keys(round.player_hand());
    let dealer = keys(round.dealer_hand());
    assert_eq!(round.bet(false, true), Err(GameError::InsufficientBalance));
    assert_eq!(round.phase(), Phase::Betting);
    assert_eq!(keys(round.player_hand()), player);
    assert_eq!(keys(round.dealer_hand()), dealer);
    assert_eq!(round.cards_left(), 48);
}

#[test]
fn wager_over_the_balance_is_told_before_one_below_the_minimum() {
    let mut round = Round::new();
    assert_eq!(round.bet(false, false), Err(GameError::InsufficientBalance));
    assert_eq!(round.phase(), Phase::Betting);
}

#[test]
fn wager_below_the_minimum_is_refused_and_the_hands_stay() {
    let mut round = Round::new();
    let player = keys(round.player_hand());
    let dealer = keys(round.dealer_hand());
    assert_eq!(round.bet(true, false), Err(GameError::InvalidWager));
    assert_eq!(round.phase(), Phase::Betting);
    assert_eq!(keys(round.player_hand()), player);
    assert_eq!(keys(round.dealer_hand()), dealer);
}

#[test]
fn accepted_wager_begins_the_players_turn() {
    let mut round = Round::new();
    let player = keys(round.player_hand());
    assert_eq!(round.bet(true, true), Ok(()));
    assert_eq!(round.phase(), Phase::PlayerTurn);
    assert_eq!(keys(round.player_hand()), player);
    assert_eq!(round.cards_left(), 48);
}

#[test]
fn totals_are_those_of_the_hands() {
    let mut round = Round::new();
    let player = total(round.player_hand());
    let dealer = total(round.dealer_hand());
    assert_eq!(round.player_total(), player);
    assert_eq!(round.dealer_total(), dealer);
    assert_eq!(round.player_hand().len(), 2);
    assert_eq!(round.phase(), Phase::Betting);
}

#[test]
fn hit_adds_a_card_and_ends_the_round_over_twenty_one() {
    for _ in 0..200 {
        let mut round = Round::new();
        round.bet(true, true).unwrap();
        let mut cards = 2;
        loop {
            let before = keys(round.player_hand());
            let dealer = keys(round.dealer_hand());
            let hit = round.hit().unwrap();
            cards += 1;
            assert_eq!(round.player_hand().len(), cards);
            assert_eq!(round.cards_left(), 50 - cards);
            assert_eq!(keys(&round.player_hand()[..cards - 1]), before);
            assert_eq!(keys(round.dealer_hand()), dealer);
            if total(round.player_hand()) > 21 {
                assert_eq!(hit, Some(Outcome::Bust));
                assert_eq!(round.phase(), Phase::Settled);
                break;
            }
            assert_eq!(hit, None);
            assert_eq!(round.phase(), Phase::PlayerTurn);
        }
    }
}

#[test]
fn stand_hands_over_to_the_dealer() {
    let mut round = Round::new();
    round.bet(true, true).unwrap();
    let player = keys(round.player_hand());
    let dealer = keys(round.dealer_hand());
    round.stand();
    assert_eq!(round.phase(), Phase::DealerTurn);
    assert_eq!(keys(round.player_hand()), player);
    assert_eq!(keys(round.dealer_hand()), dealer);
    assert_eq!(round.cards_left(), 48);
}

#[test]
fn dealer_draws_to_seventeen_and_the_round_is_settled() {
    for _ in 0..200 {
        let mut round = Round::new();
        round.bet(true, true).unwrap();
        round.stand();
        let player = keys(round.player_hand());
        let dealer = keys(round.dealer_hand());
        let outcome = round.dealer_turn().unwrap();
        assert_eq!(round.phase(), Phase::Settled);
        assert_eq!(keys(round.player_hand()), player);
        let hand = round.dealer_hand().clone();
        assert_eq!(keys(&hand[..2]), dealer);
        assert!(total(&hand) >= 17);
        for k in 2..hand.len() {
            assert!(total(&hand[..k]) < 17);
        }
        assert_eq!(round.cards_left(), 50 - hand.len());
        assert_eq!(outcome, settle(total(round.player_hand()), total(&hand)));
        assert_ne!(outcome, Outcome::Bust);
    }
}

#[test]
fn dealer_stands_at_seventeen() {
    assert_eq!(DEALER_STANDS, 17);
}

#[test]
fn next_round_is_dealt_from_what_is_left() {
    let mut round = Round::new();
    round.bet(true, true).unwrap();
    round.stand();
    round.dealer_turn().unwrap();
    let left = round.cards_left();
    assert_eq!(round.deal(), Ok(()));
    assert_eq!(round.phase(), Phase::Betting);
    assert_eq!(round.player_hand().len(), 2);
    assert_eq!(round.dealer_hand().len(), 2);
    assert_eq!(round.cards_left(), left - 4);
}

#[test]
fn cards_at_the_table_are_never_more_than_the_deck_had() {
    let mut full: Vec<(String, u32)> = keys(Deck::new().cards());
    full.sort();
    let mut round = Round::new();
    loop {
        let mut seen = keys(round.player_hand());
        seen.extend(keys(round.dealer_hand()));
        assert!(seen.len() + round.cards_left() <= 52);
        let mut rest = full.clone();
        for card in seen {
            let at = rest.iter().position(|other| *other == card).unwrap();
            rest.remove(at);
        }
        round.bet(true, true).unwrap();
        round.stand();
        if round.dealer_turn().is_err() {
            break;
        }
        if round.deal().is_err() {
            break;
        }
    }
}

#[test]
fn deck_runs_out_after_some_rounds() {
    let mut round = Round::new();
    let mut rounds = 0;
    loop {
        rounds += 1;
        assert!(rounds <= 13);
        round.bet(true, true).unwrap();
        round.stand();
        match round.dealer_turn() {
            Ok(_) => assert_eq!(round.phase(), Phase::Settled),
            Err(error) => {
                assert_eq!(error, GameError::EmptyDeck);
                assert_eq!(round.cards_left(), 0);
                assert_eq!(round.phase(), Phase::DealerTurn);
                assert!(total(round.dealer_hand()) < 17);
                break;
            },
        }
        let left = round.cards_left();
        let player = keys(round.player_hand());
        let dealt = round.deal();
        if left < 4 {
            assert_eq!(dealt, Err(GameError::EmptyDeck));
            assert_eq!(round.cards_left(), left);
            assert_eq!(round.phase(), Phase::Settled);
            assert_eq!(keys(round.player_hand()), player);
            break;
        }
        assert_eq!(dealt, Ok(()));
    }
}

#[test]
fn hit_on_an_empty_deck_fails_and_nothing_changes() {
    for _ in 0..300 {
        let mut round = Round::new();
        loop {
            round.bet(true, true).unwrap();
            if round.cards_left() == 0 {
                let player = keys(round.player_hand());
                assert_eq!(round.hit(), Err(GameError::EmptyDeck));
                assert_eq!(round.phase(), Phase::PlayerTurn);
                assert_eq!(keys(round.player_hand()), player);
                return;
            }
            round.stand();
            if round.dealer_turn().is_err() || round.deal().is_err() {
                break;
            }
        }
    }
}
