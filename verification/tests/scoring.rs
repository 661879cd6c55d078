use blackjack::card::Card;
use blackjack::card::Suit;
use blackjack::score::CardCollection;

fn hand(ranks: &[u32]) -> Vec<Card> {
    ranks.iter().map(|&rank| Card::new(Suit::Spade, rank)).collect()
}

fn total(ranks: &[u32]) -> u32 {
    hand(ranks).calc()
}

#[test]
fn empty_hand_scores_zero() {
    assert_eq!(total(&[]), 0);
}

#[test]
fn single_ace_counts_eleven() {
    assert_eq!(total(&[1]), 11);
}

#[test]
fn second_ace_counts_one() {
    assert_eq!(total(&[1, 1]), 12);
}

#[test]
fn ten_and_nine_score_nineteen() {
    assert_eq!(total(&[10, 9]), 19);
}

#[test]
fn ace_after_twenty_counts_one() {
    assert_eq!(total(&[10, 10, 1]), 21);
}

#[test]
fn ace_and_ten_score_twenty_one() {
    assert_eq!(total(&[1, 10]), 21);
    assert_eq!(total(&[10, 1]), 21);
}

#[test]
fn ace_counts_eleven_up_to_a_sum_of_ten() {
    assert_eq!(total(&[10, 1]), 21);
    assert_eq!(total(&[5, 5, 1]), 21);
    assert_eq!(total(&[5, 6, 1]), 12);
}

#[test]
fn aces_are_taken_after_all_other_cards() {
    assert_eq!(total(&[1, 5, 6]), 12);
    assert_eq!(total(&[1, 9]), 20);
    assert_eq!(total(&[9, 1, 1]), 21);
    assert_eq!(total(&[1, 9, 1]), 21);
    assert_eq!(total(&[1, 1, 1, 1]), 14);
}

#[test]
fn total_may_pass_twenty_one() {
    assert_eq!(total(&[10, 10, 2]), 22);
    assert_eq!(total(&[10, 9, 8, 1]), 28);
}

#[test]
fn order_of_the_cards_does_not_matter() {
    assert_eq!(total(&[1, 3, 10, 1]), total(&[10, 1, 1, 3]));
    assert_eq!(total(&[2, 1, 4]), total(&[4, 2, 1]));
    assert_eq!(total(&[2, 1, 4]), 17);
}

#[test]
fn suits_do_not_matter() {
    let mut mixed = vec![
        Card::new(Suit::Heart, 1),
        Card::new(Suit::Club, 7),
        Card::new(Suit::Diamond, 2),
    ];
    assert_eq!(mixed.calc(), total(&[1, 7, 2]));
    assert_eq!(mixed.calc(), 20);
}

#[test]
fn scoring_twice_gives_the_same_total_and_keeps_the_hand() {
    let mut cards = hand(&[1, 6, 1, 10]);
    let first = cards.calc();
    let second = cards.calc();
    assert_eq!(first, 18);
    assert_eq!(second, first);
    assert_eq!(cards.len(), 4);
    let ranks: Vec<u32> = cards.iter().map(|card| card.rank).collect();
    assert_eq!(ranks, vec![1, 6, 1, 10]);
}
