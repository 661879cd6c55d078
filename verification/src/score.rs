//! Scoring a hand: every card but the ace counts its rank; the aces are
//! then taken one after another, each as 11 while the running total is at
//! most 10 and as 1 otherwise.

use crate::card::Card;
use vstd::prelude::*;

verus! {

/// The ranks of the cards of `hand` that are no aces, added up.
pub open spec fn non_ace_sum(hand: Seq<Card>) -> nat
    decreases hand.len(),
{
    if hand.len() == 0 {
        0
    } else if hand.last().is_ace() {
        non_ace_sum(hand.drop_last())
    } else {
        non_ace_sum(hand.drop_last()) + hand.last().rank as nat
    }
}

/// How many aces `hand` holds.
pub open spec fn ace_count(hand: Seq<Card>) -> nat
    decreases hand.len(),
{
    if hand.len() == 0 {
        0
    } else if hand.last().is_ace() {
        ace_count(hand.drop_last()) + 1
    } else {
        ace_count(hand.drop_last())
    }
}

/// What one more ace adds to a running total.
pub open spec fn ace_value(running: nat) -> nat {
    if running <= 10 {
        11
    } else {
        1
    }
}

/// The total after `aces` aces have been added, one by one, to `base`.
///
/// Only the first ace can count 11: it lifts the total over 10, so every
/// later one counts 1.
pub open spec fn with_aces(base: nat, aces: nat) -> nat {
    if aces == 0 {
        base
    } else if base <= 10 {
        base + 10 + aces
    } else {
        base + aces
    }
}

/// The score of a hand. The empty hand scores 0.
pub open spec fn hand_total(hand: Seq<Card>) -> nat {
    with_aces(non_ace_sum(hand), ace_count(hand))
}

/// What scoring a hand gives: the hand as it was, and its total.
pub open spec fn scored(before: Seq<Card>, after: Seq<Card>, total: nat) -> bool {
    after == before && total == hand_total(before)
}

/// Taking the aces one by one comes to the same: each ace adds 11 where
/// the total before it is at most 10, and 1 otherwise.
pub proof fn lemma_aces_one_by_one(base: nat, aces: nat)
    ensures
        with_aces(base, 0) == base,
        with_aces(base, aces + 1) == with_aces(base, aces) + ace_value(with_aces(base, aces)),
{
}

/// The sums over a prefix of a hand do not exceed those over the hand.
pub proof fn lemma_prefix_sums(hand: Seq<Card>, n: int)
    requires
        0 <= n <= hand.len(),
    ensures
        non_ace_sum(hand.take(n)) <= non_ace_sum(hand),
        ace_count(hand.take(n)) <= ace_count(hand),
    decreases hand.len() - n,
{
    if n < hand.len() {
        lemma_prefix_sums(hand, n + 1);
        assert(hand.take(n + 1).drop_last() == hand.take(n));
    } else {
        assert(hand.take(n) == hand);
    }
}

/// A hand of valid cards scores at most ten for each card and ten more.
pub proof fn lemma_total_bound(hand: Seq<Card>)
    requires
        forall|i: int| 0 <= i < hand.len() ==> (#[trigger] hand[i]).is_valid(),
    ensures
        hand_total(hand) <= 10 * hand.len() + 10,
        non_ace_sum(hand) + ace_count(hand) <= 10 * hand.len(),
    decreases hand.len(),
{
    if hand.len() > 0 {
        lemma_total_bound(hand.drop_last());
    }
}

/// The sums over a hand are those over the hand without one card, and
/// what that card adds.
proof fn lemma_sums_without(hand: Seq<Card>, i: int)
    requires
        0 <= i < hand.len(),
    ensures
        non_ace_sum(hand) == non_ace_sum(hand.remove(i)) + (if hand[i].is_ace() {
            0
        } else {
            hand[i].rank as nat
        }),
        ace_count(hand) == ace_count(hand.remove(i)) + (if hand[i].is_ace() {
            1nat
        } else {
            0
        }),
    decreases hand.len(),
{
    if i == hand.len() - 1 {
        assert(hand.remove(i) =~= hand.drop_last());
    } else {
        lemma_sums_without(hand.drop_last(), i);
        assert(hand.remove(i).drop_last() =~= hand.drop_last().remove(i));
        assert(hand.remove(i).last() == hand.last());
    }
}

/// The total of a hand does not depend on the order of its cards: two
/// hands of the same cards have the same total.
pub proof fn lemma_total_ignores_order(a: Seq<Card>, b: Seq<Card>)
    requires
        a.to_multiset() == b.to_multiset(),
    ensures
        non_ace_sum(a) == non_ace_sum(b),
        ace_count(a) == ace_count(b),
        hand_total(a) == hand_total(b),
    decreases a.len(),
{
    vstd::seq_lib::to_multiset_len(a);
    vstd::seq_lib::to_multiset_len(b);
    if a.len() > 0 {
        let card = a.last();
        vstd::seq_lib::to_multiset_contains(a, card);
        vstd::seq_lib::to_multiset_contains(b, card);
        assert(a[a.len() - 1] == card);
        assert(a.contains(card));
        let j = choose|j: int| 0 <= j < b.len() && b[j] == card;
        vstd::seq_lib::to_multiset_remove(a, a.len() - 1);
        vstd::seq_lib::to_multiset_remove(b, j);
        assert(a.remove(a.len() - 1) =~= a.drop_last());
        lemma_total_ignores_order(a.drop_last(), b.remove(j));
        lemma_sums_without(b, j);
    }
}

/// Something that holds cards and can be scored.
pub trait CardCollection {
    /// The cards held, in the order in which they came.
    spec fn cards(&self) -> Seq<Card>;

    /// The score of the cards held, which stay as they are.
    fn calc(&mut self) -> (total: u32)
        requires
            hand_total(old(self).cards()) <= u32::MAX,
        ensures
            scored(old(self).cards(), final(self).cards(), total as nat),
    ;
}

impl CardCollection for Vec<Card> {
    open spec fn cards(&self) -> Seq<Card> {
        self@
    }

    fn calc(&mut self) -> (total: u32) {
        let ghost hand = self@;
        let mut n: u32 = 0;
        let mut i: usize = 0;
        while i < self.len()
            invariant
                self@ == hand,
                i <= hand.len(),
                n == non_ace_sum(hand.take(i as int)),
                hand_total(hand) <= u32::MAX,
            decreases hand.len() - i,
        {
            proof {
                lemma_prefix_sums(hand, i + 1);
                assert(hand.take(i + 1).drop_last() == hand.take(i as int));
            }
            if self[i].rank != 1 {
                n = n + self[i].rank;
            }
            i = i + 1;
        }
        assert(hand.take(i as int) == hand);
        let ghost base = non_ace_sum(hand);
        let mut j: usize = 0;
        while j < self.len()
            invariant
                self@ == hand,
                j <= hand.len(),
                base == non_ace_sum(hand),
                n == with_aces(base, ace_count(hand.take(j as int))),
                hand_total(hand) <= u32::MAX,
            decreases hand.len() - j,
        {
            proof {
                lemma_prefix_sums(hand, j + 1);
                assert(hand.take(j + 1).drop_last() == hand.take(j as int));
            }
            if self[j].rank == 1 {
                if n > 10 {
                    n = n + 1;
                } else {
                    n = n + 11;
                }
            }
            j = j + 1;
        }
        assert(hand.take(j as int) == hand);
        n
    }
}

/// Scoring is repeatable: a second scoring of the hand that a first one
/// left gives the same total and leaves the same hand.
pub proof fn lemma_scoring_repeatable(
    hand: Seq<Card>,
    after_first: Seq<Card>,
    first: nat,
    after_second: Seq<Card>,
    second: nat,
)
    requires
        scored(hand, after_first, first),
        scored(after_first, after_second, second),
    ensures
        second == first,
        after_second == hand,
{
}

} // verus!
