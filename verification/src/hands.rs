//! Recognising the best poker hand among the played cards.

use vstd::prelude::*;

use crate::cards::{Card, Joker, JokerCard, PokerHand};
use crate::patterns::{
    candidates, combos, find_pattern, flush_candidate, flush_spec, indices_in, is_flush, is_straight,
    lemma_combos_in_range, nested, straight_candidate, straight_spec, combinations,
};
use crate::ranks::{
    count_of, count_ranks, count_table, count_view, is_four_of_a_kind, is_pair, is_three_of_a_kind, is_two_pair,
    some_rank_at_least, some_rank_exactly, two_ranks_paired,
};

verus! {

/// Some joker card in `jokers` has the ability `joker`.
pub open spec fn has_joker(jokers: Seq<JokerCard>, joker: Joker) -> bool {
    exists|i: int| 0 <= i < jokers.len() && #[trigger] jokers[i].joker == joker
}

/// The indices of all five cards of a five-card hand.
pub open spec fn all_five() -> Seq<usize> {
    seq![0usize, 1, 2, 3, 4]
}

/// Five cards of one rank and one suit.
pub open spec fn flush_five_spec(cards: Seq<Card>, smeared: bool) -> bool {
    cards.len() == 5 && flush_spec(cards, all_five(), smeared) && some_rank_exactly(cards, 5)
}

/// Five cards of one suit, three of one rank and two of another.
pub open spec fn flush_house_spec(cards: Seq<Card>, smeared: bool) -> bool {
    cards.len() == 5 && flush_spec(cards, all_five(), smeared) && some_rank_exactly(cards, 3)
        && some_rank_exactly(cards, 2)
}

/// Five cards of one rank.
pub open spec fn five_of_a_kind_spec(cards: Seq<Card>) -> bool {
    cards.len() == 5 && some_rank_exactly(cards, 5)
}

/// Three of one rank and two of another.
pub open spec fn full_house_spec(cards: Seq<Card>) -> bool {
    some_rank_exactly(cards, 3) && some_rank_exactly(cards, 2)
}

/// With Four Fingers: a straight and a flush, possibly of different cards;
/// without: five non-stone cards that are both.
pub open spec fn straight_flush_spec(cards: Seq<Card>, four_fingers: bool, shortcut: bool, smeared: bool) -> bool {
    if four_fingers {
        find_pattern(cards, true, true, shortcut) is Some && find_pattern(cards, true, false, smeared) is Some
    } else {
        exists|k: int|
            0 <= k < combos(candidates(cards), 5).len() && straight_spec(
                cards,
                #[trigger] combos(candidates(cards), 5)[k],
                shortcut,
            ) && flush_spec(cards, combos(candidates(cards), 5)[k], smeared)
    }
}

/// The best poker hand of the played cards under the jokers in play, tried
/// from the highest hand down.
pub open spec fn hand_of(cards: Seq<Card>, jokers: Seq<JokerCard>) -> PokerHand {
    let four_fingers = has_joker(jokers, Joker::FourFingers);
    let shortcut = has_joker(jokers, Joker::Shortcut);
    let smeared = has_joker(jokers, Joker::SmearedJoker);
    if flush_five_spec(cards, smeared) {
        PokerHand::FlushFive
    } else if flush_house_spec(cards, smeared) {
        PokerHand::FlushHouse
    } else if five_of_a_kind_spec(cards) {
        PokerHand::FiveOfAKind
    } else if straight_flush_spec(cards, four_fingers, shortcut, smeared) {
        PokerHand::StraightFlush
    } else if some_rank_at_least(cards, 4) {
        PokerHand::FourOfAKind
    } else if full_house_spec(cards) {
        PokerHand::FullHouse
    } else if find_pattern(cards, four_fingers, false, smeared) is Some {
        PokerHand::Flush
    } else if find_pattern(cards, four_fingers, true, shortcut) is Some {
        PokerHand::Straight
    } else if some_rank_at_least(cards, 3) {
        PokerHand::ThreeOfAKind
    } else if two_ranks_paired(cards) {
        PokerHand::TwoPair
    } else if some_rank_at_least(cards, 2) {
        PokerHand::Pair
    } else {
        PokerHand::HighCard
    }
}

/// Whether some joker card in `jokers` has the ability `joker`.
pub fn joker_in_play(jokers: &[JokerCard], joker: Joker) -> (found: bool)
    ensures
        found == has_joker(jokers@, joker),
{
    let mut i: usize = 0;
    while i < jokers.len()
        invariant
            i <= jokers@.len(),
            forall|k: int| 0 <= k < i ==> #[trigger] jokers@[k].joker != joker,
        decreases jokers@.len() - i,
    {
        if jokers[i].joker == joker {
            assert(jokers@[i as int].joker == joker);
            return true;
        }
        i = i + 1;
    }
    false
}

fn five_indices() -> (all: Vec<usize>)
    ensures
        all@ == all_five(),
{
    let mut all: Vec<usize> = Vec::new();
    all.push(0);
    all.push(1);
    all.push(2);
    all.push(3);
    all.push(4);
    assert(all@ =~= all_five());
    all
}

/// Five cards of one rank and one suit.
pub fn is_flush_five(cards: &[Card], smeared: bool) -> (found: bool)
    ensures
        found == flush_five_spec(cards@, smeared),
{
    if cards.len() != 5 {
        return false;
    }
    let all = five_indices();
    if !flush_candidate(cards, all.as_slice(), smeared) {
        return false;
    }
    let counts = count_ranks(cards);
    let mut r: usize = 2;
    while r < 15
        invariant
            2 <= r <= 15,
            cards@.len() == 5,
            flush_spec(cards@, all_five(), smeared),
            count_view(counts@) == count_table(cards@),
            forall|k: int| 2 <= k < r ==> #[trigger] count_table(cards@)[k] != 5,
        decreases 15 - r,
    {
        if count_of(&counts, r) == 5 {
            assert(count_table(cards@)[r as int] == 5);
            assert(some_rank_exactly(cards@, 5));
            return true;
        }
        r = r + 1;
    }
    false
}

/// Five cards of one suit, three of one rank and two of another.
pub fn is_flush_house(cards: &[Card], smeared: bool) -> (found: bool)
    ensures
        found == flush_house_spec(cards@, smeared),
{
    if cards.len() != 5 {
        return false;
    }
    let all = five_indices();
    if !flush_candidate(cards, all.as_slice(), smeared) {
        return false;
    }
    crate::ranks::is_full_house(cards)
}

/// Five cards of one rank.
pub fn is_five_of_a_kind(cards: &[Card]) -> (found: bool)
    ensures
        found == five_of_a_kind_spec(cards@),
{
    crate::ranks::is_five_of_a_kind(cards)
}

/// Whether the played cards make a straight flush.
pub fn is_straight_flush(cards: &[Card], four_fingers: bool, shortcut: bool, smeared: bool) -> (found: bool)
    ensures
        found == straight_flush_spec(cards@, four_fingers, shortcut, smeared),
{
    if four_fingers {
        is_straight(cards, true, shortcut) && is_flush(cards, true, smeared)
    } else {
        let n = cards.len();
        proof {
            lemma_combos_in_range(cards@, 5);
        }
        let fives = combinations(cards, 5);
        let ghost all = nested(fives@);
        let mut k: usize = 0;
        while k < fives.len()
            invariant
                k <= fives@.len(),
                !four_fingers,
                all == nested(fives@),
                all == combos(candidates(cards@), 5),
                forall|i: int| 0 <= i < all.len() ==> #[trigger] indices_in(cards@, all[i]),
                forall|i: int|
                    0 <= i < k ==> !(straight_spec(cards@, #[trigger] all[i], shortcut) && flush_spec(
                        cards@,
                        all[i],
                        smeared,
                    )),
            decreases fives@.len() - k,
        {
            assert(all[k as int] == fives@[k as int]@);
            assert(indices_in(cards@, all[k as int]));
            let choice = fives[k].as_slice();
            if straight_candidate(cards, choice, shortcut) && flush_candidate(cards, choice, smeared) {
                assert(straight_spec(cards@, combos(candidates(cards@), 5)[k as int], shortcut)
                    && flush_spec(cards@, combos(candidates(cards@), 5)[k as int], smeared));
                assert(k < combos(candidates(cards@), 5).len());
                return true;
            }
            k = k + 1;
        }
        false
    }
}

/// The best poker hand that the played cards make under the jokers in play.
pub fn determine_poker_hand(cards: &[Card], jokers: &[JokerCard]) -> (hand: PokerHand)
    ensures
        hand == hand_of(cards@, jokers@),
{
    let four_fingers = joker_in_play(jokers, Joker::FourFingers);
    let shortcut = joker_in_play(jokers, Joker::Shortcut);
    let smeared = joker_in_play(jokers, Joker::SmearedJoker);
    if is_flush_five(cards, smeared) {
        return PokerHand::FlushFive;
    }
    if is_flush_house(cards, smeared) {
        return PokerHand::FlushHouse;
    }
    if is_five_of_a_kind(cards) {
        return PokerHand::FiveOfAKind;
    }
    if is_straight_flush(cards, four_fingers, shortcut, smeared) {
        return PokerHand::StraightFlush;
    }
    if is_four_of_a_kind(cards) {
        return PokerHand::FourOfAKind;
    }
    if crate::ranks::is_full_house(cards) {
        return PokerHand::FullHouse;
    }
    if is_flush(cards, four_fingers, smeared) {
        return PokerHand::Flush;
    }
    if is_straight(cards, four_fingers, shortcut) {
        return PokerHand::Straight;
    }
    if is_three_of_a_kind(cards) {
        return PokerHand::ThreeOfAKind;
    }
    if is_two_pair(cards) {
        return PokerHand::TwoPair;
    }
    if is_pair(cards) {
        return PokerHand::Pair;
    }
    PokerHand::HighCard
}

} // verus!
