//! The scoring that the `ortalab` command performs: the hand is judged
//! without regard to jokers, the scored cards give their chips, enhancements
//! and editions, steel cards held in hand multiply the mult, and then each
//! joker gives its independent bonus. Blueprint, retriggers, on-scored and
//! on-held jokers and joker editions take no part here.

use vstd::prelude::*;

use crate::cards::{
    card_is_stone, card_is_wild, hand_base, hand_value, is_stone, is_wild, rank_number, rank_order,
    Card, Enhancement, Joker, JokerCard, PokerHand, Round, Suit,
};
use crate::hands::{five_of_a_kind_spec, full_house_spec};
use crate::patterns::{candidates, ints, non_stone_indices};
use crate::ranks::{
    contains_pair, count_of, contains_three_of_a_kind, contains_two_pair, count_ranks, count_table, count_view,
    is_four_of_a_kind, is_full_house, is_pair, is_three_of_a_kind, is_two_pair, some_rank_at_least,
    some_rank_exactly, table_at_least, table_exactly, two_ranks_paired,
};
use crate::score::{add_card_own_steps, cards_at, card_own_steps, step_if, MultFactor, ScoreStep, ScoreTrace};
use crate::selection::{high_card_index, rank_group_indices, rank_group_spec, ranked_indices, two_pair_spec};
use vstd::relations::sorted_by;
use std::collections::HashMap;

verus! {

broadcast use vstd::seq_lib::group_to_multiset_ensures;

/// At least five cards, no stone card among them, and all that are not
/// wild share one suit.
pub open spec fn same_suit_spec(cards: Seq<Card>) -> bool {
    &&& cards.len() >= 5
    &&& forall|i: int| 0 <= i < cards.len() ==> !is_stone(#[trigger] cards[i])
    &&& forall|i: int, j: int|
        0 <= i < cards.len() && 0 <= j < cards.len() && !is_wild(#[trigger] cards[i]) && !is_wild(
            #[trigger] cards[j],
        ) ==> cards[i].suit == cards[j].suit
}

/// The rank numbers of all the cards, in order.
pub open spec fn all_ranks(cards: Seq<Card>) -> Seq<int> {
    Seq::new(cards.len(), |i: int| rank_number(cards[i].rank))
}

/// How many neighbours in `s` differ.
pub open spec fn changes(s: Seq<int>) -> nat
    decreases s.len(),
{
    if s.len() <= 1 {
        0
    } else {
        changes(s.drop_last()) + if s.last() != s[s.len() - 2] {
            1nat
        } else {
            0nat
        }
    }
}

/// How many distinct numbers a sorted sequence holds.
pub open spec fn distinct_count(s: Seq<int>) -> nat {
    if s.len() == 0 {
        0
    } else {
        1 + changes(s)
    }
}

/// At least five cards, no stone card among them, at least five distinct
/// ranks, and once the ranks are sorted the fifth lowest is four above the
/// lowest, or the ranks are exactly 2, 3, 4, 5 and Ace.
pub open spec fn sequential_spec(cards: Seq<Card>) -> bool {
    let s = all_ranks(cards).sort();
    &&& cards.len() >= 5
    &&& forall|i: int| 0 <= i < cards.len() ==> !is_stone(#[trigger] cards[i])
    &&& distinct_count(s) >= 5
    &&& (s[4] - s[0] == 4 || s == seq![2int, 3, 4, 5, 14])
}

/// Whether the cards are at least five, none a stone card, and those that
/// are not wild all of one suit.
pub fn is_all_same_suit(cards: &[Card]) -> (same: bool)
    ensures
        same == same_suit_spec(cards@),
{
    if cards.len() < 5 {
        return false;
    }
    let mut i: usize = 0;
    while i < cards.len()
        invariant
            i <= cards@.len(),
            forall|k: int| 0 <= k < i ==> !is_stone(#[trigger] cards@[k]),
        decreases cards@.len() - i,
    {
        if card_is_stone(&cards[i]) {
            assert(is_stone(cards@[i as int]));
            return false;
        }
        i = i + 1;
    }
    let mut first: Option<Suit> = None;
    let mut j: usize = 0;
    while j < cards.len()
        invariant
            j <= cards@.len(),
            first is None ==> forall|k: int| 0 <= k < j ==> is_wild(#[trigger] cards@[k]),
            first matches Some(f) ==> (exists|k: int| 0 <= k < j && !is_wild(#[trigger] cards@[k]) && cards@[k].suit == f)
                && forall|k: int| 0 <= k < j && !is_wild(#[trigger] cards@[k]) ==> cards@[k].suit == f,
        decreases cards@.len() - j,
    {
        let card = cards[j];
        if !card_is_wild(&card) {
            match first {
                None => {
                    first = Some(card.suit);
                    assert(!is_wild(cards@[j as int]) && cards@[j as int].suit == card.suit);
                },
                Some(f) => {
                    if card.suit != f {
                        proof {
                            let k = choose|k: int| 0 <= k < j && !is_wild(#[trigger] cards@[k]) && cards@[k].suit == f;
                            assert(!is_wild(cards@[j as int]) && !is_wild(cards@[k]));
                        }
                        return false;
                    }
                },
            }
        }
        j = j + 1;
    }
    true
}

/// The rank numbers of the cards, sorted.
fn sorted_rank_orders(cards: &[Card]) -> (sorted: Vec<u8>)
    ensures
        ints(sorted@) == all_ranks(cards@).sort(),
        sorted@.len() == cards@.len(),
{
    let ghost ranks = all_ranks(cards@);
    let mut sorted: Vec<u8> = Vec::new();
    let mut i: usize = 0;
    assert(ints(sorted@) =~= Seq::<int>::empty());
    assert(ranks.take(0) =~= Seq::<int>::empty());
    while i < cards.len()
        invariant
            i <= cards@.len(),
            ranks == all_ranks(cards@),
            sorted@.len() == i,
            sorted_by(ints(sorted@), |x: int, y: int| x <= y),
            ints(sorted@).to_multiset() == ranks.take(i as int).to_multiset(),
        decreases cards@.len() - i,
    {
        let x = rank_order(cards[i].rank);
        let mut p: usize = 0;
        while p < sorted.len() && sorted[p] <= x
            invariant
                p <= sorted@.len(),
                forall|q: int| 0 <= q < p ==> sorted@[q] <= x,
            decreases sorted@.len() - p,
        {
            p = p + 1;
        }
        let ghost before = sorted@;
        sorted.insert(p, x);
        proof {
            assert(ints(sorted@) =~= ints(before).insert(p as int, x as int));
            assert(ranks.take(i + 1) =~= ranks.take(i as int).push(x as int));
            let s = ints(sorted@);
            assert forall|a: int, b: int| 0 <= a < b < s.len() implies (|x: int, y: int| x <= y)(s[a], s[b]) by {
                if b < p {
                    assert(s[a] == before[a] && s[b] == before[b]);
                    assert((|x: int, y: int| x <= y)(ints(before)[a], ints(before)[b]));
                } else if b == p {
                    assert(s[a] == before[a]);
                } else if a < p {
                    assert(s[a] == before[a] && s[b] == before[b - 1]);
                    assert((|x: int, y: int| x <= y)(ints(before)[p as int], ints(before)[b - 1]) || b - 1 == p);
                } else if a == p {
                    assert(s[b] == before[b - 1]);
                    assert((|x: int, y: int| x <= y)(ints(before)[p as int], ints(before)[b - 1]) || b - 1 == p);
                } else {
                    assert(s[a] == before[a - 1] && s[b] == before[b - 1]);
                    assert((|x: int, y: int| x <= y)(ints(before)[a - 1], ints(before)[b - 1]));
                }
            }
        }
        i = i + 1;
    }
    proof {
        assert(ranks.take(cards@.len() as int) =~= ranks);
        ranks.lemma_sort_ensures();
        vstd::seq_lib::lemma_sorted_unique(ints(sorted@), ranks.sort(), |x: int, y: int| x <= y);
    }
    sorted
}

/// Whether the cards are at least five, none a stone card, with at least
/// five distinct ranks that, sorted, span four ranks from the lowest to the
/// fifth lowest, or are exactly 2, 3, 4, 5 and Ace.
pub fn is_sequential(cards: &[Card]) -> (sequential: bool)
    ensures
        sequential == sequential_spec(cards@),
{
    if cards.len() < 5 {
        return false;
    }
    let mut i: usize = 0;
    while i < cards.len()
        invariant
            i <= cards@.len(),
            forall|k: int| 0 <= k < i ==> !is_stone(#[trigger] cards@[k]),
        decreases cards@.len() - i,
    {
        if card_is_stone(&cards[i]) {
            assert(is_stone(cards@[i as int]));
            return false;
        }
        i = i + 1;
    }
    let sorted = sorted_rank_orders(cards);
    let ghost s = ints(sorted@);
    proof {
        all_ranks(cards@).lemma_sort_ensures();
        assert((|x: int, y: int| x <= y)(s[0], s[4]));
    }
    let mut distinct: usize = 1;
    let mut k: usize = 1;
    assert(s.take(1).len() == 1);
    while k < sorted.len()
        invariant
            1 <= k <= sorted@.len(),
            s == ints(sorted@),
            distinct <= k,
            distinct == distinct_count(s.take(k as int)),
        decreases sorted@.len() - k,
    {
        proof {
            let next = s.take(k + 1);
            assert(next.drop_last() =~= s.take(k as int));
            assert(next.last() == s[k as int]);
            assert(next[next.len() - 2] == s[k - 1]);
        }
        if sorted[k] != sorted[k - 1] {
            distinct = distinct + 1;
        }
        k = k + 1;
    }
    assert(s.take(s.len() as int) =~= s);
    if distinct < 5 {
        return false;
    }
    if sorted[4] - sorted[0] == 4 {
        return true;
    }
    if sorted.len() == 5 && sorted[0] == 2 && sorted[1] == 3 && sorted[2] == 4 && sorted[3] == 5 && sorted[4] == 14 {
        assert(s =~= seq![2int, 3, 4, 5, 14]);
        return true;
    }
    proof {
        if s == seq![2int, 3, 4, 5, 14] {
            assert(s[0] == 2 && s[1] == 3 && s[2] == 4 && s[3] == 5 && s[4] == 14);
        }
    }
    false
}

/// Five cards of one rank and, as `is_all_same_suit` judges, one suit.
pub open spec fn classic_flush_five(cards: Seq<Card>) -> bool {
    cards.len() == 5 && same_suit_spec(cards) && some_rank_exactly(cards, 5)
}

/// Five cards of one suit, three of one rank and two of another.
pub open spec fn classic_flush_house(cards: Seq<Card>) -> bool {
    cards.len() == 5 && same_suit_spec(cards) && some_rank_exactly(cards, 3) && some_rank_exactly(cards, 2)
}

/// The best poker hand as the command judges it, without jokers.
pub open spec fn classic_hand(cards: Seq<Card>) -> PokerHand {
    if classic_flush_five(cards) {
        PokerHand::FlushFive
    } else if classic_flush_house(cards) {
        PokerHand::FlushHouse
    } else if five_of_a_kind_spec(cards) {
        PokerHand::FiveOfAKind
    } else if sequential_spec(cards) && same_suit_spec(cards) {
        PokerHand::StraightFlush
    } else if some_rank_at_least(cards, 4) {
        PokerHand::FourOfAKind
    } else if full_house_spec(cards) {
        PokerHand::FullHouse
    } else if same_suit_spec(cards) {
        PokerHand::Flush
    } else if sequential_spec(cards) {
        PokerHand::Straight
    } else if some_rank_at_least(cards, 3) {
        PokerHand::ThreeOfAKind
    } else if two_ranks_paired(cards) {
        PokerHand::TwoPair
    } else if some_rank_at_least(cards, 2) {
        PokerHand::Pair
    } else {
        PokerHand::HighCard
    }
}

/// Five cards of one rank and one suit.
pub fn is_flush_five(cards: &[Card]) -> (found: bool)
    ensures
        found == classic_flush_five(cards@),
{
    if cards.len() != 5 || !is_all_same_suit(cards) {
        return false;
    }
    crate::ranks::is_five_of_a_kind(cards)
}

/// Five cards of one suit, three of one rank and two of another.
pub fn is_flush_house(cards: &[Card]) -> (found: bool)
    ensures
        found == classic_flush_house(cards@),
{
    if cards.len() != 5 || !is_all_same_suit(cards) {
        return false;
    }
    is_full_house(cards)
}

/// A straight that is also a flush.
pub fn is_straight_flush(cards: &[Card]) -> (found: bool)
    ensures
        found == (sequential_spec(cards@) && same_suit_spec(cards@)),
{
    is_sequential(cards) && is_all_same_suit(cards)
}

/// The best poker hand of the played cards, judged without jokers.
pub fn determine_poker_hand(cards: &[Card]) -> (hand: PokerHand)
    ensures
        hand == classic_hand(cards@),
{
    if is_flush_five(cards) {
        return PokerHand::FlushFive;
    }
    if is_flush_house(cards) {
        return PokerHand::FlushHouse;
    }
    if crate::ranks::is_five_of_a_kind(cards) {
        return PokerHand::FiveOfAKind;
    }
    if is_straight_flush(cards) {
        return PokerHand::StraightFlush;
    }
    if is_four_of_a_kind(cards) {
        return PokerHand::FourOfAKind;
    }
    if is_full_house(cards) {
        return PokerHand::FullHouse;
    }
    if is_all_same_suit(cards) {
        return PokerHand::Flush;
    }
    if is_sequential(cards) {
        return PokerHand::Straight;
    }
    if is_three_of_a_kind(cards) {
        return PokerHand::ThreeOfAKind;
    }
    if is_two_pair(cards) {
        return PokerHand::TwoPair;
    }
    if is_pair(cards) {
        return PokerHand::Pair;
    }
    PokerHand::HighCard
}

/// The highest rank number, at most `r`, whose entry in the count table `t`
/// is exactly `n`; 0 when there is none.
pub open spec fn highest_rank_exactly(t: Seq<int>, n: int, r: int) -> int
    decreases r,
{
    if r < 2 {
        0
    } else if r < t.len() && t[r] == n {
        r
    } else {
        highest_rank_exactly(t, n, r - 1)
    }
}

/// The hand is one that the command can pick scoring cards for: a hand of
/// a rank group needs, when some card is not a stone card, a rank that
/// forms it (exactly five of a kind for Five of a Kind).
pub open spec fn scorable(cards: Seq<Card>, hand: PokerHand) -> bool {
    let t = count_table(cards);
    candidates(cards).len() > 0 ==> match hand {
        PokerHand::FiveOfAKind => table_exactly(t, 5),
        PokerHand::FourOfAKind => table_at_least(t, 4),
        PokerHand::ThreeOfAKind => table_at_least(t, 3),
        PokerHand::Pair => table_at_least(t, 2),
        _ => true,
    }
}

/// The indices of the cards that score for `hand`: all non-stone cards for
/// the hands that use every card, the group of the rank that forms a rank
/// hand (the highest such rank), the two highest pairs, or the high card.
pub open spec fn classic_selection(cards: Seq<Card>, hand: PokerHand) -> Seq<usize> {
    let t = count_table(cards);
    match hand {
        PokerHand::FlushFive | PokerHand::FlushHouse | PokerHand::StraightFlush | PokerHand::FullHouse
        | PokerHand::Flush | PokerHand::Straight => candidates(cards),
        PokerHand::FiveOfAKind => if candidates(cards).len() == 0 {
            Seq::empty()
        } else {
            let target = highest_rank_exactly(t, 5, 14);
            ranked_indices(cards, target, target)
        },
        PokerHand::FourOfAKind => rank_group_spec(cards, t, 4),
        PokerHand::ThreeOfAKind => rank_group_spec(cards, t, 3),
        PokerHand::Pair => rank_group_spec(cards, t, 2),
        PokerHand::TwoPair => two_pair_spec(cards),
        PokerHand::HighCard => match high_card_index(cards) {
            Some(i) => seq![i as usize],
            None => Seq::empty(),
        },
    }
}

fn copy_cards_at(cards: &[Card], idx: &Vec<usize>) -> (chosen: Vec<Card>)
    requires
        forall|k: int| 0 <= k < idx@.len() ==> #[trigger] idx@[k] < cards@.len(),
    ensures
        chosen@ == cards_at(cards@, idx@),
{
    let mut chosen: Vec<Card> = Vec::new();
    let mut k: usize = 0;
    while k < idx.len()
        invariant
            k <= idx@.len(),
            forall|m: int| 0 <= m < idx@.len() ==> #[trigger] idx@[m] < cards@.len(),
            chosen@ =~= cards_at(cards@, idx@).take(k as int),
        decreases idx@.len() - k,
    {
        chosen.push(cards[idx[k]]);
        k = k + 1;
    }
    assert(cards_at(cards@, idx@).take(idx@.len() as int) =~= cards_at(cards@, idx@));
    chosen
}

/// The cards that score for `hand`, as the command picks them.
pub fn get_scored_cards(cards: &[Card], hand: PokerHand) -> (scored: Vec<Card>)
    requires
        scorable(cards@, hand),
    ensures
        scored@ == cards_at(cards@, classic_selection(cards@, hand)),
{
    let n = cards.len();
    proof {
        crate::laws::law_hand_cards_well_formed(cards@, hand, Seq::empty());
        crate::patterns::lemma_candidates(cards@);
    }
    let counts = count_ranks(cards);
    let idx = non_stone_indices(cards);
    let chosen: Vec<usize> = match hand {
        PokerHand::FlushFive | PokerHand::FlushHouse | PokerHand::StraightFlush | PokerHand::FullHouse
        | PokerHand::Flush | PokerHand::Straight => idx,
        PokerHand::FiveOfAKind => {
            if idx.len() == 0 {
                Vec::new()
            } else {
                let target = highest_exact_rank(&counts, 5);
                proof {
                    crate::laws::lemma_ranked_selection(cards@, target as int, target as int);
                }
                crate::selection::cards_of_ranks(cards, target, target)
            }
        },
        PokerHand::FourOfAKind => rank_group_indices(cards, &counts, 4),
        PokerHand::ThreeOfAKind => rank_group_indices(cards, &counts, 3),
        PokerHand::Pair => rank_group_indices(cards, &counts, 2),
        PokerHand::TwoPair => crate::selection::get_scored_indices(cards, PokerHand::TwoPair, &[]),
        PokerHand::HighCard => crate::selection::get_scored_indices(cards, PokerHand::HighCard, &[]),
    };
    proof {
        assert(chosen@ == classic_selection(cards@, hand));
    }
    copy_cards_at(cards, &chosen)
}

/// The highest rank number whose count is exactly `n`.
fn highest_exact_rank(counts: &HashMap<u8, usize>, n: usize) -> (rank: usize)
    ensures
        rank as int == highest_rank_exactly(count_view(counts@), n as int, 14),
{
    let ghost t = count_view(counts@);
    let mut r: usize = 14;
    while r >= 2
        invariant
            r <= 14,
            t == count_view(counts@),
            highest_rank_exactly(t, n as int, r as int) == highest_rank_exactly(t, n as int, 14),
        decreases r,
    {
        if count_of(counts, r) == n {
            return r;
        }
        r = r - 1;
    }
    0
}

/// The steps of the scored cards, one after another.
pub open spec fn cards_steps(cards: Seq<Card>) -> Seq<ScoreStep>
    decreases cards.len(),
{
    if cards.len() == 0 {
        Seq::empty()
    } else {
        cards_steps(cards.drop_last()) + card_own_steps(cards.last())
    }
}

/// The stone cards among `cards`, in order.
pub open spec fn stone_cards(cards: Seq<Card>) -> Seq<Card>
    decreases cards.len(),
{
    if cards.len() == 0 {
        Seq::empty()
    } else if is_stone(cards.last()) {
        stone_cards(cards.drop_last()).push(cards.last())
    } else {
        stone_cards(cards.drop_last())
    }
}

/// One x1.5 for each steel card held in hand.
pub open spec fn steel_steps(held: Seq<Card>) -> Seq<ScoreStep>
    decreases held.len(),
{
    if held.len() == 0 {
        Seq::empty()
    } else {
        steel_steps(held.drop_last()) + step_if(
            held.last().enhancement == Some(Enhancement::Steel),
            ScoreStep::TimesMult(MultFactor::OneAndAHalf),
        )
    }
}

/// What a joker gives as the command scores it: only the independent
/// bonuses of the basic jokers, and the Abstract Joker's +3 mult for each of
/// the `joker_count` joker cards in play.
pub open spec fn classic_joker_steps(joker: Joker, played: Seq<Card>, joker_count: nat) -> Seq<ScoreStep> {
    match joker {
        Joker::Joker => seq![ScoreStep::AddMult(4)],
        Joker::JollyJoker => step_if(some_rank_at_least(played, 2), ScoreStep::AddMult(8)),
        Joker::ZanyJoker => step_if(some_rank_at_least(played, 3), ScoreStep::AddMult(12)),
        Joker::MadJoker => step_if(two_ranks_paired(played), ScoreStep::AddMult(10)),
        Joker::TheOrder => step_if(sequential_spec(played), ScoreStep::TimesMult(MultFactor::Triple)),
        Joker::TheTribe => step_if(same_suit_spec(played), ScoreStep::TimesMult(MultFactor::Double)),
        Joker::SlyJoker => step_if(some_rank_at_least(played, 2), ScoreStep::AddChips(50)),
        Joker::WilyJoker => step_if(some_rank_at_least(played, 3), ScoreStep::AddChips(100)),
        Joker::CleverJoker => step_if(two_ranks_paired(played), ScoreStep::AddChips(80)),
        Joker::DeviousJoker => step_if(sequential_spec(played), ScoreStep::AddChips(100)),
        Joker::CraftyJoker => step_if(same_suit_spec(played), ScoreStep::AddChips(80)),
        Joker::AbstractJoker => seq![ScoreStep::AddMult((3 * joker_count) as u128)],
        _ => Seq::empty(),
    }
}

/// The steps of `jokers`, in order, with `joker_count` joker cards in play.
pub open spec fn classic_jokers_steps(jokers: Seq<JokerCard>, played: Seq<Card>, joker_count: nat) -> Seq<ScoreStep>
    decreases jokers.len(),
{
    if jokers.len() == 0 {
        Seq::empty()
    } else {
        classic_jokers_steps(jokers.drop_last(), played, joker_count) + classic_joker_steps(
            jokers.last().joker,
            played,
            joker_count,
        )
    }
}

/// The cards the command scores: those of the hand, then every stone card.
pub open spec fn classic_scored_cards(played: Seq<Card>) -> Seq<Card> {
    cards_at(played, classic_selection(played, classic_hand(played))) + stone_cards(played)
}

/// Every step of the command's scoring of `round`, in order.
pub open spec fn classic_score_steps(round: Round) -> Seq<ScoreStep> {
    let played = round.cards_played@;
    cards_steps(classic_scored_cards(played)) + steel_steps(round.cards_held_in_hand@) + classic_jokers_steps(
        round.jokers@,
        played,
        round.jokers@.len(),
    )
}

/// Adds the independent bonus that `joker` gives as the command scores it,
/// with `joker_count` joker cards in play.
pub fn apply_independent_joker(
    joker: &JokerCard,
    played_cards: &[Card],
    best_hand: PokerHand,
    joker_count: usize,
    steps: &mut Vec<ScoreStep>,
)
    ensures
        final(steps)@ == old(steps)@ + classic_joker_steps(joker.joker, played_cards@, joker_count as nat),
{
    let ghost start = steps@;
    match joker.joker {
        Joker::Joker => {
            steps.push(ScoreStep::AddMult(4));
        },
        Joker::JollyJoker => {
            if contains_pair(played_cards) {
                steps.push(ScoreStep::AddMult(8));
            }
        },
        Joker::ZanyJoker => {
            if contains_three_of_a_kind(played_cards) {
                steps.push(ScoreStep::AddMult(12));
            }
        },
        Joker::MadJoker => {
            if contains_two_pair(played_cards) {
                steps.push(ScoreStep::AddMult(10));
            }
        },
        Joker::TheOrder => {
            if is_sequential(played_cards) {
                steps.push(ScoreStep::TimesMult(MultFactor::Triple));
            }
        },
        Joker::TheTribe => {
            if is_all_same_suit(played_cards) {
                steps.push(ScoreStep::TimesMult(MultFactor::Double));
            }
        },
        Joker::SlyJoker => {
            if contains_pair(played_cards) {
                steps.push(ScoreStep::AddChips(50));
            }
        },
        Joker::WilyJoker => {
            if contains_three_of_a_kind(played_cards) {
                steps.push(ScoreStep::AddChips(100));
            }
        },
        Joker::CleverJoker => {
            if contains_two_pair(played_cards) {
                steps.push(ScoreStep::AddChips(80));
            }
        },
        Joker::DeviousJoker => {
            if is_sequential(played_cards) {
                steps.push(ScoreStep::AddChips(100));
            }
        },
        Joker::CraftyJoker => {
            if is_all_same_suit(played_cards) {
                steps.push(ScoreStep::AddChips(80));
            }
        },
        Joker::AbstractJoker => {
            steps.push(ScoreStep::AddMult(3 * (joker_count as u128)));
        },
        _ => {},
    }
    assert(steps@ =~= start + classic_joker_steps(joker.joker, played_cards@, joker_count as nat));
}

/// Scores `round` as the command does: the hand judged without jokers, the
/// chips, enhancement and edition of each scored card (the hand's cards,
/// then every stone card), x1.5 per steel card held, then each joker's
/// independent bonus (the Abstract Joker's counting every joker card).
pub fn score(round: Round) -> (trace: ScoreTrace)
    ensures
        trace.hand == classic_hand(round.cards_played@),
        trace.chips == hand_base(trace.hand).0,
        trace.mult == hand_base(trace.hand).1,
        trace.steps@ == classic_score_steps(round),
{
    let played = round.cards_played.as_slice();
    let best_hand = determine_poker_hand(played);
    let (chips, mult) = hand_value(best_hand);
    let mut scored_cards = get_scored_cards(played, best_hand);
    let mut i: usize = 0;
    let ghost hand_cards = scored_cards@;
    while i < played.len()
        invariant
            i <= played@.len(),
            scored_cards@ == hand_cards + stone_cards(played@.take(i as int)),
        decreases played@.len() - i,
    {
        proof {
            let next = played@.take(i + 1);
            assert(next.drop_last() =~= played@.take(i as int));
            assert(next.last() == played@[i as int]);
        }
        if card_is_stone(&played[i]) {
            scored_cards.push(played[i]);
        }
        i = i + 1;
    }
    assert(played@.take(played@.len() as int) =~= played@);
    let mut steps: Vec<ScoreStep> = Vec::new();
    let mut k: usize = 0;
    while k < scored_cards.len()
        invariant
            k <= scored_cards@.len(),
            steps@ == cards_steps(scored_cards@.take(k as int)),
        decreases scored_cards@.len() - k,
    {
        let ghost before = steps@;
        let card = scored_cards[k];
        add_card_own_steps(card, &mut steps);
        proof {
            let next = scored_cards@.take(k + 1);
            assert(next.drop_last() =~= scored_cards@.take(k as int));
            assert(next.last() == card);
            assert(steps@ =~= before + card_own_steps(card));
        }
        k = k + 1;
    }
    assert(scored_cards@.take(scored_cards@.len() as int) =~= scored_cards@);
    let ghost after_cards = steps@;
    let held = round.cards_held_in_hand.as_slice();
    let mut h: usize = 0;
    while h < held.len()
        invariant
            h <= held@.len(),
            steps@ == after_cards + steel_steps(held@.take(h as int)),
        decreases held@.len() - h,
    {
        let ghost before = steps@;
        let steel = match held[h].enhancement {
            Some(Enhancement::Steel) => true,
            _ => false,
        };
        if steel {
            steps.push(ScoreStep::TimesMult(MultFactor::OneAndAHalf));
        }
        proof {
            let next = held@.take(h + 1);
            assert(next.drop_last() =~= held@.take(h as int));
            assert(next.last() == held@[h as int]);
            assert(steps@ =~= after_cards + steel_steps(next));
        }
        h = h + 1;
    }
    assert(held@.take(held@.len() as int) =~= held@);
    let ghost after_held = steps@;
    let jokers = round.jokers.as_slice();
    let mut j: usize = 0;
    while j < jokers.len()
        invariant
            j <= jokers@.len(),
            played@ == round.cards_played@,
            steps@ == after_held + classic_jokers_steps(jokers@.take(j as int), played@, jokers@.len()),
        decreases jokers@.len() - j,
    {
        apply_independent_joker(&jokers[j], played, best_hand, jokers.len(), &mut steps);
        proof {
            let next = jokers@.take(j + 1);
            assert(next.drop_last() =~= jokers@.take(j as int));
            assert(next.last() == jokers@[j as int]);
            assert(steps@ =~= after_held + classic_jokers_steps(next, played@, jokers@.len()));
        }
        j = j + 1;
    }
    assert(jokers@.take(jokers@.len() as int) =~= jokers@);
    assert(steps@ =~= classic_score_steps(round));
    ScoreTrace { hand: best_hand, chips, mult, steps }
}

} // verus!
