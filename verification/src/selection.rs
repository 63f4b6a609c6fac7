//! Which of the played cards score for the poker hand they make.

use vstd::prelude::*;

use crate::cards::{card_is_stone, is_stone, rank_number, rank_order, Card, Joker, JokerCard, PokerHand};
use crate::hands::has_joker;
use crate::hands::joker_in_play;
use crate::patterns::{
    candidates, combinations, combos, copy_indices, find_flush_indices, find_pattern,
    find_straight_indices, flush_candidate, flush_spec, indices_in,
    lemma_combos_in_range, nested, non_stone_indices, opt_view, straight_candidate, straight_spec,
};
use crate::ranks::{count_of, count_ranks, count_table, count_view};
use std::collections::HashMap;

verus! {

/// The indices, in order, of the non-stone cards whose rank is numbered `t1`
/// or `t2`.
pub open spec fn ranked_indices(cards: Seq<Card>, t1: int, t2: int) -> Seq<usize>
    decreases cards.len(),
{
    if cards.len() == 0 {
        Seq::empty()
    } else {
        let rest = ranked_indices(cards.drop_last(), t1, t2);
        let last = cards.last();
        if !is_stone(last) && (rank_number(last.rank) == t1 || rank_number(last.rank) == t2) {
            rest.push((cards.len() - 1) as usize)
        } else {
            rest
        }
    }
}

/// The highest rank number, at most `r`, whose entry in the count table `t`
/// reaches `minimum`; 0 when there is none.
pub open spec fn highest_rank_at_least(t: Seq<int>, minimum: int, r: int) -> int
    decreases r,
{
    if r < 2 {
        0
    } else if r < t.len() && t[r] >= minimum {
        r
    } else {
        highest_rank_at_least(t, minimum, r - 1)
    }
}

/// The cards of the highest rank that occurs at least `minimum` times
/// according to the count table `t`.
pub open spec fn rank_group_spec(cards: Seq<Card>, t: Seq<int>, minimum: int) -> Seq<usize> {
    let target = highest_rank_at_least(t, minimum, 14);
    if target == 0 {
        Seq::empty()
    } else {
        ranked_indices(cards, target, target)
    }
}

/// The cards of the (up to) two highest ranks that occur at least twice.
pub open spec fn two_pair_spec(cards: Seq<Card>) -> Seq<usize> {
    let t = count_table(cards);
    let high = highest_rank_at_least(t, 2, 14);
    let low = if high >= 2 {
        highest_rank_at_least(t, 2, high - 1)
    } else {
        0
    };
    ranked_indices(cards, high, low)
}

/// The last of the highest-ranked non-stone cards, if any.
pub open spec fn high_card_index(cards: Seq<Card>) -> Option<int>
    decreases cards.len(),
{
    if cards.len() == 0 {
        None
    } else {
        let best = high_card_index(cards.drop_last());
        let last = cards.last();
        let i = cards.len() - 1;
        if is_stone(last) {
            best
        } else {
            match best {
                None => Some(i),
                Some(k) => if rank_number(last.rank) >= rank_number(cards[k].rank) {
                    Some(i)
                } else {
                    best
                },
            }
        }
    }
}

/// The indices below `n`, in order, that `a` or `b` holds.
pub open spec fn merged(n: int, a: Seq<usize>, b: Seq<usize>) -> Seq<usize>
    decreases n,
{
    if n <= 0 {
        Seq::empty()
    } else {
        let rest = merged(n - 1, a, b);
        if a.contains((n - 1) as usize) || b.contains((n - 1) as usize) {
            rest.push((n - 1) as usize)
        } else {
            rest
        }
    }
}

/// The first choice of `cs` that is both a straight and a flush.
pub open spec fn first_straight_flush(cards: Seq<Card>, cs: Seq<Seq<usize>>, shortcut: bool, smeared: bool) -> Option<
    Seq<usize>,
>
    decreases cs.len(),
{
    if cs.len() == 0 {
        None
    } else if straight_spec(cards, cs[0], shortcut) && flush_spec(cards, cs[0], smeared) {
        Some(cs[0])
    } else {
        first_straight_flush(cards, cs.drop_first(), shortcut, smeared)
    }
}

/// An optional index list, or the empty list.
pub open spec fn or_empty(o: Option<Seq<usize>>) -> Seq<usize> {
    match o {
        Some(s) => s,
        None => Seq::empty(),
    }
}

/// The cards that score for `hand`: every non-stone card for the hands that
/// use all five; the straight and the flush found; the group of the rank
/// that makes the hand; the two highest pairs; or the highest card.
pub open spec fn scored_spec(cards: Seq<Card>, hand: PokerHand, jokers: Seq<JokerCard>) -> Seq<usize> {
    let four_fingers = has_joker(jokers, Joker::FourFingers);
    let shortcut = has_joker(jokers, Joker::Shortcut);
    let smeared = has_joker(jokers, Joker::SmearedJoker);
    let t = count_table(cards);
    match hand {
        PokerHand::FlushFive | PokerHand::FlushHouse | PokerHand::FullHouse => candidates(cards),
        PokerHand::StraightFlush => if four_fingers {
            merged(
                cards.len() as int,
                or_empty(find_pattern(cards, true, true, shortcut)),
                or_empty(find_pattern(cards, true, false, smeared)),
            )
        } else {
            or_empty(first_straight_flush(cards, combos(candidates(cards), 5), shortcut, smeared))
        },
        PokerHand::Flush => or_empty(find_pattern(cards, four_fingers, false, smeared)),
        PokerHand::Straight => or_empty(find_pattern(cards, four_fingers, true, shortcut)),
        PokerHand::FiveOfAKind => rank_group_spec(cards, t, 5),
        PokerHand::FourOfAKind => rank_group_spec(cards, t, 4),
        PokerHand::ThreeOfAKind => rank_group_spec(cards, t, 3),
        PokerHand::Pair => rank_group_spec(cards, t, 2),
        PokerHand::TwoPair => two_pair_spec(cards),
        PokerHand::HighCard => match high_card_index(cards) {
            Some(i) => seq![i as usize],
            None => Seq::empty(),
        },
    }
}

/// The highest rank number, at most `from`, whose count reaches `minimum`.
fn highest_counted_rank(counts: &HashMap<u8, usize>, minimum: usize, from: usize) -> (rank: usize)
    requires
        from <= 14,
    ensures
        rank as int == highest_rank_at_least(count_view(counts@), minimum as int, from as int),
        rank <= from,
{
    let ghost t = count_view(counts@);
    let mut r: usize = from;
    while r >= 2
        invariant
            r <= from <= 14,
            t == count_view(counts@),
            highest_rank_at_least(t, minimum as int, r as int) == highest_rank_at_least(
                t,
                minimum as int,
                from as int,
            ),
        decreases r,
    {
        if count_of(counts, r) >= minimum {
            return r;
        }
        r = r - 1;
    }
    0
}

/// The non-stone cards whose rank is numbered `t1` or `t2`.
pub(crate) fn cards_of_ranks(cards: &[Card], t1: usize, t2: usize) -> (chosen: Vec<usize>)
    ensures
        chosen@ == ranked_indices(cards@, t1 as int, t2 as int),
{
    let mut chosen: Vec<usize> = Vec::new();
    let mut i: usize = 0;
    while i < cards.len()
        invariant
            i <= cards@.len(),
            chosen@ == ranked_indices(cards@.take(i as int), t1 as int, t2 as int),
        decreases cards@.len() - i,
    {
        proof {
            let next = cards@.take(i + 1);
            assert(next.drop_last() =~= cards@.take(i as int));
            assert(next.last() == cards@[i as int]);
        }
        let card = cards[i];
        let order = rank_order(card.rank) as usize;
        if !card_is_stone(&card) && (order == t1 || order == t2) {
            chosen.push(i);
        }
        i = i + 1;
    }
    assert(cards@.take(cards@.len() as int) =~= cards@);
    chosen
}

/// The non-stone cards of the highest rank that occurs at least `minimum`
/// times according to `counts` (entry `r` counting the rank numbered `r`).
/// Where several ranks qualify, the highest is taken.
pub fn rank_group_indices(cards: &[Card], counts: &HashMap<u8, usize>, minimum: usize) -> (group: Vec<usize>)
    ensures
        group@ == rank_group_spec(cards@, count_view(counts@), minimum as int),
{
    let target = highest_counted_rank(counts, minimum, 14);
    if target == 0 {
        return Vec::new();
    }
    cards_of_ranks(cards, target, target)
}

/// The last of the highest-ranked non-stone cards.
fn high_card(cards: &[Card]) -> (best: Option<usize>)
    ensures
        match best {
            Some(i) => high_card_index(cards@) == Some(i as int),
            None => high_card_index(cards@) is None,
        },
{
    let mut best: Option<usize> = None;
    let mut i: usize = 0;
    while i < cards.len()
        invariant
            i <= cards@.len(),
            match best {
                Some(k) => k < i && high_card_index(cards@.take(i as int)) == Some(k as int),
                None => high_card_index(cards@.take(i as int)) is None,
            },
        decreases cards@.len() - i,
    {
        proof {
            let next = cards@.take(i + 1);
            assert(next.drop_last() =~= cards@.take(i as int));
            assert(next.last() == cards@[i as int]);
            match best {
                Some(k) => {
                    assert(next[k as int] == cards@[k as int]);
                },
                None => {},
            }
        }
        let card = cards[i];
        if !card_is_stone(&card) {
            match best {
                None => {
                    best = Some(i);
                },
                Some(k) => {
                    if rank_order(card.rank) >= rank_order(cards[k].rank) {
                        best = Some(i);
                    }
                },
            }
        }
        i = i + 1;
    }
    assert(cards@.take(cards@.len() as int) =~= cards@);
    best
}

/// Whether `items` holds `x`.
pub(crate) fn holds_index(items: &Vec<usize>, x: usize) -> (found: bool)
    ensures
        found == items@.contains(x),
{
    let mut k: usize = 0;
    while k < items.len()
        invariant
            k <= items@.len(),
            forall|j: int| 0 <= j < k ==> items@[j] != x,
        decreases items@.len() - k,
    {
        if items[k] == x {
            assert(items@[k as int] == x);
            return true;
        }
        k = k + 1;
    }
    false
}

/// The indices below `n`, in order, that `a` or `b` holds.
fn merge_indices(n: usize, a: &Vec<usize>, b: &Vec<usize>) -> (all: Vec<usize>)
    ensures
        all@ == merged(n as int, a@, b@),
{
    let mut all: Vec<usize> = Vec::new();
    let mut i: usize = 0;
    while i < n
        invariant
            i <= n,
            all@ == merged(i as int, a@, b@),
        decreases n - i,
    {
        if holds_index(a, i) || holds_index(b, i) {
            all.push(i);
        }
        i = i + 1;
    }
    all
}

fn unwrap_or_empty(found: Option<Vec<usize>>) -> (items: Vec<usize>)
    ensures
        items@ == or_empty(opt_view(found)),
{
    match found {
        Some(items) => items,
        None => Vec::new(),
    }
}

/// The first five non-stone cards that are both a straight and a flush.
fn first_five_straight_flush(cards: &[Card], shortcut: bool, smeared: bool) -> (found: Option<Vec<usize>>)
    ensures
        opt_view(found) == first_straight_flush(cards@, combos(candidates(cards@), 5), shortcut, smeared),
{
    let n = cards.len();
    proof {
        lemma_combos_in_range(cards@, 5);
    }
    let fives = combinations(cards, 5);
    let ghost all = nested(fives@);
    assert(all.subrange(0, all.len() as int) =~= all);
    let mut k: usize = 0;
    while k < fives.len()
        invariant
            k <= fives@.len(),
            all == nested(fives@),
            all == combos(candidates(cards@), 5),
            forall|i: int| 0 <= i < all.len() ==> #[trigger] indices_in(cards@, all[i]),
            first_straight_flush(cards@, all.subrange(k as int, all.len() as int), shortcut, smeared)
                == first_straight_flush(cards@, all, shortcut, smeared),
        decreases fives@.len() - k,
    {
        let ghost rest = all.subrange(k as int, all.len() as int);
        assert(all[k as int] == fives@[k as int]@);
        assert(rest[0] == all[k as int]);
        assert(indices_in(cards@, all[k as int]));
        let choice = fives[k].as_slice();
        if straight_candidate(cards, choice, shortcut) && flush_candidate(cards, choice, smeared) {
            return Some(copy_indices(&fives[k]));
        }
        assert(rest.drop_first() =~= all.subrange(k + 1, all.len() as int));
        k = k + 1;
    }
    assert(all.subrange(k as int, all.len() as int) =~= Seq::<Seq<usize>>::empty());
    None
}

/// The indices of the played cards that score for `hand`.
pub fn get_scored_indices(cards: &[Card], hand: PokerHand, jokers: &[JokerCard]) -> (scored: Vec<usize>)
    ensures
        scored@ == scored_spec(cards@, hand, jokers@),
{
    let counts = count_ranks(cards);
    let four_fingers = joker_in_play(jokers, Joker::FourFingers);
    let shortcut = joker_in_play(jokers, Joker::Shortcut);
    let smeared = joker_in_play(jokers, Joker::SmearedJoker);
    match hand {
        PokerHand::FlushFive | PokerHand::FlushHouse | PokerHand::FullHouse => non_stone_indices(cards),
        PokerHand::StraightFlush => {
            if four_fingers {
                let straight = unwrap_or_empty(find_straight_indices(cards, true, shortcut));
                let flush = unwrap_or_empty(find_flush_indices(cards, true, smeared));
                merge_indices(cards.len(), &straight, &flush)
            } else {
                unwrap_or_empty(first_five_straight_flush(cards, shortcut, smeared))
            }
        },
        PokerHand::Flush => unwrap_or_empty(find_flush_indices(cards, four_fingers, smeared)),
        PokerHand::Straight => unwrap_or_empty(find_straight_indices(cards, four_fingers, shortcut)),
        PokerHand::FiveOfAKind => rank_group_indices(cards, &counts, 5),
        PokerHand::FourOfAKind => rank_group_indices(cards, &counts, 4),
        PokerHand::ThreeOfAKind => rank_group_indices(cards, &counts, 3),
        PokerHand::Pair => rank_group_indices(cards, &counts, 2),
        PokerHand::TwoPair => {
            let high = highest_counted_rank(&counts, 2, 14);
            let low = if high >= 2 {
                highest_counted_rank(&counts, 2, high - 1)
            } else {
                0
            };
            cards_of_ranks(cards, high, low)
        },
        PokerHand::HighCard => {
            match high_card(cards) {
                Some(i) => {
                    let mut one: Vec<usize> = Vec::new();
                    one.push(i);
                    assert(one@ =~= seq![i]);
                    one
                },
                None => Vec::new(),
            }
        },
    }
}

} // verus!
