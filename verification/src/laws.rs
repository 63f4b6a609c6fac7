//! Properties of the scoring rules that hold for every round.

use vstd::prelude::*;

use crate::cards::{is_stone, is_wild, rank_number, suit_matches, Card, Joker, JokerCard, PokerHand, Round, Suit};
use crate::hands::has_joker;
use crate::jokers::{effective_at, is_passive, resolve_from};
use crate::patterns::{
    all_match_suit, candidates, combo_ok, combos, find_pattern, first_with_pattern, flush_spec,
    gaps_closed, has_next, increasing, lemma_candidates, lemma_combos, straight_spec, ace_low,
    index_ranks,
};
use crate::ranks::rank_count;
use crate::score::{
    face_card, on_scored_steps, retrigger_of, scoring_indices, scoring_prefix, ScoreStep,
};
use crate::selection::{
    first_straight_flush, high_card_index, merged, or_empty, ranked_indices, scored_spec,
};
use crate::hands::hand_of;

verus! {

/// A stone card counts as no suit at all, and a wild card (that is not a
/// stone card) as every suit.
pub proof fn law_stone_and_wild_suits(card: Card, suit: Suit, smeared: bool)
    ensures
        is_stone(card) ==> !suit_matches(card, suit, smeared),
        is_wild(card) ==> suit_matches(card, suit, smeared),
{
}

/// The Smeared Joker only widens what counts as a suit: a card that counts
/// as a suit without it still does with it, and so a flush stays a flush.
pub proof fn law_smeared_only_widens(cards: Seq<Card>, idx: Seq<usize>, card: Card, suit: Suit)
    ensures
        suit_matches(card, suit, false) ==> suit_matches(card, suit, true),
        flush_spec(cards, idx, false) ==> flush_spec(cards, idx, true),
{
    if flush_spec(cards, idx, false) {
        let s = choose|s: Suit| #[trigger] all_match_suit(cards, idx, s, false);
        assert(all_match_suit(cards, idx, s, true));
    }
}

proof fn lemma_gaps_widen(s: Seq<int>)
    ensures
        gaps_closed(s, false) ==> gaps_closed(s, true),
{
    if gaps_closed(s, false) {
        assert forall|a: int| 0 <= a < s.len() && crate::patterns::has_above(s, #[trigger] s[a]) implies has_next(
            s,
            s[a],
            true,
        ) by {
            assert(has_next(s, s[a], false));
            let b = choose|b: int| 0 <= b < s.len() && (#[trigger] s[b] == s[a] + 1 || (false && s[b] == s[a] + 2));
            assert(s[b] == s[a] + 1);
        }
    }
}

/// Shortcut only widens what counts as a straight.
pub proof fn law_shortcut_only_widens(cards: Seq<Card>, idx: Seq<usize>)
    ensures
        straight_spec(cards, idx, false) ==> straight_spec(cards, idx, true),
{
    lemma_gaps_widen(index_ranks(cards, idx));
    lemma_gaps_widen(ace_low(index_ranks(cards, idx)));
}

/// Four Fingers only adds four-card straights and flushes: whatever is
/// found among five cards without it is found, the same, with it.
pub proof fn law_four_fingers_keeps_five_card_hands(cards: Seq<Card>, straight: bool, flag: bool)
    ensures
        find_pattern(cards, false, straight, flag) is Some ==> find_pattern(cards, true, straight, flag)
            == find_pattern(cards, false, straight, flag),
{
}

/// Pareidolia makes every card that is not a stone card a face card; a
/// stone card is never one.
pub proof fn law_pareidolia_faces(card: Card, jokers: Seq<JokerCard>)
    ensures
        has_joker(jokers, Joker::Pareidolia) && !is_stone(card) ==> face_card(card, jokers),
        is_stone(card) ==> !face_card(card, jokers),
{
}

/// A stone card takes no part in rank or suit effects: the on-scored
/// abilities do nothing for it, Hack does not retrigger it, and it counts
/// towards no rank.
pub proof fn law_stone_has_no_rank_or_suit(
    cards: Seq<Card>,
    card: Card,
    joker: Joker,
    jokers: Seq<JokerCard>,
    first_face: bool,
    first_card: bool,
    r: int,
)
    requires
        is_stone(card),
    ensures
        on_scored_steps(joker, card, jokers, first_face) == Seq::<ScoreStep>::empty(),
        joker == Joker::Hack ==> retrigger_of(joker, card, jokers, first_card) == 0,
        rank_count(cards.push(card), r) == rank_count(cards, r),
{
    assert(cards.push(card).drop_last() =~= cards);
}

proof fn lemma_prefix_includes(cards: Seq<Card>, hand_cards: Seq<usize>, splash: bool, n: int, i: int)
    requires
        0 <= i < n <= cards.len() <= usize::MAX,
        hand_cards.contains(i as usize) || splash || is_stone(cards[i]),
    ensures
        scoring_prefix(cards, hand_cards, splash, n).contains(i as usize),
    decreases n,
{
    let p = scoring_prefix(cards, hand_cards, splash, n);
    if i == n - 1 {
        assert(p[p.len() - 1] == i as usize);
    } else {
        lemma_prefix_includes(cards, hand_cards, splash, n - 1, i);
        let q = scoring_prefix(cards, hand_cards, splash, n - 1);
        let k = choose|k: int| 0 <= k < q.len() && q[k] == i as usize;
        assert(p[k] == q[k]);
    }
}

/// Every played stone card scores, whatever the poker hand.
pub proof fn law_stone_always_scores(round: Round, i: int)
    requires
        0 <= i < round.cards_played@.len(),
        is_stone(round.cards_played@[i]),
    ensures
        scoring_indices(round).contains(i as usize),
{
    let cards = round.cards_played@;
    let jokers = round.jokers@;
    assert(round.cards_played.len() == cards.len());
    lemma_prefix_includes(
        cards,
        scored_spec(cards, hand_of(cards, jokers), jokers),
        has_joker(jokers, Joker::Splash),
        cards.len() as int,
        i,
    );
}

proof fn lemma_prefix_all(cards: Seq<Card>, hand_cards: Seq<usize>, n: int)
    requires
        0 <= n <= cards.len() <= usize::MAX,
    ensures
        scoring_prefix(cards, hand_cards, true, n) =~= Seq::new(n as nat, |k: int| k as usize),
    decreases n,
{
    if n > 0 {
        lemma_prefix_all(cards, hand_cards, n - 1);
    }
}

/// With Splash, every played card scores, in the order played.
pub proof fn law_splash_scores_every_card(round: Round)
    requires
        has_joker(round.jokers@, Joker::Splash),
    ensures
        scoring_indices(round) == Seq::new(round.cards_played@.len(), |k: int| k as usize),
{
    let cards = round.cards_played@;
    let jokers = round.jokers@;
    assert(round.cards_played.len() == cards.len());
    lemma_prefix_all(cards, scored_spec(cards, hand_of(cards, jokers), jokers), cards.len() as int);
}

/// A joker that is not a Blueprint acts with its own ability; a Blueprint
/// acts as the joker to its right does, unless that ability is passive.
pub proof fn law_blueprint_copies_right(jokers: Seq<JokerCard>, i: int)
    requires
        0 <= i < jokers.len(),
    ensures
        jokers[i].joker != Joker::Blueprint ==> effective_at(jokers, i) == Some(jokers[i].joker),
        jokers[i].joker == Joker::Blueprint ==> effective_at(jokers, i) == match effective_at(jokers, i + 1) {
            Some(a) => if is_passive(a) {
                None
            } else {
                Some(a)
            },
            None => None,
        },
{
    if jokers[i].joker == Joker::Blueprint {
        assert(resolve_from(jokers, i) == resolve_from(jokers, i + 1));
        lemma_resolve_after(jokers, i + 1);
    }
}

proof fn lemma_resolve_after(jokers: Seq<JokerCard>, i: int)
    ensures
        resolve_from(jokers, i) matches Some(j) ==> i <= j < jokers.len() && jokers[j].joker != Joker::Blueprint,
    decreases jokers.len() - i,
{
    if 0 <= i < jokers.len() && jokers[i].joker == Joker::Blueprint {
        lemma_resolve_after(jokers, i + 1);
    }
}

/// A list of indices into `cards`, ascending, naming only non-stone cards.
pub open spec fn well_formed_selection(cards: Seq<Card>, s: Seq<usize>) -> bool {
    &&& increasing(s)
    &&& forall|k: int| 0 <= k < s.len() ==> #[trigger] s[k] < cards.len() && !is_stone(cards[s[k] as int])
}

proof fn lemma_combo_selection(cards: Seq<Card>, c: Seq<usize>, size: nat)
    requires
        cards.len() <= usize::MAX,
        combo_ok(candidates(cards), c, size),
    ensures
        well_formed_selection(cards, c),
{
    lemma_candidates(cards);
    let cands = candidates(cards);
    assert forall|k: int| 0 <= k < c.len() implies #[trigger] c[k] < cards.len() && !is_stone(cards[c[k] as int]) by {
        assert(cands.contains(c[k]));
        let j = choose|j: int| 0 <= j < cands.len() && cands[j] == c[k];
        assert(cands[j] < cards.len());
    }
}

proof fn lemma_first_pattern_selection(cards: Seq<Card>, size: nat, straight: bool, flag: bool)
    requires
        cards.len() <= usize::MAX,
    ensures
        well_formed_selection(cards, or_empty(first_with_pattern(cards, combos(candidates(cards), size), straight, flag))),
        well_formed_selection(cards, or_empty(first_straight_flush(cards, combos(candidates(cards), size), straight, flag))),
{
    lemma_candidates(cards);
    lemma_combos(candidates(cards), size);
    lemma_first_in(cards, combos(candidates(cards), size), size, straight, flag);
}

proof fn lemma_first_in(cards: Seq<Card>, cs: Seq<Seq<usize>>, size: nat, straight: bool, flag: bool)
    requires
        cards.len() <= usize::MAX,
        forall|i: int| 0 <= i < cs.len() ==> combo_ok(candidates(cards), #[trigger] cs[i], size),
    ensures
        well_formed_selection(cards, or_empty(first_with_pattern(cards, cs, straight, flag))),
        well_formed_selection(cards, or_empty(first_straight_flush(cards, cs, straight, flag))),
    decreases cs.len(),
{
    lemma_candidates(cards);
    if cs.len() > 0 {
        lemma_combo_selection(cards, cs[0], size);
        assert forall|i: int| 0 <= i < cs.drop_first().len() implies combo_ok(
            candidates(cards),
            #[trigger] cs.drop_first()[i],
            size,
        ) by {
            assert(cs.drop_first()[i] == cs[i + 1]);
        }
        lemma_first_in(cards, cs.drop_first(), size, straight, flag);
    }
}

proof fn lemma_find_selection(cards: Seq<Card>, four_fingers: bool, straight: bool, flag: bool)
    requires
        cards.len() <= usize::MAX,
    ensures
        well_formed_selection(cards, or_empty(find_pattern(cards, four_fingers, straight, flag))),
{
    lemma_first_pattern_selection(cards, 5, straight, flag);
    lemma_first_pattern_selection(cards, 4, straight, flag);
}

/// The non-stone cards of given ranks are named in ascending order.
pub proof fn lemma_ranked_selection(cards: Seq<Card>, t1: int, t2: int)
    requires
        cards.len() <= usize::MAX,
    ensures
        well_formed_selection(cards, ranked_indices(cards, t1, t2)),
    decreases cards.len(),
{
    if cards.len() > 0 {
        let rest = cards.drop_last();
        lemma_ranked_selection(rest, t1, t2);
        let r = ranked_indices(rest, t1, t2);
        let s = ranked_indices(cards, t1, t2);
        assert forall|k: int| 0 <= k < r.len() implies #[trigger] r[k] < cards.len() - 1 && cards[r[k] as int]
            == rest[r[k] as int] by {}
        assert forall|k: int| 0 <= k < s.len() implies #[trigger] s[k] < cards.len() && !is_stone(cards[s[k] as int]) by {
            if k < r.len() {
                assert(s[k] == r[k]);
            }
        }
        assert forall|a: int, b: int| 0 <= a < b < s.len() implies s[a] < s[b] by {
            if b < r.len() {
                assert(s[a] == r[a] && s[b] == r[b]);
            } else {
                assert(s[a] == r[a]);
            }
        }
    }
}

proof fn lemma_merged_selection(cards: Seq<Card>, a: Seq<usize>, b: Seq<usize>, n: int)
    requires
        0 <= n <= cards.len() <= usize::MAX,
        well_formed_selection(cards, a),
        well_formed_selection(cards, b),
    ensures
        well_formed_selection(cards, merged(n, a, b)),
        forall|k: int| 0 <= k < merged(n, a, b).len() ==> #[trigger] merged(n, a, b)[k] < n,
    decreases n,
{
    if n > 0 {
        lemma_merged_selection(cards, a, b, n - 1);
        let m = merged(n, a, b);
        let r = merged(n - 1, a, b);
        if a.contains((n - 1) as usize) || b.contains((n - 1) as usize) {
            if a.contains((n - 1) as usize) {
                let j = choose|j: int| 0 <= j < a.len() && a[j] == (n - 1) as usize;
                assert(!is_stone(cards[a[j] as int]));
            } else {
                let j = choose|j: int| 0 <= j < b.len() && b[j] == (n - 1) as usize;
                assert(!is_stone(cards[b[j] as int]));
            }
            assert forall|k: int| 0 <= k < m.len() implies #[trigger] m[k] < cards.len() && !is_stone(cards[m[k] as int]) by {
                if k < r.len() {
                    assert(m[k] == r[k]);
                }
            }
            assert forall|x: int, y: int| 0 <= x < y < m.len() implies m[x] < m[y] by {
                assert(m[x] == r[x] || x == r.len());
                if y < r.len() {
                    assert(m[x] == r[x] && m[y] == r[y]);
                } else {
                    assert(m[x] == r[x] && r[x] < n - 1);
                }
            }
        }
    }
}

/// The cards that score for the poker hand are named in ascending order,
/// each once, and none is a stone card; so adding the stone cards (or all
/// cards, with Splash) and sorting gives exactly `scoring_indices`.
pub proof fn law_hand_cards_well_formed(cards: Seq<Card>, hand: crate::cards::PokerHand, jokers: Seq<JokerCard>)
    requires
        cards.len() <= usize::MAX,
    ensures
        well_formed_selection(cards, scored_spec(cards, hand, jokers)),
{
    lemma_candidates(cards);
    let four_fingers = has_joker(jokers, Joker::FourFingers);
    let shortcut = has_joker(jokers, Joker::Shortcut);
    let smeared = has_joker(jokers, Joker::SmearedJoker);
    lemma_find_selection(cards, four_fingers, true, shortcut);
    lemma_find_selection(cards, four_fingers, false, smeared);
    lemma_find_selection(cards, true, true, shortcut);
    lemma_find_selection(cards, true, false, smeared);
    lemma_first_pattern_selection(cards, 5, shortcut, smeared);
    lemma_merged_selection(
        cards,
        or_empty(find_pattern(cards, true, true, shortcut)),
        or_empty(find_pattern(cards, true, false, smeared)),
        cards.len() as int,
    );
    let t = crate::ranks::count_table(cards);
    let h2 = crate::selection::highest_rank_at_least(t, 2, 14);
    let l2 = if h2 >= 2 {
        crate::selection::highest_rank_at_least(t, 2, h2 - 1)
    } else {
        0
    };
    lemma_ranked_selection(cards, h2, l2);
    lemma_ranked_selection(cards, crate::selection::highest_rank_at_least(t, 5, 14), crate::selection::highest_rank_at_least(t, 5, 14));
    lemma_ranked_selection(cards, crate::selection::highest_rank_at_least(t, 4, 14), crate::selection::highest_rank_at_least(t, 4, 14));
    lemma_ranked_selection(cards, crate::selection::highest_rank_at_least(t, 3, 14), crate::selection::highest_rank_at_least(t, 3, 14));
    lemma_ranked_selection(cards, crate::selection::highest_rank_at_least(t, 2, 14), crate::selection::highest_rank_at_least(t, 2, 14));
    law_high_card_is_last_highest(cards);
}

/// The high card is the last of the highest-ranked non-stone cards; there
/// is one exactly when some card is not a stone card.
pub proof fn law_high_card_is_last_highest(cards: Seq<Card>)
    ensures
        high_card_index(cards) matches Some(i) ==> {
            &&& 0 <= i < cards.len()
            &&& !is_stone(cards[i])
            &&& forall|j: int|
                0 <= j < cards.len() && !is_stone(#[trigger] cards[j]) ==> rank_number(cards[j].rank)
                    < rank_number(cards[i].rank) || (rank_number(cards[j].rank) == rank_number(
                    cards[i].rank,
                ) && j <= i)
        },
        high_card_index(cards) is None <==> forall|j: int| 0 <= j < cards.len() ==> is_stone(#[trigger] cards[j]),
    decreases cards.len(),
{
    if cards.len() > 0 {
        let rest = cards.drop_last();
        law_high_card_is_last_highest(rest);
        assert forall|j: int| 0 <= j < rest.len() implies #[trigger] rest[j] == cards[j] by {}
        let n = cards.len() - 1;
        match high_card_index(cards) {
            Some(i) => {
                assert(0 <= i < cards.len() && !is_stone(cards[i])) by {
                    match high_card_index(rest) {
                        Some(k) => {
                            assert(rest[k] == cards[k]);
                        },
                        None => {},
                    }
                }
                assert forall|j: int| 0 <= j < cards.len() && !is_stone(#[trigger] cards[j]) implies rank_number(
                    cards[j].rank,
                ) < rank_number(cards[i].rank) || (rank_number(cards[j].rank) == rank_number(cards[i].rank)
                    && j <= i) by {
                    match high_card_index(rest) {
                        Some(k) => {
                            assert(rest[k] == cards[k]);
                            if j < n {
                                assert(rest[j] == cards[j]);
                                assert(!is_stone(rest[j]));
                            }
                        },
                        None => {
                            if j < n {
                                assert(rest[j] == cards[j]);
                                assert(is_stone(rest[j]));
                            }
                        },
                    }
                }
            },
            None => {
                match high_card_index(rest) {
                    Some(k) => {
                        assert(rest[k] == cards[k]);
                    },
                    None => {},
                }
                assert forall|j: int| 0 <= j < cards.len() implies is_stone(#[trigger] cards[j]) by {
                    if j < n {
                        assert(rest[j] == cards[j]);
                        assert(is_stone(rest[j]));
                    }
                }
            },
        }
    }
}

/// Neighbours of `t` differ by one, or with `shortcut` by one or two.
pub open spec fn neighbours_close(t: Seq<int>, shortcut: bool) -> bool {
    forall|k: int|
        0 <= k < t.len() - 1 ==> #[trigger] t[k + 1] - t[k] == 1 || (shortcut && t[k + 1] - t[k] == 2)
}

/// For distinct ranks, the gap condition of a straight is the familiar one:
/// sort the ranks, and each differs from the next by one (or, with
/// Shortcut, by one or two).
pub proof fn law_gaps_closed_is_sorted_run(s: Seq<int>, shortcut: bool)
    requires
        crate::patterns::distinct_ints(s),
    ensures
        gaps_closed(s, shortcut) <==> neighbours_close(s.sort(), shortcut),
{
    broadcast use vstd::seq_lib::group_to_multiset_ensures;
    broadcast use vstd::multiset::group_multiset_axioms;

    let t = s.sort();
    s.lemma_sort_ensures();
    let leq = |x: int, y: int| x <= y;
    assert(s.no_duplicates());
    s.lemma_multiset_has_no_duplicates();
    t.lemma_multiset_has_no_duplicates_conv();
    assert(t.len() == s.len()) by {
        assert(t.to_multiset().len() == t.len());
        assert(s.to_multiset().len() == s.len());
    }
    assert forall|x: int| #[trigger] s.contains(x) <==> t.contains(x) by {
        assert(s.contains(x) <==> s.to_multiset().count(x) > 0);
        assert(t.contains(x) <==> t.to_multiset().count(x) > 0);
    }
    assert forall|i: int, j: int| 0 <= i < j < t.len() implies #[trigger] t[i] < #[trigger] t[j] by {
        assert(leq(t[i], t[j]));
        assert(t[i] != t[j]);
    }
    if gaps_closed(s, shortcut) {
        assert forall|k: int| 0 <= k < t.len() - 1 implies #[trigger] t[k + 1] - t[k] == 1 || (shortcut && t[k + 1]
            - t[k] == 2) by {
            let x = t[k];
            let y = t[k + 1];
            assert(t.contains(x) && t.contains(y));
            assert(s.contains(x) && s.contains(y));
            let a = choose|a: int| 0 <= a < s.len() && s[a] == x;
            let c = choose|c: int| 0 <= c < s.len() && s[c] == y;
            assert(crate::patterns::has_above(s, s[a])) by {
                assert(s[c] > x);
            }
            assert(has_next(s, s[a], shortcut));
            let b = choose|b: int| 0 <= b < s.len() && (#[trigger] s[b] == s[a] + 1 || (shortcut && s[b] == s[a] + 2));
            assert(s.contains(s[b]));
            assert(t.contains(s[b]));
            let m = choose|m: int| 0 <= m < t.len() && t[m] == s[b];
            if m <= k {
                if m < k {
                    assert(t[m] < t[k]);
                }
            }
            assert(m >= k + 1);
            if m > k + 1 {
                assert(t[k + 1] < t[m]);
            }
        }
    }
    if neighbours_close(t, shortcut) {
        assert forall|a: int| 0 <= a < s.len() && crate::patterns::has_above(s, #[trigger] s[a]) implies has_next(
            s,
            s[a],
            shortcut,
        ) by {
            let x = s[a];
            let c = choose|c: int| 0 <= c < s.len() && #[trigger] s[c] > x;
            assert(s.contains(x) && s.contains(s[c]));
            let k = choose|k: int| 0 <= k < t.len() && t[k] == x;
            let m = choose|m: int| 0 <= m < t.len() && t[m] == s[c];
            if m <= k {
                if m < k {
                    assert(t[m] < t[k]);
                }
            }
            assert(k < t.len() - 1);
            let y = t[k + 1];
            assert(t[k + 1] - t[k] == 1 || (shortcut && t[k + 1] - t[k] == 2));
            assert(t.contains(y));
            assert(s.contains(y));
            let b = choose|b: int| 0 <= b < s.len() && s[b] == y;
            assert(s[b] == s[a] + 1 || (shortcut && s[b] == s[a] + 2));
        }
    }
}

proof fn lemma_rank_count_witness(cards: Seq<Card>, r: int)
    requires
        rank_count(cards, r) > 0,
    ensures
        exists|i: int| 0 <= i < cards.len() && !is_stone(#[trigger] cards[i]) && rank_number(cards[i].rank) == r,
    decreases cards.len(),
{
    let rest = cards.drop_last();
    if rank_count(rest, r) > 0 {
        lemma_rank_count_witness(rest, r);
        let i = choose|i: int| 0 <= i < rest.len() && !is_stone(#[trigger] rest[i]) && rank_number(rest[i].rank) == r;
        assert(cards[i] == rest[i]);
    } else {
        assert(!is_stone(cards[cards.len() - 1]));
    }
}

proof fn lemma_ranked_nonempty(cards: Seq<Card>, t1: int, t2: int)
    requires
        rank_count(cards, t1) > 0,
    ensures
        ranked_indices(cards, t1, t2).len() > 0,
    decreases cards.len(),
{
    let rest = cards.drop_last();
    if rank_count(rest, t1) > 0 {
        lemma_ranked_nonempty(rest, t1, t2);
    }
}

proof fn lemma_highest_found(t: Seq<int>, minimum: int, r: int, q: int)
    requires
        2 <= q <= r,
        q < t.len(),
        t[q] >= minimum,
    ensures
        2 <= crate::selection::highest_rank_at_least(t, minimum, r) <= r,
        t[crate::selection::highest_rank_at_least(t, minimum, r)] >= minimum,
    decreases r,
{
    if !(r < t.len() && t[r] >= minimum) {
        lemma_highest_found(t, minimum, r - 1, q);
    }
}

proof fn lemma_group_nonempty(cards: Seq<Card>, minimum: int)
    requires
        crate::ranks::table_at_least(crate::ranks::count_table(cards), minimum),
        minimum >= 1,
    ensures
        crate::selection::rank_group_spec(cards, crate::ranks::count_table(cards), minimum).len() > 0,
{
    let t = crate::ranks::count_table(cards);
    let q = choose|q: int| 2 <= q <= 14 && #[trigger] t[q] >= minimum;
    lemma_highest_found(t, minimum, 14, q);
    let h = crate::selection::highest_rank_at_least(t, minimum, 14);
    assert(t[h] == rank_count(cards, h));
    lemma_ranked_nonempty(cards, h, h);
}

proof fn lemma_first_pattern_member(cards: Seq<Card>, cs: Seq<Seq<usize>>, straight: bool, flag: bool)
    ensures
        first_with_pattern(cards, cs, straight, flag) matches Some(x) ==> exists|k: int|
            0 <= k < cs.len() && #[trigger] cs[k] == x,
    decreases cs.len(),
{
    if cs.len() > 0 && !crate::patterns::pattern_holds(cards, cs[0], straight, flag) {
        lemma_first_pattern_member(cards, cs.drop_first(), straight, flag);
        if first_with_pattern(cards, cs, straight, flag) is Some {
            let x = first_with_pattern(cards, cs, straight, flag)->0;
            let k = choose|k: int| 0 <= k < cs.drop_first().len() && #[trigger] cs.drop_first()[k] == x;
            assert(cs[k + 1] == x);
        }
    }
}

proof fn lemma_find_nonempty(cards: Seq<Card>, four_fingers: bool, straight: bool, flag: bool)
    ensures
        find_pattern(cards, four_fingers, straight, flag) is Some ==> or_empty(
            find_pattern(cards, four_fingers, straight, flag),
        ).len() >= 4,
{
    lemma_combos(candidates(cards), 5);
    lemma_combos(candidates(cards), 4);
    lemma_first_pattern_member(cards, combos(candidates(cards), 5), straight, flag);
    lemma_first_pattern_member(cards, combos(candidates(cards), 4), straight, flag);
}

proof fn lemma_first_straight_flush_found(cards: Seq<Card>, cs: Seq<Seq<usize>>, shortcut: bool, smeared: bool, k: int)
    requires
        0 <= k < cs.len(),
        straight_spec(cards, cs[k], shortcut) && flush_spec(cards, cs[k], smeared),
    ensures
        first_straight_flush(cards, cs, shortcut, smeared) matches Some(x) && exists|m: int|
            0 <= m < cs.len() && #[trigger] cs[m] == x,
    decreases cs.len(),
{
    if !(straight_spec(cards, cs[0], shortcut) && flush_spec(cards, cs[0], smeared)) {
        assert(cs.drop_first()[k - 1] == cs[k]);
        lemma_first_straight_flush_found(cards, cs.drop_first(), shortcut, smeared, k - 1);
        let x = first_straight_flush(cards, cs, shortcut, smeared)->0;
        let m = choose|m: int| 0 <= m < cs.drop_first().len() && #[trigger] cs.drop_first()[m] == x;
        assert(cs[m + 1] == x);
    } else {
        assert(cs[0] == cs[0]);
    }
}

proof fn lemma_merged_includes(a: Seq<usize>, b: Seq<usize>, n: int, i: int)
    requires
        0 <= i < n,
        a.contains(i as usize),
    ensures
        merged(n, a, b).contains(i as usize),
    decreases n,
{
    let m = merged(n, a, b);
    if i == n - 1 {
        assert(m[m.len() - 1] == i as usize);
    } else {
        lemma_merged_includes(a, b, n - 1, i);
        let q = merged(n - 1, a, b);
        let k = choose|k: int| 0 <= k < q.len() && q[k] == i as usize;
        assert(m[k] == q[k]);
    }
}

/// The poker hand that the played cards make always has cards that score
/// for it; only a High Card can have none, and only when every played card
/// is a stone card.
pub proof fn law_hand_has_scoring_cards(cards: Seq<Card>, jokers: Seq<JokerCard>)
    requires
        cards.len() <= usize::MAX,
    ensures
        hand_of(cards, jokers) != crate::cards::PokerHand::HighCard ==> scored_spec(
            cards,
            hand_of(cards, jokers),
            jokers,
        ).len() > 0,
        hand_of(cards, jokers) == crate::cards::PokerHand::HighCard ==> (scored_spec(
            cards,
            hand_of(cards, jokers),
            jokers,
        ).len() > 0 <==> exists|i: int| 0 <= i < cards.len() && !is_stone(#[trigger] cards[i])),
{
    let hand = hand_of(cards, jokers);
    let four_fingers = has_joker(jokers, Joker::FourFingers);
    let shortcut = has_joker(jokers, Joker::Shortcut);
    let smeared = has_joker(jokers, Joker::SmearedJoker);
    let t = crate::ranks::count_table(cards);
    lemma_candidates(cards);
    law_high_card_is_last_highest(cards);
    lemma_find_nonempty(cards, four_fingers, true, shortcut);
    lemma_find_nonempty(cards, four_fingers, false, smeared);
    lemma_find_nonempty(cards, true, true, shortcut);
    lemma_find_nonempty(cards, true, false, smeared);
    lemma_find_selection(cards, true, true, shortcut);
    match hand {
        PokerHand::FlushFive | PokerHand::FlushHouse | PokerHand::FullHouse => {
            if crate::ranks::table_exactly(t, 5) {
                let q = choose|q: int| 2 <= q <= 14 && #[trigger] t[q] == 5;
                assert(t[q] == rank_count(cards, q));
                lemma_rank_count_witness(cards, q);
            } else {
                let q = choose|q: int| 2 <= q <= 14 && #[trigger] t[q] == 3;
                assert(t[q] == rank_count(cards, q));
                lemma_rank_count_witness(cards, q);
            }
            let i = choose|i: int| 0 <= i < cards.len() && !is_stone(#[trigger] cards[i]) && rank_number(cards[i].rank) > 0;
            assert(candidates(cards).contains(i as usize));
        },
        PokerHand::StraightFlush => {
            if four_fingers {
                let a = or_empty(find_pattern(cards, true, true, shortcut));
                assert(a.len() >= 4);
                assert(well_formed_selection(cards, a));
                assert(a.contains(a[0]));
                lemma_merged_includes(a, or_empty(find_pattern(cards, true, false, smeared)), cards.len() as int, a[0] as int);
            } else {
                let cs = combos(candidates(cards), 5);
                let k = choose|k: int| 0 <= k < cs.len() && straight_spec(cards, #[trigger] cs[k], shortcut) && flush_spec(cards, cs[k], smeared);
                lemma_first_straight_flush_found(cards, cs, shortcut, smeared, k);
                lemma_combos(candidates(cards), 5);
                let x = first_straight_flush(cards, cs, shortcut, smeared)->0;
                let m = choose|m: int| 0 <= m < cs.len() && #[trigger] cs[m] == x;
                assert(combo_ok(candidates(cards), cs[m], 5));
            }
        },
        PokerHand::Flush | PokerHand::Straight => {},
        PokerHand::FiveOfAKind => {
            let q = choose|q: int| 2 <= q <= 14 && #[trigger] t[q] == 5;
            assert(crate::ranks::table_at_least(t, 5)) by {
                assert(t[q] >= 5);
            }
            lemma_group_nonempty(cards, 5);
        },
        PokerHand::FourOfAKind => {
            lemma_group_nonempty(cards, 4);
        },
        PokerHand::ThreeOfAKind => {
            lemma_group_nonempty(cards, 3);
        },
        PokerHand::Pair => {
            lemma_group_nonempty(cards, 2);
        },
        PokerHand::TwoPair => {
            let (r1, r2) = choose|r1: int, r2: int| 2 <= r1 < r2 <= 14 && #[trigger] t[r1] >= 2 && #[trigger] t[r2] >= 2;
            lemma_highest_found(t, 2, 14, r1);
            let h = crate::selection::highest_rank_at_least(t, 2, 14);
            assert(t[h] == rank_count(cards, h));
            let low = crate::selection::highest_rank_at_least(t, 2, h - 1);
            lemma_ranked_nonempty(cards, h, low);
        },
        PokerHand::HighCard => {
            if exists|i: int| 0 <= i < cards.len() && !is_stone(#[trigger] cards[i]) {
                let i = choose|i: int| 0 <= i < cards.len() && !is_stone(#[trigger] cards[i]);
                assert(!is_stone(cards[i]));
            }
        },
    }
}

/// A retriggered card (or a held card under Mime) repeats its whole set of
/// steps: `repeat(s, n)` is `n` complete copies of `s`, one after another.
pub proof fn law_repeat_is_whole_copies(s: Seq<ScoreStep>, n: nat)
    ensures
        crate::score::repeat(s, n).len() == n * s.len(),
        forall|k: int, i: int|
            0 <= k < n && 0 <= i < s.len() ==> #[trigger] crate::score::repeat(s, n)[k * s.len() + i] == s[i],
    decreases n,
{
    if n > 0 {
        let m = (n - 1) as nat;
        law_repeat_is_whole_copies(s, m);
        let r = crate::score::repeat(s, m);
        let len = s.len() as int;
        assert(r.len() == m * len);
        assert(n * len == m * len + len) by (nonlinear_arith)
            requires
                n == m + 1,
        ;
        assert forall|k: int, i: int| 0 <= k < n && 0 <= i < len implies #[trigger] crate::score::repeat(s, n)[k
            * len + i] == s[i] by {
            if k < m {
                assert(k * len + i < m * len) by (nonlinear_arith)
                    requires
                        0 <= k < m,
                        0 <= i < len,
                ;
                assert(0 <= k * len) by (nonlinear_arith)
                    requires
                        0 <= k,
                        0 <= len,
                ;
                assert(crate::score::repeat(s, n)[k * len + i] == r[k * len + i]);
            } else {
                assert(k * len == m * len);
            }
        }
    }
}

} // verus!
