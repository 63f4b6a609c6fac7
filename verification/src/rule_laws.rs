//! What the scoring rules pick, stated over the cards and jokers themselves:
//! the face card that Photograph doubles, the poker hand chosen, the cards
//! that score for a rank-based hand, what a Blueprint copies, and when each
//! basic joker gives its bonus.

use vstd::prelude::*;

use crate::cards::{
    is_face_rank, is_stone, rank_chips, rank_number, suit_matches, Card, Edition, Enhancement, Joker, JokerCard,
    PokerHand, Rank, Suit,
};
use crate::classic::{
    classic_flush_five, classic_flush_house, classic_hand, classic_joker_steps, classic_selection, same_suit_spec,
    sequential_spec,
};
use crate::hands::{
    five_of_a_kind_spec, flush_five_spec, flush_house_spec, full_house_spec, hand_of, has_joker,
    straight_flush_spec,
};
use crate::jokers::effective_at;
use crate::patterns::{candidates, combos, find_pattern, first_with_pattern, flush_spec, lemma_candidates, pattern_holds, straight_spec};
use crate::ranks::{count_table, rank_count, lemma_rank_count_bounds};
use crate::score::{
    base_steps, edition_steps, enhancement_steps, first_face, independent_steps, is_lowest_held, joker_card_steps,
    on_held_steps, on_scored_steps, retrigger_of, scoring_indices, scoring_prefix, MultFactor, ScoreStep,
};
use crate::cards::{is_wild, Round};
use crate::selection::{highest_rank_at_least, rank_group_spec, ranked_indices, scored_spec};

verus! {

// ---------------------------------------------------------------- faces

/// A card that counts as a face card: not a stone card, and a Jack, Queen
/// or King, or any card at all while Pareidolia is in play.
pub open spec fn counts_as_face(card: Card, jokers: Seq<JokerCard>) -> bool {
    !is_stone(card) && (is_face_rank(card.rank) || exists|i: int|
        0 <= i < jokers.len() && #[trigger] jokers[i].joker == Joker::Pareidolia)
}

/// The card that Photograph acts on is the earliest scoring card that counts
/// as a face card; there is none exactly when no scoring card is a face card.
pub proof fn law_photograph_takes_first_face(cards: Seq<Card>, idx: Seq<usize>, jokers: Seq<JokerCard>)
    ensures
        match first_face(cards, idx, jokers) {
            Some(x) => exists|k: int|
                0 <= k < idx.len() && x == idx[k] && counts_as_face(cards[idx[k] as int], jokers) && forall|j: int|
                    0 <= j < k ==> !counts_as_face(#[trigger] cards[idx[j] as int], jokers),
            None => forall|k: int| 0 <= k < idx.len() ==> !counts_as_face(#[trigger] cards[idx[k] as int], jokers),
        },
    decreases idx.len(),
{
    assert(has_joker(jokers, Joker::Pareidolia) == exists|i: int|
        0 <= i < jokers.len() && #[trigger] jokers[i].joker == Joker::Pareidolia);
    if idx.len() > 0 {
        let rest = idx.drop_first();
        law_photograph_takes_first_face(cards, rest, jokers);
        if !counts_as_face(cards[idx[0] as int], jokers) {
            match first_face(cards, rest, jokers) {
                Some(x) => {
                    let k = choose|k: int|
                        0 <= k < rest.len() && x == rest[k] && counts_as_face(cards[rest[k] as int], jokers)
                            && forall|j: int| 0 <= j < k ==> !counts_as_face(#[trigger] cards[rest[j] as int], jokers);
                    assert(idx[k + 1] == rest[k]);
                    assert forall|j: int| 0 <= j < k + 1 implies !counts_as_face(#[trigger] cards[idx[j] as int], jokers) by {
                        if j > 0 {
                            assert(idx[j] == rest[j - 1]);
                        }
                    }
                },
                None => {
                    assert forall|k: int| 0 <= k < idx.len() implies !counts_as_face(#[trigger] cards[idx[k] as int], jokers) by {
                        if k > 0 {
                            assert(idx[k] == rest[k - 1]);
                        }
                    }
                },
            }
        }
    }
}

// ---------------------------------------------------------------- hands

/// The place of a poker hand in the order of hands, lowest first.
pub open spec fn hand_level(hand: PokerHand) -> int {
    match hand {
        PokerHand::HighCard => 0,
        PokerHand::Pair => 1,
        PokerHand::TwoPair => 2,
        PokerHand::ThreeOfAKind => 3,
        PokerHand::Straight => 4,
        PokerHand::Flush => 5,
        PokerHand::FullHouse => 6,
        PokerHand::FourOfAKind => 7,
        PokerHand::StraightFlush => 8,
        PokerHand::FiveOfAKind => 9,
        PokerHand::FlushHouse => 10,
        PokerHand::FlushFive => 11,
    }
}

/// Some rank occurs at least `n` times among the non-stone cards.
pub open spec fn rank_reaches(cards: Seq<Card>, n: int) -> bool {
    exists|r: int| 2 <= r <= 14 && #[trigger] rank_count(cards, r) >= n
}

/// Two different ranks each occur at least twice among the non-stone cards.
pub open spec fn two_ranks_reach_two(cards: Seq<Card>) -> bool {
    exists|r1: int, r2: int|
        2 <= r1 <= 14 && 2 <= r2 <= 14 && r1 != r2 && #[trigger] rank_count(cards, r1) >= 2 && #[trigger] rank_count(
            cards,
            r2,
        ) >= 2
}

proof fn lemma_rank_reaches(cards: Seq<Card>)
    ensures
        forall|n: int| #[trigger] crate::ranks::some_rank_at_least(cards, n) == rank_reaches(cards, n),
        crate::ranks::two_ranks_paired(cards) == two_ranks_reach_two(cards),
{
    let t = count_table(cards);
    assert forall|n: int| #[trigger] crate::ranks::some_rank_at_least(cards, n) == rank_reaches(cards, n) by {
        if rank_reaches(cards, n) {
            let r = choose|r: int| 2 <= r <= 14 && #[trigger] rank_count(cards, r) >= n;
            assert(t[r] >= n);
        }
    }
    if two_ranks_reach_two(cards) {
        let (r1, r2) = choose|r1: int, r2: int|
            2 <= r1 <= 14 && 2 <= r2 <= 14 && r1 != r2 && #[trigger] rank_count(cards, r1) >= 2
                && #[trigger] rank_count(cards, r2) >= 2;
        if r1 < r2 {
            assert(t[r1] >= 2 && t[r2] >= 2);
        } else {
            assert(t[r2] >= 2 && t[r1] >= 2);
        }
    }
    if crate::ranks::two_ranks_paired(cards) {
        let (r1, r2) = choose|r1: int, r2: int| 2 <= r1 < r2 <= 14 && #[trigger] t[r1] >= 2 && #[trigger] t[r2] >= 2;
        assert(rank_count(cards, r1) >= 2 && rank_count(cards, r2) >= 2);
    }
}

/// Whether the played cards make `hand` under the jokers in play.
pub open spec fn makes_hand(cards: Seq<Card>, jokers: Seq<JokerCard>, hand: PokerHand) -> bool {
    let four_fingers = has_joker(jokers, Joker::FourFingers);
    let shortcut = has_joker(jokers, Joker::Shortcut);
    let smeared = has_joker(jokers, Joker::SmearedJoker);
    match hand {
        PokerHand::FlushFive => flush_five_spec(cards, smeared),
        PokerHand::FlushHouse => flush_house_spec(cards, smeared),
        PokerHand::FiveOfAKind => five_of_a_kind_spec(cards),
        PokerHand::StraightFlush => straight_flush_spec(cards, four_fingers, shortcut, smeared),
        PokerHand::FourOfAKind => rank_reaches(cards, 4),
        PokerHand::FullHouse => full_house_spec(cards),
        PokerHand::Flush => find_pattern(cards, four_fingers, false, smeared) is Some,
        PokerHand::Straight => find_pattern(cards, four_fingers, true, shortcut) is Some,
        PokerHand::ThreeOfAKind => rank_reaches(cards, 3),
        PokerHand::TwoPair => two_ranks_reach_two(cards),
        PokerHand::Pair => rank_reaches(cards, 2),
        PokerHand::HighCard => true,
    }
}

/// The poker hand chosen is one the cards make, and no hand they make
/// stands higher.
pub proof fn law_hand_is_highest_made(cards: Seq<Card>, jokers: Seq<JokerCard>, other: PokerHand)
    ensures
        makes_hand(cards, jokers, hand_of(cards, jokers)),
        makes_hand(cards, jokers, other) ==> hand_level(other) <= hand_level(hand_of(cards, jokers)),
{
    lemma_rank_reaches(cards);
}

/// Whether the played cards make `hand` as the command judges them.
pub open spec fn command_makes_hand(cards: Seq<Card>, hand: PokerHand) -> bool {
    match hand {
        PokerHand::FlushFive => classic_flush_five(cards),
        PokerHand::FlushHouse => classic_flush_house(cards),
        PokerHand::FiveOfAKind => five_of_a_kind_spec(cards),
        PokerHand::StraightFlush => sequential_spec(cards) && same_suit_spec(cards),
        PokerHand::FourOfAKind => rank_reaches(cards, 4),
        PokerHand::FullHouse => full_house_spec(cards),
        PokerHand::Flush => same_suit_spec(cards),
        PokerHand::Straight => sequential_spec(cards),
        PokerHand::ThreeOfAKind => rank_reaches(cards, 3),
        PokerHand::TwoPair => two_ranks_reach_two(cards),
        PokerHand::Pair => rank_reaches(cards, 2),
        PokerHand::HighCard => true,
    }
}

/// The command's poker hand is one the cards make, and no hand they make
/// stands higher.
pub proof fn law_command_hand_is_highest_made(cards: Seq<Card>, other: PokerHand)
    ensures
        command_makes_hand(cards, classic_hand(cards)),
        command_makes_hand(cards, other) ==> hand_level(other) <= hand_level(classic_hand(cards)),
{
    lemma_rank_reaches(cards);
}


// ---------------------------------------------------------------- scoring cards

/// The cards picked by rank are exactly the non-stone cards whose rank is
/// numbered `t1` or `t2`, each once, in the order they were played.
pub proof fn law_ranked_cards_exact(cards: Seq<Card>, t1: int, t2: int)
    requires
        cards.len() <= usize::MAX,
    ensures
        forall|k: int|
            0 <= k < ranked_indices(cards, t1, t2).len() ==> {
                let i = #[trigger] ranked_indices(cards, t1, t2)[k] as int;
                &&& i < cards.len()
                &&& !is_stone(cards[i])
                &&& (rank_number(cards[i].rank) == t1 || rank_number(cards[i].rank) == t2)
            },
        forall|i: int|
            0 <= i < cards.len() && !is_stone(cards[i]) && (rank_number(cards[i].rank) == t1 || rank_number(
                cards[i].rank,
            ) == t2) ==> #[trigger] ranked_indices(cards, t1, t2).contains(i as usize),
        forall|a: int, b: int|
            0 <= a < b < ranked_indices(cards, t1, t2).len() ==> ranked_indices(cards, t1, t2)[a]
                < ranked_indices(cards, t1, t2)[b],
    decreases cards.len(),
{
    if cards.len() > 0 {
        let rest = cards.drop_last();
        law_ranked_cards_exact(rest, t1, t2);
        let s0 = ranked_indices(rest, t1, t2);
        let s = ranked_indices(cards, t1, t2);
        let n = cards.len() - 1;
        assert forall|k: int| 0 <= k < s0.len() implies cards[s0[k] as int] == rest[s0[k] as int] by {}
        assert forall|i: int|
            0 <= i < cards.len() && !is_stone(cards[i]) && (rank_number(cards[i].rank) == t1 || rank_number(
                cards[i].rank,
            ) == t2) implies #[trigger] s.contains(i as usize) by {
            if i < n {
                assert(rest[i] == cards[i]);
                assert(s0.contains(i as usize));
                let k = choose|k: int| 0 <= k < s0.len() && s0[k] == i as usize;
                assert(s[k] == s0[k]);
            } else {
                assert(s[s.len() - 1] == n as usize);
            }
        }
    }
}

proof fn lemma_highest_rank(cards: Seq<Card>, minimum: int, r: int)
    requires
        r <= 14,
    ensures
        ({
            let h = highest_rank_at_least(count_table(cards), minimum, r);
            if h == 0 {
                forall|q: int| 2 <= q <= r ==> #[trigger] rank_count(cards, q) < minimum
            } else {
                &&& 2 <= h <= r
                &&& rank_count(cards, h) >= minimum
                &&& forall|q: int| h < q <= r ==> #[trigger] rank_count(cards, q) < minimum
            }
        }),
    decreases r,
{
    if r >= 2 {
        lemma_highest_rank(cards, minimum, r - 1);
    }
}

/// For a rank-based hand, the cards that score are the non-stone cards of
/// the highest rank that occurs at least `minimum` times; none when no rank
/// does.
pub proof fn law_rank_group_is_highest(cards: Seq<Card>, minimum: int)
    ensures
        rank_reaches(cards, minimum) ==> exists|r: int|
            2 <= r <= 14 && rank_count(cards, r) >= minimum && (forall|q: int|
                r < q <= 14 ==> #[trigger] rank_count(cards, q) < minimum) && rank_group_spec(
                cards,
                count_table(cards),
                minimum,
            ) == #[trigger] ranked_indices(cards, r, r),
        !rank_reaches(cards, minimum) ==> rank_group_spec(cards, count_table(cards), minimum).len() == 0,
{
    lemma_highest_rank(cards, minimum, 14);
    let h = highest_rank_at_least(count_table(cards), minimum, 14);
    if h == 0 && rank_reaches(cards, minimum) {
        let r = choose|r: int| 2 <= r <= 14 && #[trigger] rank_count(cards, r) >= minimum;
        assert(rank_count(cards, r) < minimum);
    }
    if h != 0 {
        assert(ranked_indices(cards, h, h) == rank_group_spec(cards, count_table(cards), minimum));
    }
}

/// For Two Pair, the cards that score are the non-stone cards of the two
/// highest ranks that occur at least twice: every one of them has a rank
/// that occurs at least twice, and no other rank that occurs twice is higher
/// than either.
pub proof fn law_two_pair_scores_top_pairs(cards: Seq<Card>, jokers: Seq<JokerCard>)
    requires
        cards.len() <= usize::MAX,
    ensures
        exists|r1: int, r2: int|
            {
                &&& scored_spec(cards, PokerHand::TwoPair, jokers) == #[trigger] ranked_indices(cards, r1, r2)
                &&& (r1 == 0 || (2 <= r1 <= 14 && rank_count(cards, r1) >= 2))
                &&& (r2 == 0 || (2 <= r2 < r1 && rank_count(cards, r2) >= 2))
                &&& forall|q: int|
                    2 <= q <= 14 && q != r1 && q != r2 && #[trigger] rank_count(cards, q) >= 2 ==> q < r2
            },
        forall|k: int|
            0 <= k < scored_spec(cards, PokerHand::TwoPair, jokers).len() ==> rank_count(
                cards,
                rank_number(cards[#[trigger] scored_spec(cards, PokerHand::TwoPair, jokers)[k] as int].rank),
            ) >= 2,
{
    let t = count_table(cards);
    lemma_highest_rank(cards, 2, 14);
    let high = highest_rank_at_least(t, 2, 14);
    let low = if high >= 2 {
        highest_rank_at_least(t, 2, high - 1)
    } else {
        0
    };
    if high >= 2 {
        lemma_highest_rank(cards, 2, high - 1);
    }
    let s = scored_spec(cards, PokerHand::TwoPair, jokers);
    assert(s == ranked_indices(cards, high, low));
    assert forall|q: int|
        2 <= q <= 14 && q != high && q != low && #[trigger] rank_count(cards, q) >= 2 implies q < low by {}
    assert forall|k: int| 0 <= k < s.len() implies rank_count(cards, rank_number(cards[#[trigger] s[k] as int].rank)) >= 2 by {
        law_ranked_cards_exact(cards, high, low);
        assert(s[k] == ranked_indices(cards, high, low)[k]);
    }
}

// ---------------------------------------------------------------- Blueprint

/// A joker that only changes the rules of the hand.
pub open spec fn rule_joker(joker: Joker) -> bool {
    joker == Joker::FourFingers || joker == Joker::Shortcut || joker == Joker::Pareidolia || joker == Joker::Splash
        || joker == Joker::SmearedJoker
}

/// A joker that is not a Blueprint acts as itself. A Blueprint acts as the
/// joker directly to its right, unless that one only changes the rules of
/// the hand (Four Fingers, Shortcut, Pareidolia, Splash, Smeared Joker); a
/// Blueprint next to a Blueprint acts as that one does; a Blueprint at the
/// right end acts as nothing.
pub proof fn law_blueprint_copies_neighbour(jokers: Seq<JokerCard>, i: int)
    requires
        0 <= i < jokers.len(),
    ensures
        jokers[i].joker != Joker::Blueprint ==> effective_at(jokers, i) == Some(jokers[i].joker),
        jokers[i].joker == Joker::Blueprint && i + 1 == jokers.len() ==> effective_at(jokers, i) is None,
        jokers[i].joker == Joker::Blueprint && i + 1 < jokers.len() && jokers[i + 1].joker != Joker::Blueprint
            ==> effective_at(jokers, i) == if rule_joker(jokers[i + 1].joker) {
            None
        } else {
            Some(jokers[i + 1].joker)
        },
        jokers[i].joker == Joker::Blueprint && i + 1 < jokers.len() && jokers[i + 1].joker == Joker::Blueprint
            ==> effective_at(jokers, i) == effective_at(jokers, i + 1),
{
    crate::laws::law_blueprint_copies_right(jokers, i);
    if i + 1 < jokers.len() {
        crate::laws::law_blueprint_copies_right(jokers, i + 1);
    }
}

// ---------------------------------------------------------------- joker bonuses

/// The command's joker bonuses: Joker +4 mult; Jolly +8 mult and Sly +50
/// chips when some rank occurs twice; Zany +12 mult and Wily +100 chips when
/// some rank occurs three times; Mad +10 mult and Clever +80 chips when two
/// different ranks each occur twice; The Order x3 mult and Devious +100
/// chips on a straight; The Tribe x2 mult and Crafty +80 chips on a flush;
/// Abstract +3 mult per joker card; every other joker nothing.
pub proof fn law_command_joker_bonuses(played: Seq<Card>, joker_count: nat)
    ensures
        classic_joker_steps(Joker::Joker, played, joker_count) == seq![ScoreStep::AddMult(4)],
        classic_joker_steps(Joker::JollyJoker, played, joker_count) == if rank_reaches(played, 2) {
            seq![ScoreStep::AddMult(8)]
        } else {
            Seq::empty()
        },
        classic_joker_steps(Joker::ZanyJoker, played, joker_count) == if rank_reaches(played, 3) {
            seq![ScoreStep::AddMult(12)]
        } else {
            Seq::empty()
        },
        classic_joker_steps(Joker::MadJoker, played, joker_count) == if two_ranks_reach_two(played) {
            seq![ScoreStep::AddMult(10)]
        } else {
            Seq::empty()
        },
        classic_joker_steps(Joker::TheOrder, played, joker_count) == if sequential_spec(played) {
            seq![ScoreStep::TimesMult(MultFactor::Triple)]
        } else {
            Seq::empty()
        },
        classic_joker_steps(Joker::TheTribe, played, joker_count) == if same_suit_spec(played) {
            seq![ScoreStep::TimesMult(MultFactor::Double)]
        } else {
            Seq::empty()
        },
        classic_joker_steps(Joker::SlyJoker, played, joker_count) == if rank_reaches(played, 2) {
            seq![ScoreStep::AddChips(50)]
        } else {
            Seq::empty()
        },
        classic_joker_steps(Joker::WilyJoker, played, joker_count) == if rank_reaches(played, 3) {
            seq![ScoreStep::AddChips(100)]
        } else {
            Seq::empty()
        },
        classic_joker_steps(Joker::CleverJoker, played, joker_count) == if two_ranks_reach_two(played) {
            seq![ScoreStep::AddChips(80)]
        } else {
            Seq::empty()
        },
        classic_joker_steps(Joker::DeviousJoker, played, joker_count) == if sequential_spec(played) {
            seq![ScoreStep::AddChips(100)]
        } else {
            Seq::empty()
        },
        classic_joker_steps(Joker::CraftyJoker, played, joker_count) == if same_suit_spec(played) {
            seq![ScoreStep::AddChips(80)]
        } else {
            Seq::empty()
        },
        classic_joker_steps(Joker::AbstractJoker, played, joker_count) == seq![
            ScoreStep::AddMult((3 * joker_count) as u128),
        ],
        forall|j: Joker|
            !basic_joker(j) && j != Joker::AbstractJoker ==> #[trigger] classic_joker_steps(
                j,
                played,
                joker_count,
            ).len() == 0,
{
    lemma_rank_reaches(played);
}

/// The jokers that give a bonus of their own in the command's scoring,
/// besides the Abstract Joker.
pub open spec fn basic_joker(j: Joker) -> bool {
    j == Joker::Joker || j == Joker::JollyJoker || j == Joker::ZanyJoker || j == Joker::MadJoker || j
        == Joker::TheOrder || j == Joker::TheTribe || j == Joker::SlyJoker || j == Joker::WilyJoker || j
        == Joker::CleverJoker || j == Joker::DeviousJoker || j == Joker::CraftyJoker
}

/// The same bonuses in the full scoring, where the straight and the flush
/// are those found under Four Fingers, Shortcut and Smeared Joker, and the
/// Abstract Joker counts every joker card in play.
pub proof fn law_joker_bonuses(played: Seq<Card>, scored: Seq<Card>, held: Seq<Card>, jokers: Seq<JokerCard>)
    ensures
        ({
            let four_fingers = has_joker(jokers, Joker::FourFingers);
            let straight = find_pattern(played, four_fingers, true, has_joker(jokers, Joker::Shortcut)) is Some;
            let flush = find_pattern(played, four_fingers, false, has_joker(jokers, Joker::SmearedJoker)) is Some;
            &&& independent_steps(Joker::Joker, played, scored, held, jokers) == seq![ScoreStep::AddMult(4)]
            &&& independent_steps(Joker::JollyJoker, played, scored, held, jokers) == if rank_reaches(played, 2) {
                seq![ScoreStep::AddMult(8)]
            } else {
                Seq::empty()
            }
            &&& independent_steps(Joker::ZanyJoker, played, scored, held, jokers) == if rank_reaches(played, 3) {
                seq![ScoreStep::AddMult(12)]
            } else {
                Seq::empty()
            }
            &&& independent_steps(Joker::MadJoker, played, scored, held, jokers) == if two_ranks_reach_two(played) {
                seq![ScoreStep::AddMult(10)]
            } else {
                Seq::empty()
            }
            &&& independent_steps(Joker::TheOrder, played, scored, held, jokers) == if straight {
                seq![ScoreStep::TimesMult(MultFactor::Triple)]
            } else {
                Seq::empty()
            }
            &&& independent_steps(Joker::TheTribe, played, scored, held, jokers) == if flush {
                seq![ScoreStep::TimesMult(MultFactor::Double)]
            } else {
                Seq::empty()
            }
            &&& independent_steps(Joker::SlyJoker, played, scored, held, jokers) == if rank_reaches(played, 2) {
                seq![ScoreStep::AddChips(50)]
            } else {
                Seq::empty()
            }
            &&& independent_steps(Joker::WilyJoker, played, scored, held, jokers) == if rank_reaches(played, 3) {
                seq![ScoreStep::AddChips(100)]
            } else {
                Seq::empty()
            }
            &&& independent_steps(Joker::CleverJoker, played, scored, held, jokers) == if two_ranks_reach_two(
                played,
            ) {
                seq![ScoreStep::AddChips(80)]
            } else {
                Seq::empty()
            }
            &&& independent_steps(Joker::DeviousJoker, played, scored, held, jokers) == if straight {
                seq![ScoreStep::AddChips(100)]
            } else {
                Seq::empty()
            }
            &&& independent_steps(Joker::CraftyJoker, played, scored, held, jokers) == if flush {
                seq![ScoreStep::AddChips(80)]
            } else {
                Seq::empty()
            }
            &&& independent_steps(Joker::AbstractJoker, played, scored, held, jokers) == seq![
                ScoreStep::AddMult((3 * jokers.len()) as u128),
            ]
        }),
{
    lemma_rank_reaches(played);
}


// ---------------------------------------------------------------- card effects

/// What a scored card gives by itself: 50 chips for a stone card, else its
/// rank's chips; +30 chips for Bonus, +4 mult for Mult, x2 mult for Glass;
/// +50 chips for Foil, +10 mult for Holographic, x1.5 mult for Polychrome.
pub proof fn law_card_effects(card: Card)
    ensures
        base_steps(card) == if is_stone(card) {
            seq![ScoreStep::AddChips(50)]
        } else {
            seq![ScoreStep::AddChips(rank_chips(card.rank) as u128)]
        },
        card.enhancement == Some(Enhancement::Bonus) ==> enhancement_steps(card) == seq![ScoreStep::AddChips(30)],
        card.enhancement == Some(Enhancement::Mult) ==> enhancement_steps(card) == seq![ScoreStep::AddMult(4)],
        card.enhancement == Some(Enhancement::Glass) ==> enhancement_steps(card) == seq![
            ScoreStep::TimesMult(MultFactor::Double),
        ],
        card.enhancement != Some(Enhancement::Bonus) && card.enhancement != Some(Enhancement::Mult)
            && card.enhancement != Some(Enhancement::Glass) ==> enhancement_steps(card).len() == 0,
        card.edition == Some(Edition::Foil) ==> edition_steps(card) == seq![ScoreStep::AddChips(50)],
        card.edition == Some(Edition::Holographic) ==> edition_steps(card) == seq![ScoreStep::AddMult(10)],
        card.edition == Some(Edition::Polychrome) ==> edition_steps(card) == seq![
            ScoreStep::TimesMult(MultFactor::OneAndAHalf),
        ],
        card.edition is None ==> edition_steps(card).len() == 0,
{
}

/// What a joker does when a card is scored. Nothing for a stone card.
/// Otherwise: Greedy +3 mult for a Diamond, Lusty +3 mult for a Heart,
/// Arrowhead +50 chips for a Spade, Onyx Agate +7 mult for a Club (suits as
/// Wild cards and Smeared Joker widen them); Fibonacci +8 mult for an Ace, 2,
/// 3, 5 or 8; Even Steven +4 mult for a 2, 4, 6, 8 or 10; Odd Todd +31 chips
/// for an Ace, 3, 5, 7 or 9; Scholar +20 chips and +4 mult for an Ace;
/// Walkie Talkie +10 chips and +4 mult for a 10 or a 4; Scary Face +30 chips
/// and Smiley Face +5 mult for a face card; Photograph x2 mult for the first
/// face card; every other joker nothing.
pub proof fn law_on_scored_effects(card: Card, jokers: Seq<JokerCard>, first_face_card: bool)
    ensures
        is_stone(card) ==> forall|j: Joker| #[trigger] on_scored_steps(j, card, jokers, first_face_card).len() == 0,
        !is_stone(card) ==> ({
            let smeared = has_joker(jokers, Joker::SmearedJoker);
            let n = rank_number(card.rank);
            &&& on_scored_steps(Joker::GreedyJoker, card, jokers, first_face_card) == if suit_matches(
                card,
                Suit::Diamonds,
                smeared,
            ) {
                seq![ScoreStep::AddMult(3)]
            } else {
                Seq::empty()
            }
            &&& on_scored_steps(Joker::LustyJoker, card, jokers, first_face_card) == if suit_matches(
                card,
                Suit::Hearts,
                smeared,
            ) {
                seq![ScoreStep::AddMult(3)]
            } else {
                Seq::empty()
            }
            &&& on_scored_steps(Joker::Arrowhead, card, jokers, first_face_card) == if suit_matches(
                card,
                Suit::Spades,
                smeared,
            ) {
                seq![ScoreStep::AddChips(50)]
            } else {
                Seq::empty()
            }
            &&& on_scored_steps(Joker::OnyxAgate, card, jokers, first_face_card) == if suit_matches(
                card,
                Suit::Clubs,
                smeared,
            ) {
                seq![ScoreStep::AddMult(7)]
            } else {
                Seq::empty()
            }
            &&& on_scored_steps(Joker::Fibonacci, card, jokers, first_face_card) == if n == 14 || n == 2 || n == 3
                || n == 5 || n == 8 {
                seq![ScoreStep::AddMult(8)]
            } else {
                Seq::empty()
            }
            &&& on_scored_steps(Joker::EvenSteven, card, jokers, first_face_card) == if n == 2 || n == 4 || n == 6
                || n == 8 || n == 10 {
                seq![ScoreStep::AddMult(4)]
            } else {
                Seq::empty()
            }
            &&& on_scored_steps(Joker::OddTodd, card, jokers, first_face_card) == if n == 14 || n == 3 || n == 5
                || n == 7 || n == 9 {
                seq![ScoreStep::AddChips(31)]
            } else {
                Seq::empty()
            }
            &&& on_scored_steps(Joker::Scholar, card, jokers, first_face_card) == if n == 14 {
                seq![ScoreStep::AddChips(20), ScoreStep::AddMult(4)]
            } else {
                Seq::empty()
            }
            &&& on_scored_steps(Joker::WalkieTalkie, card, jokers, first_face_card) == if n == 10 || n == 4 {
                seq![ScoreStep::AddChips(10), ScoreStep::AddMult(4)]
            } else {
                Seq::empty()
            }
            &&& on_scored_steps(Joker::ScaryFace, card, jokers, first_face_card) == if counts_as_face(card, jokers) {
                seq![ScoreStep::AddChips(30)]
            } else {
                Seq::empty()
            }
            &&& on_scored_steps(Joker::SmileyFace, card, jokers, first_face_card) == if counts_as_face(
                card,
                jokers,
            ) {
                seq![ScoreStep::AddMult(5)]
            } else {
                Seq::empty()
            }
            &&& on_scored_steps(Joker::Photograph, card, jokers, first_face_card) == if first_face_card {
                seq![ScoreStep::TimesMult(MultFactor::Double)]
            } else {
                Seq::empty()
            }
        }),
        forall|j: Joker|
            !on_scored_joker(j) ==> #[trigger] on_scored_steps(j, card, jokers, first_face_card).len() == 0,
{
    assert(has_joker(jokers, Joker::Pareidolia) == exists|i: int|
        0 <= i < jokers.len() && #[trigger] jokers[i].joker == Joker::Pareidolia);
}

/// The jokers that act when a card is scored.
pub open spec fn on_scored_joker(j: Joker) -> bool {
    j == Joker::GreedyJoker || j == Joker::LustyJoker || j == Joker::Arrowhead || j == Joker::OnyxAgate || j
        == Joker::Fibonacci || j == Joker::EvenSteven || j == Joker::OddTodd || j == Joker::Scholar || j
        == Joker::WalkieTalkie || j == Joker::ScaryFace || j == Joker::SmileyFace || j == Joker::Photograph
}

/// How often a joker retriggers a scored card: Sock and Buskin once for a
/// face card, Hack once for a non-stone 2, 3, 4 or 5, Hanging Chad twice for
/// the first scored card; every other joker never.
pub proof fn law_retriggers(card: Card, jokers: Seq<JokerCard>, first_card: bool, j: Joker)
    ensures
        retrigger_of(Joker::SockAndBuskin, card, jokers, first_card) == if counts_as_face(card, jokers) {
            1nat
        } else {
            0nat
        },
        retrigger_of(Joker::Hack, card, jokers, first_card) == if !is_stone(card) && 2 <= rank_number(card.rank)
            <= 5 {
            1nat
        } else {
            0nat
        },
        retrigger_of(Joker::HangingChad, card, jokers, first_card) == if first_card {
            2nat
        } else {
            0nat
        },
        j != Joker::SockAndBuskin && j != Joker::Hack && j != Joker::HangingChad ==> retrigger_of(
            j,
            card,
            jokers,
            first_card,
        ) == 0,
{
    assert(has_joker(jokers, Joker::Pareidolia) == exists|i: int|
        0 <= i < jokers.len() && #[trigger] jokers[i].joker == Joker::Pareidolia);
}

/// What a joker does for a card held in hand: nothing for a stone card;
/// otherwise Raised Fist adds twice the rank's chips as mult for the
/// rightmost of the lowest-ranked held cards, Baron x1.5 mult for a King,
/// Shoot The Moon +13 mult for a Queen; every other joker nothing.
pub proof fn law_on_held_effects(index: int, card: Card, held: Seq<Card>, j: Joker)
    ensures
        is_stone(card) ==> on_held_steps(j, index, card, held).len() == 0,
        !is_stone(card) ==> on_held_steps(Joker::RaisedFist, index, card, held) == if is_lowest_held(held, index) {
            seq![ScoreStep::AddMult((2 * rank_chips(card.rank)) as u128)]
        } else {
            Seq::empty()
        },
        !is_stone(card) ==> on_held_steps(Joker::Baron, index, card, held) == if card.rank == Rank::King {
            seq![ScoreStep::TimesMult(MultFactor::OneAndAHalf)]
        } else {
            Seq::empty()
        },
        !is_stone(card) ==> on_held_steps(Joker::ShootTheMoon, index, card, held) == if card.rank == Rank::Queen {
            seq![ScoreStep::AddMult(13)]
        } else {
            Seq::empty()
        },
        j != Joker::RaisedFist && j != Joker::Baron && j != Joker::ShootTheMoon ==> on_held_steps(
            j,
            index,
            card,
            held,
        ).len() == 0,
{
}


// ---------------------------------------------------------------- which cards score

proof fn lemma_scoring_prefix_exact(cards: Seq<Card>, hand_cards: Seq<usize>, splash: bool, n: int)
    requires
        0 <= n <= cards.len(),
        cards.len() <= usize::MAX,
    ensures
        forall|k: int|
            0 <= k < scoring_prefix(cards, hand_cards, splash, n).len() ==> {
                let i = #[trigger] scoring_prefix(cards, hand_cards, splash, n)[k];
                &&& i < n
                &&& (hand_cards.contains(i) || splash || is_stone(cards[i as int]))
            },
        forall|i: int|
            0 <= i < n && (hand_cards.contains(i as usize) || splash || is_stone(cards[i])) ==> #[trigger] scoring_prefix(
                cards,
                hand_cards,
                splash,
                n,
            ).contains(i as usize),
        forall|a: int, b: int|
            0 <= a < b < scoring_prefix(cards, hand_cards, splash, n).len() ==> scoring_prefix(
                cards,
                hand_cards,
                splash,
                n,
            )[a] < scoring_prefix(cards, hand_cards, splash, n)[b],
    decreases n,
{
    if n > 0 {
        lemma_scoring_prefix_exact(cards, hand_cards, splash, n - 1);
        let s0 = scoring_prefix(cards, hand_cards, splash, n - 1);
        let s = scoring_prefix(cards, hand_cards, splash, n);
        assert forall|i: int|
            0 <= i < n && (hand_cards.contains(i as usize) || splash || is_stone(cards[i])) implies #[trigger] s.contains(
            i as usize,
        ) by {
            if i < n - 1 {
                assert(s0.contains(i as usize));
                let k = choose|k: int| 0 <= k < s0.len() && s0[k] == i as usize;
                assert(s[k] == s0[k]);
            } else {
                assert(s[s.len() - 1] == i as usize);
            }
        }
    }
}

/// The played cards that score are exactly, in the order played and each
/// once, those that make the poker hand, every stone card, and with Splash
/// in play every card.
pub proof fn law_scoring_cards_exact(round: Round)
    requires
        round.cards_played@.len() <= usize::MAX,
    ensures
        ({
            let cards = round.cards_played@;
            let jokers = round.jokers@;
            let hand_cards = scored_spec(cards, hand_of(cards, jokers), jokers);
            let splash = has_joker(jokers, Joker::Splash);
            let s = scoring_indices(round);
            &&& forall|k: int|
                0 <= k < s.len() ==> #[trigger] s[k] < cards.len() && (hand_cards.contains(s[k]) || splash
                    || is_stone(cards[s[k] as int]))
            &&& forall|i: int|
                0 <= i < cards.len() && (hand_cards.contains(i as usize) || splash || is_stone(cards[i]))
                    ==> #[trigger] s.contains(i as usize)
            &&& forall|a: int, b: int| 0 <= a < b < s.len() ==> s[a] < s[b]
        }),
{
    let cards = round.cards_played@;
    let jokers = round.jokers@;
    lemma_scoring_prefix_exact(
        cards,
        scored_spec(cards, hand_of(cards, jokers), jokers),
        has_joker(jokers, Joker::Splash),
        cards.len() as int,
    );
}

// ---------------------------------------------------------------- joker cards

/// A joker card's Foil (+50 chips) or Holographic (+10 mult) edition acts
/// before its ability, its Polychrome (x1.5 mult) after; a joker card that
/// acts as nothing gives only its edition.
pub proof fn law_joker_card_editions(
    index: int,
    played: Seq<Card>,
    scored: Seq<Card>,
    held: Seq<Card>,
    jokers: Seq<JokerCard>,
)
    requires
        0 <= index < jokers.len(),
    ensures
        ({
            let ability = match effective_at(jokers, index) {
                Some(a) => independent_steps(a, played, scored, held, jokers),
                None => Seq::empty(),
            };
            let steps = joker_card_steps(index, played, scored, held, jokers);
            &&& jokers[index].edition == Some(Edition::Foil) ==> steps == seq![ScoreStep::AddChips(50)] + ability
            &&& jokers[index].edition == Some(Edition::Holographic) ==> steps == seq![ScoreStep::AddMult(10)]
                + ability
            &&& jokers[index].edition == Some(Edition::Polychrome) ==> steps == ability.push(
                ScoreStep::TimesMult(MultFactor::OneAndAHalf),
            )
            &&& jokers[index].edition is None ==> steps == ability
        }),
{
    let ability = match effective_at(jokers, index) {
        Some(a) => independent_steps(a, played, scored, held, jokers),
        None => Seq::empty(),
    };
    assert(Seq::<ScoreStep>::empty() + ability + Seq::<ScoreStep>::empty() =~= ability);
    assert(Seq::<ScoreStep>::empty() + ability + seq![ScoreStep::TimesMult(MultFactor::OneAndAHalf)] =~= ability.push(
        ScoreStep::TimesMult(MultFactor::OneAndAHalf),
    ));
    assert(seq![ScoreStep::AddChips(50)] + ability + Seq::<ScoreStep>::empty() =~= seq![ScoreStep::AddChips(50)]
        + ability);
    assert(seq![ScoreStep::AddMult(10)] + ability + Seq::<ScoreStep>::empty() =~= seq![ScoreStep::AddMult(10)]
        + ability);
}

/// Blackboard gives x3 mult exactly when every card held in hand is wild, a
/// Spade or a Club; the jokers that act when cards are scored or held, and
/// those that change the rules, give nothing at this stage.
pub proof fn law_blackboard_and_quiet_jokers(
    played: Seq<Card>,
    scored: Seq<Card>,
    held: Seq<Card>,
    jokers: Seq<JokerCard>,
    j: Joker,
)
    ensures
        independent_steps(Joker::Blackboard, played, scored, held, jokers) == if forall|i: int|
            0 <= i < held.len() ==> is_wild(#[trigger] held[i]) || held[i].suit == Suit::Spades || held[i].suit
                == Suit::Clubs {
            seq![ScoreStep::TimesMult(MultFactor::Triple)]
        } else {
            Seq::empty()
        },
        on_scored_joker(j) || rule_joker(j) || j == Joker::RaisedFist || j == Joker::Baron || j
            == Joker::ShootTheMoon || j == Joker::SockAndBuskin || j == Joker::Hack || j == Joker::HangingChad || j
            == Joker::Mime || j == Joker::Blueprint ==> independent_steps(j, played, scored, held, jokers).len() == 0,
{
}


// ---------------------------------------------------------------- cards that make the hand

/// `s` names, in order and each once, exactly the non-stone cards.
pub open spec fn every_non_stone(cards: Seq<Card>, s: Seq<usize>) -> bool {
    &&& forall|k: int| 0 <= k < s.len() ==> #[trigger] s[k] < cards.len() && !is_stone(cards[s[k] as int])
    &&& forall|i: int| 0 <= i < cards.len() && !is_stone(cards[i]) ==> #[trigger] s.contains(i as usize)
    &&& forall|a: int, b: int| 0 <= a < b < s.len() ==> s[a] < s[b]
}

/// `s` names the non-stone cards of the highest rank that occurs at least
/// `minimum` times, or nothing when no rank does.
pub open spec fn top_rank_group(cards: Seq<Card>, minimum: int, s: Seq<usize>) -> bool {
    &&& rank_reaches(cards, minimum) ==> exists|r: int|
        2 <= r <= 14 && rank_count(cards, r) >= minimum && (forall|q: int|
            r < q <= 14 ==> #[trigger] rank_count(cards, q) < minimum) && s == #[trigger] ranked_indices(cards, r, r)
    &&& !rank_reaches(cards, minimum) ==> s.len() == 0
}

proof fn lemma_found_pattern(cards: Seq<Card>, cs: Seq<Seq<usize>>, straight: bool, flag: bool)
    ensures
        first_with_pattern(cards, cs, straight, flag) matches Some(x) ==> pattern_holds(cards, x, straight, flag)
            && exists|k: int| 0 <= k < cs.len() && #[trigger] cs[k] == x,
    decreases cs.len(),
{
    if cs.len() > 0 && !pattern_holds(cards, cs[0], straight, flag) {
        lemma_found_pattern(cards, cs.drop_first(), straight, flag);
        if first_with_pattern(cards, cs, straight, flag) is Some {
            let x = first_with_pattern(cards, cs, straight, flag)->0;
            let k = choose|k: int| 0 <= k < cs.drop_first().len() && #[trigger] cs.drop_first()[k] == x;
            assert(cs[k + 1] == x);
        }
    }
}

proof fn lemma_found_size(cards: Seq<Card>, four_fingers: bool, straight: bool, flag: bool)
    ensures
        find_pattern(cards, four_fingers, straight, flag) matches Some(x) ==> pattern_holds(cards, x, straight, flag)
            && (x.len() == 5 || (four_fingers && x.len() == 4)),
{
    let c5 = combos(candidates(cards), 5);
    let c4 = combos(candidates(cards), 4);
    lemma_found_pattern(cards, c5, straight, flag);
    lemma_found_pattern(cards, c4, straight, flag);
    if let Some(x) = first_with_pattern(cards, c5, straight, flag) {
        let k = choose|k: int| 0 <= k < c5.len() && #[trigger] c5[k] == x;
        crate::hand_laws::lemma_combos_sound(cards, candidates(cards), 5, k);
    } else if four_fingers {
        if let Some(x) = first_with_pattern(cards, c4, straight, flag) {
            let k = choose|k: int| 0 <= k < c4.len() && #[trigger] c4[k] == x;
            crate::hand_laws::lemma_combos_sound(cards, candidates(cards), 4, k);
        }
    }
}

/// Which played cards score for each poker hand: every non-stone card for
/// Flush Five, Flush House and Full House; five cards (four with Four
/// Fingers) that form the flush, or the straight, that was found; the
/// non-stone cards of the highest rank reaching two, three, four or five
/// for Pair, Three, Four and Five of a Kind; and for High Card the last of
/// the highest-ranked non-stone cards.
pub proof fn law_scored_cards_by_hand(cards: Seq<Card>, jokers: Seq<JokerCard>)
    requires
        cards.len() <= usize::MAX,
    ensures
        ({
            let four_fingers = has_joker(jokers, Joker::FourFingers);
            let shortcut = has_joker(jokers, Joker::Shortcut);
            let smeared = has_joker(jokers, Joker::SmearedJoker);
            let flush = scored_spec(cards, PokerHand::Flush, jokers);
            let straight = scored_spec(cards, PokerHand::Straight, jokers);
            let high = scored_spec(cards, PokerHand::HighCard, jokers);
            &&& every_non_stone(cards, scored_spec(cards, PokerHand::FlushFive, jokers))
            &&& every_non_stone(cards, scored_spec(cards, PokerHand::FlushHouse, jokers))
            &&& every_non_stone(cards, scored_spec(cards, PokerHand::FullHouse, jokers))
            &&& find_pattern(cards, four_fingers, false, smeared) is Some ==> flush_spec(cards, flush, smeared) && (
            flush.len() == 5 || (four_fingers && flush.len() == 4))
            &&& find_pattern(cards, four_fingers, true, shortcut) is Some ==> straight_spec(cards, straight, shortcut)
                && (straight.len() == 5 || (four_fingers && straight.len() == 4))
            &&& top_rank_group(cards, 2, scored_spec(cards, PokerHand::Pair, jokers))
            &&& top_rank_group(cards, 3, scored_spec(cards, PokerHand::ThreeOfAKind, jokers))
            &&& top_rank_group(cards, 4, scored_spec(cards, PokerHand::FourOfAKind, jokers))
            &&& top_rank_group(cards, 5, scored_spec(cards, PokerHand::FiveOfAKind, jokers))
            &&& high.len() <= 1
            &&& high.len() == 0 <==> forall|j: int| 0 <= j < cards.len() ==> is_stone(#[trigger] cards[j])
            &&& high.len() == 1 ==> {
                let i = high[0] as int;
                &&& 0 <= i < cards.len()
                &&& !is_stone(cards[i])
                &&& forall|j: int|
                    0 <= j < cards.len() && !is_stone(#[trigger] cards[j]) ==> rank_number(cards[j].rank)
                        < rank_number(cards[i].rank) || (rank_number(cards[j].rank) == rank_number(cards[i].rank)
                        && j <= i)
            }
        }),
{
    let four_fingers = has_joker(jokers, Joker::FourFingers);
    let shortcut = has_joker(jokers, Joker::Shortcut);
    let smeared = has_joker(jokers, Joker::SmearedJoker);
    lemma_candidates(cards);
    let c = candidates(cards);
    assert forall|i: int| 0 <= i < cards.len() && !is_stone(cards[i]) implies #[trigger] c.contains(i as usize) by {}
    lemma_found_size(cards, four_fingers, false, smeared);
    lemma_found_size(cards, four_fingers, true, shortcut);
    law_rank_group_is_highest(cards, 2);
    law_rank_group_is_highest(cards, 3);
    law_rank_group_is_highest(cards, 4);
    law_rank_group_is_highest(cards, 5);
    crate::laws::law_high_card_is_last_highest(cards);
}


/// Which played cards the command scores for each poker hand: every
/// non-stone card for the hands that use them all (Flush Five, Flush House,
/// Straight Flush, Full House, Flush, Straight); the non-stone cards of the
/// highest rank reaching two, three or four for Pair, Three and Four of a
/// Kind; the same two pairs as the full scoring; and the same high card.
pub proof fn law_command_scored_cards(cards: Seq<Card>, jokers: Seq<JokerCard>)
    requires
        cards.len() <= usize::MAX,
    ensures
        every_non_stone(cards, classic_selection(cards, PokerHand::FlushFive)),
        every_non_stone(cards, classic_selection(cards, PokerHand::FlushHouse)),
        every_non_stone(cards, classic_selection(cards, PokerHand::StraightFlush)),
        every_non_stone(cards, classic_selection(cards, PokerHand::FullHouse)),
        every_non_stone(cards, classic_selection(cards, PokerHand::Flush)),
        every_non_stone(cards, classic_selection(cards, PokerHand::Straight)),
        top_rank_group(cards, 2, classic_selection(cards, PokerHand::Pair)),
        top_rank_group(cards, 3, classic_selection(cards, PokerHand::ThreeOfAKind)),
        top_rank_group(cards, 4, classic_selection(cards, PokerHand::FourOfAKind)),
        classic_selection(cards, PokerHand::TwoPair) == scored_spec(cards, PokerHand::TwoPair, jokers),
        classic_selection(cards, PokerHand::HighCard) == scored_spec(cards, PokerHand::HighCard, jokers),
{
    lemma_candidates(cards);
    let c = candidates(cards);
    assert forall|i: int| 0 <= i < cards.len() && !is_stone(cards[i]) implies #[trigger] c.contains(i as usize) by {}
    law_rank_group_is_highest(cards, 2);
    law_rank_group_is_highest(cards, 3);
    law_rank_group_is_highest(cards, 4);
}

} // verus!
