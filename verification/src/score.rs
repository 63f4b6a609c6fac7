//! Scoring a round: the chips and mult of the poker hand, then, in order,
//! every change that the scored cards, the held cards and the jokers make.

use vstd::prelude::*;

use crate::cards::{
    card_is_stone, card_is_wild, card_matches_suit, hand_base, hand_value, is_face, is_face_rank,
    is_stone, is_wild, rank_chips, rank_value, suit_matches, Card, Edition, Enhancement, Joker,
    JokerCard, PokerHand, Rank, Round, Suit,
};
use crate::hands::{determine_poker_hand, has_joker, hand_of, joker_in_play};
use crate::jokers::{
    effective_abilities, effective_at, effective_joker_at, effective_jokers, flower_pot_matches,
    flower_pot_spec, get_lowest_rank_card_index, is_lowest_rank_index,
};
use crate::patterns::{find_pattern, is_flush, is_straight};
use crate::ranks::{contains_pair, contains_three_of_a_kind, contains_two_pair, some_rank_at_least, two_ranks_paired};
use crate::selection::{get_scored_indices, holds_index, scored_spec};

verus! {

/// The factors by which a step can multiply the mult.
#[derive(Clone, Copy, Debug, PartialEq, Eq, Structural)]
pub enum MultFactor {
    /// x1.5
    OneAndAHalf,
    /// x2
    Double,
    /// x3
    Triple,
}

/// One change to the running chips and mult.
#[derive(Clone, Copy, Debug, PartialEq, Eq, Structural)]
pub enum ScoreStep {
    /// Add to the chips.
    AddChips(u128),
    /// Add to the mult.
    AddMult(u128),
    /// Multiply the mult.
    TimesMult(MultFactor),
}

/// The scoring of a round: the poker hand, the chips and mult it starts
/// from, and the changes made to them, in the order they are made. The
/// score is the final chips times the final mult, rounded down.
#[derive(Debug)]
pub struct ScoreTrace {
    pub hand: PokerHand,
    pub chips: u64,
    pub mult: u64,
    pub steps: Vec<ScoreStep>,
}

/// Whether a card counts as a face card: never a stone card; otherwise a
/// face rank, or any card at all while Pareidolia is in play.
pub open spec fn face_card(card: Card, jokers: Seq<JokerCard>) -> bool {
    !is_stone(card) && (is_face_rank(card.rank) || has_joker(jokers, Joker::Pareidolia))
}

/// The chips a scored card gives by itself.
pub open spec fn base_steps(card: Card) -> Seq<ScoreStep> {
    if is_stone(card) {
        seq![ScoreStep::AddChips(50)]
    } else {
        seq![ScoreStep::AddChips(rank_chips(card.rank) as u128)]
    }
}

/// What the enhancement of a scored card gives.
pub open spec fn enhancement_steps(card: Card) -> Seq<ScoreStep> {
    match card.enhancement {
        Some(Enhancement::Bonus) => seq![ScoreStep::AddChips(30)],
        Some(Enhancement::Mult) => seq![ScoreStep::AddMult(4)],
        Some(Enhancement::Glass) => seq![ScoreStep::TimesMult(MultFactor::Double)],
        _ => Seq::empty(),
    }
}

/// What the edition of a scored card gives.
pub open spec fn edition_steps(card: Card) -> Seq<ScoreStep> {
    match card.edition {
        Some(Edition::Foil) => seq![ScoreStep::AddChips(50)],
        Some(Edition::Holographic) => seq![ScoreStep::AddMult(10)],
        Some(Edition::Polychrome) => seq![ScoreStep::TimesMult(MultFactor::OneAndAHalf)],
        None => Seq::empty(),
    }
}

/// One step if `cond` holds, none otherwise.
pub open spec fn step_if(cond: bool, step: ScoreStep) -> Seq<ScoreStep> {
    if cond {
        seq![step]
    } else {
        Seq::empty()
    }
}

/// What a joker ability does when a played card is scored.
pub open spec fn on_scored_steps(joker: Joker, card: Card, jokers: Seq<JokerCard>, first_face: bool) -> Seq<
    ScoreStep,
> {
    let smeared = has_joker(jokers, Joker::SmearedJoker);
    let rank = card.rank;
    if is_stone(card) {
        Seq::empty()
    } else {
        match joker {
            Joker::GreedyJoker => step_if(suit_matches(card, Suit::Diamonds, smeared), ScoreStep::AddMult(3)),
            Joker::LustyJoker => step_if(suit_matches(card, Suit::Hearts, smeared), ScoreStep::AddMult(3)),
            Joker::Arrowhead => step_if(suit_matches(card, Suit::Spades, smeared), ScoreStep::AddChips(50)),
            Joker::OnyxAgate => step_if(suit_matches(card, Suit::Clubs, smeared), ScoreStep::AddMult(7)),
            Joker::Fibonacci => step_if(
                rank == Rank::Ace || rank == Rank::Two || rank == Rank::Three || rank == Rank::Five
                    || rank == Rank::Eight,
                ScoreStep::AddMult(8),
            ),
            Joker::ScaryFace => step_if(face_card(card, jokers), ScoreStep::AddChips(30)),
            Joker::EvenSteven => step_if(
                rank == Rank::Two || rank == Rank::Four || rank == Rank::Six || rank == Rank::Eight
                    || rank == Rank::Ten,
                ScoreStep::AddMult(4),
            ),
            Joker::OddTodd => step_if(
                rank == Rank::Ace || rank == Rank::Three || rank == Rank::Five || rank == Rank::Seven
                    || rank == Rank::Nine,
                ScoreStep::AddChips(31),
            ),
            Joker::Scholar => if rank == Rank::Ace {
                seq![ScoreStep::AddChips(20), ScoreStep::AddMult(4)]
            } else {
                Seq::empty()
            },
            Joker::WalkieTalkie => if rank == Rank::Ten || rank == Rank::Four {
                seq![ScoreStep::AddChips(10), ScoreStep::AddMult(4)]
            } else {
                Seq::empty()
            },
            Joker::Photograph => step_if(first_face, ScoreStep::TimesMult(MultFactor::Double)),
            Joker::SmileyFace => step_if(face_card(card, jokers), ScoreStep::AddMult(5)),
            _ => Seq::empty(),
        }
    }
}

/// What the abilities do, one after another, when a played card is scored.
pub open spec fn abilities_on_scored(
    abilities: Seq<Joker>,
    card: Card,
    jokers: Seq<JokerCard>,
    first_face: bool,
) -> Seq<ScoreStep>
    decreases abilities.len(),
{
    if abilities.len() == 0 {
        Seq::empty()
    } else {
        abilities_on_scored(abilities.drop_last(), card, jokers, first_face) + on_scored_steps(
            abilities.last(),
            card,
            jokers,
            first_face,
        )
    }
}

/// One trigger of a scored card: its chips, its enhancement, its edition,
/// then every joker's on-scored ability.
pub open spec fn trigger_steps(card: Card, jokers: Seq<JokerCard>, first_face: bool) -> Seq<ScoreStep> {
    card_own_steps(card) + abilities_on_scored(
        effective_abilities(jokers),
        card,
        jokers,
        first_face,
    )
}

/// How many extra times an ability retriggers a scored card.
pub open spec fn retrigger_of(joker: Joker, card: Card, jokers: Seq<JokerCard>, first_card: bool) -> nat {
    match joker {
        Joker::SockAndBuskin => if face_card(card, jokers) {
            1
        } else {
            0
        },
        Joker::Hack => if !is_stone(card) && (card.rank == Rank::Two || card.rank == Rank::Three
            || card.rank == Rank::Four || card.rank == Rank::Five) {
            1
        } else {
            0
        },
        Joker::HangingChad => if first_card {
            2
        } else {
            0
        },
        _ => 0,
    }
}

/// How many extra times the abilities retrigger a scored card.
pub open spec fn retriggers(abilities: Seq<Joker>, card: Card, jokers: Seq<JokerCard>, first_card: bool) -> nat
    decreases abilities.len(),
{
    if abilities.len() == 0 {
        0
    } else {
        retriggers(abilities.drop_last(), card, jokers, first_card) + retrigger_of(
            abilities.last(),
            card,
            jokers,
            first_card,
        )
    }
}

/// `s`, `n` times over.
pub open spec fn repeat(s: Seq<ScoreStep>, n: nat) -> Seq<ScoreStep>
    decreases n,
{
    if n == 0 {
        Seq::empty()
    } else {
        repeat(s, (n - 1) as nat) + s
    }
}

/// A scored card's trigger, once and then once per retrigger.
pub open spec fn card_scoring_steps(card: Card, jokers: Seq<JokerCard>, first_card: bool, first_face: bool) -> Seq<
    ScoreStep,
> {
    repeat(
        trigger_steps(card, jokers, first_face),
        1 + retriggers(effective_abilities(jokers), card, jokers, first_card),
    )
}

/// The indices below `n`, in order, of the played cards that score: those
/// of the poker hand, every stone card, and with Splash every card.
pub open spec fn scoring_prefix(cards: Seq<Card>, hand_cards: Seq<usize>, splash: bool, n: int) -> Seq<usize>
    decreases n,
{
    if n <= 0 {
        Seq::empty()
    } else {
        let rest = scoring_prefix(cards, hand_cards, splash, n - 1);
        if hand_cards.contains((n - 1) as usize) || splash || is_stone(cards[n - 1]) {
            rest.push((n - 1) as usize)
        } else {
            rest
        }
    }
}

/// The indices, in order, of the played cards that score in `round`.
pub open spec fn scoring_indices(round: Round) -> Seq<usize> {
    let cards = round.cards_played@;
    let jokers = round.jokers@;
    scoring_prefix(
        cards,
        scored_spec(cards, hand_of(cards, jokers), jokers),
        has_joker(jokers, Joker::Splash),
        cards.len() as int,
    )
}

/// The first of `idx` whose card is a face card.
pub open spec fn first_face(cards: Seq<Card>, idx: Seq<usize>, jokers: Seq<JokerCard>) -> Option<usize>
    decreases idx.len(),
{
    if idx.len() == 0 {
        None
    } else if face_card(cards[idx[0] as int], jokers) {
        Some(idx[0])
    } else {
        first_face(cards, idx.drop_first(), jokers)
    }
}

/// The scoring of the first `n` scoring cards, in order.
pub open spec fn played_steps(
    cards: Seq<Card>,
    idx: Seq<usize>,
    face: Option<usize>,
    jokers: Seq<JokerCard>,
    n: int,
) -> Seq<ScoreStep>
    decreases n,
{
    if n <= 0 {
        Seq::empty()
    } else {
        played_steps(cards, idx, face, jokers, n - 1) + card_scoring_steps(
            cards[idx[n - 1] as int],
            jokers,
            n - 1 == 0,
            face == Some(idx[n - 1]),
        )
    }
}

/// The held card at `index` is the rightmost of the lowest-ranked ones.
pub open spec fn is_lowest_held(held: Seq<Card>, index: int) -> bool {
    is_lowest_rank_index(held, index)
}

/// What a joker ability does for a card held in hand.
pub open spec fn on_held_steps(joker: Joker, index: int, card: Card, held: Seq<Card>) -> Seq<ScoreStep> {
    if is_stone(card) {
        Seq::empty()
    } else {
        match joker {
            Joker::RaisedFist => step_if(
                is_lowest_held(held, index),
                ScoreStep::AddMult((2 * rank_chips(card.rank)) as u128),
            ),
            Joker::Baron => step_if(card.rank == Rank::King, ScoreStep::TimesMult(MultFactor::OneAndAHalf)),
            Joker::ShootTheMoon => step_if(card.rank == Rank::Queen, ScoreStep::AddMult(13)),
            _ => Seq::empty(),
        }
    }
}

/// What the abilities do, one after another, for a card held in hand.
pub open spec fn abilities_on_held(abilities: Seq<Joker>, index: int, card: Card, held: Seq<Card>) -> Seq<
    ScoreStep,
>
    decreases abilities.len(),
{
    if abilities.len() == 0 {
        Seq::empty()
    } else {
        abilities_on_held(abilities.drop_last(), index, card, held) + on_held_steps(
            abilities.last(),
            index,
            card,
            held,
        )
    }
}

/// How many of the abilities are `joker`.
pub open spec fn count_ability(abilities: Seq<Joker>, joker: Joker) -> nat
    decreases abilities.len(),
{
    if abilities.len() == 0 {
        0
    } else {
        count_ability(abilities.drop_last(), joker) + if abilities.last() == joker {
            1nat
        } else {
            0nat
        }
    }
}

/// One round of a held card: its steel, then every joker's on-held ability.
pub open spec fn held_once(held: Seq<Card>, index: int, jokers: Seq<JokerCard>) -> Seq<ScoreStep> {
    let card = held[index];
    step_if(
        card.enhancement == Some(Enhancement::Steel),
        ScoreStep::TimesMult(MultFactor::OneAndAHalf),
    ) + abilities_on_held(effective_abilities(jokers), index, card, held)
}

/// The held cards' steps: each of the first `n` held cards, once and then
/// once more for every Mime.
pub open spec fn held_steps(held: Seq<Card>, jokers: Seq<JokerCard>, n: int) -> Seq<ScoreStep>
    decreases n,
{
    if n <= 0 {
        Seq::empty()
    } else {
        held_steps(held, jokers, n - 1) + repeat(
            held_once(held, n - 1, jokers),
            1 + count_ability(effective_abilities(jokers), Joker::Mime),
        )
    }
}

/// Every held card is wild, a Spade or a Club.
pub open spec fn all_held_dark(held: Seq<Card>) -> bool {
    forall|i: int|
        0 <= i < held.len() ==> is_wild(#[trigger] held[i]) || held[i].suit == Suit::Spades || held[i].suit
            == Suit::Clubs
}

/// What a joker ability does on its own, after the cards are scored.
pub open spec fn independent_steps(
    joker: Joker,
    played: Seq<Card>,
    scored: Seq<Card>,
    held: Seq<Card>,
    jokers: Seq<JokerCard>,
) -> Seq<ScoreStep> {
    let four_fingers = has_joker(jokers, Joker::FourFingers);
    let shortcut = has_joker(jokers, Joker::Shortcut);
    let smeared = has_joker(jokers, Joker::SmearedJoker);
    let straight = find_pattern(played, four_fingers, true, shortcut) is Some;
    let flush = find_pattern(played, four_fingers, false, smeared) is Some;
    match joker {
        Joker::Joker => seq![ScoreStep::AddMult(4)],
        Joker::JollyJoker => step_if(some_rank_at_least(played, 2), ScoreStep::AddMult(8)),
        Joker::ZanyJoker => step_if(some_rank_at_least(played, 3), ScoreStep::AddMult(12)),
        Joker::MadJoker => step_if(two_ranks_paired(played), ScoreStep::AddMult(10)),
        Joker::TheOrder => step_if(straight, ScoreStep::TimesMult(MultFactor::Triple)),
        Joker::TheTribe => step_if(flush, ScoreStep::TimesMult(MultFactor::Double)),
        Joker::SlyJoker => step_if(some_rank_at_least(played, 2), ScoreStep::AddChips(50)),
        Joker::WilyJoker => step_if(some_rank_at_least(played, 3), ScoreStep::AddChips(100)),
        Joker::CleverJoker => step_if(two_ranks_paired(played), ScoreStep::AddChips(80)),
        Joker::DeviousJoker => step_if(straight, ScoreStep::AddChips(100)),
        Joker::CraftyJoker => step_if(flush, ScoreStep::AddChips(80)),
        Joker::AbstractJoker => seq![ScoreStep::AddMult((3 * jokers.len()) as u128)],
        Joker::Blackboard => step_if(all_held_dark(held), ScoreStep::TimesMult(MultFactor::Triple)),
        Joker::FlowerPot => step_if(flower_pot_spec(scored, smeared), ScoreStep::TimesMult(MultFactor::Triple)),
        _ => Seq::empty(),
    }
}

/// What a joker card does after the cards are scored: its Foil or
/// Holographic edition, the ability it acts with, then its Polychrome.
pub open spec fn joker_card_steps(
    index: int,
    played: Seq<Card>,
    scored: Seq<Card>,
    held: Seq<Card>,
    jokers: Seq<JokerCard>,
) -> Seq<ScoreStep> {
    let edition = jokers[index].edition;
    let before = match edition {
        Some(Edition::Foil) => seq![ScoreStep::AddChips(50)],
        Some(Edition::Holographic) => seq![ScoreStep::AddMult(10)],
        _ => Seq::empty(),
    };
    let ability = match effective_at(jokers, index) {
        Some(a) => independent_steps(a, played, scored, held, jokers),
        None => Seq::empty(),
    };
    before + ability + step_if(
        edition == Some(Edition::Polychrome),
        ScoreStep::TimesMult(MultFactor::OneAndAHalf),
    )
}

/// The steps of the first `n` joker cards, in order.
pub open spec fn jokers_steps(
    played: Seq<Card>,
    scored: Seq<Card>,
    held: Seq<Card>,
    jokers: Seq<JokerCard>,
    n: int,
) -> Seq<ScoreStep>
    decreases n,
{
    if n <= 0 {
        Seq::empty()
    } else {
        jokers_steps(played, scored, held, jokers, n - 1) + joker_card_steps(n - 1, played, scored, held, jokers)
    }
}

/// The played cards at the given indices.
pub open spec fn cards_at(cards: Seq<Card>, idx: Seq<usize>) -> Seq<Card> {
    idx.map_values(|i: usize| cards[i as int])
}

/// Every step of scoring `round`, in order: the scoring cards, the held
/// cards, then the jokers.
pub open spec fn score_steps(round: Round) -> Seq<ScoreStep> {
    let played = round.cards_played@;
    let held = round.cards_held_in_hand@;
    let jokers = round.jokers@;
    let idx = scoring_indices(round);
    played_steps(played, idx, first_face(played, idx, jokers), jokers, idx.len() as int) + held_steps(
        held,
        jokers,
        held.len() as int,
    ) + jokers_steps(played, cards_at(played, idx), held, jokers, jokers.len() as int)
}

/// The lowest-ranked held card is unique.
pub proof fn lemma_lowest_unique(held: Seq<Card>, i: int, j: int)
    requires
        is_lowest_rank_index(held, i),
        is_lowest_rank_index(held, j),
    ensures
        i == j,
{
    assert(!is_stone(held[j]) && !is_stone(held[i]));
}

/// Repeating once more appends one more copy.
pub proof fn lemma_repeat_more(start: Seq<ScoreStep>, s: Seq<ScoreStep>, n: nat)
    ensures
        start + repeat(s, n) + s == start + repeat(s, n + 1),
{
    assert(repeat(s, n + 1) == repeat(s, n) + s);
    assert(start + repeat(s, n) + s =~= start + (repeat(s, n) + s));
}

/// Whether `card` counts as a face card in `round`.
pub fn is_card_face(card: Card, round: &Round) -> (face: bool)
    ensures
        face == face_card(card, round.jokers@),
{
    if card_is_stone(&card) {
        return false;
    }
    is_face(card.rank) || joker_in_play(round.jokers.as_slice(), Joker::Pareidolia)
}

/// Adds what the ability `joker` does when `card` is scored.
pub fn apply_on_scored_joker(
    joker: Joker,
    card: Card,
    round: &Round,
    steps: &mut Vec<ScoreStep>,
    is_first_face: bool,
)
    ensures
        final(steps)@ == old(steps)@ + on_scored_steps(joker, card, round.jokers@, is_first_face),
{
    let ghost start = steps@;
    if card_is_stone(&card) {
        assert(steps@ =~= start + Seq::<ScoreStep>::empty());
        return;
    }
    let smeared = joker_in_play(round.jokers.as_slice(), Joker::SmearedJoker);
    match joker {
        Joker::GreedyJoker => {
            if card_matches_suit(card, Suit::Diamonds, smeared) {
                steps.push(ScoreStep::AddMult(3));
            }
        },
        Joker::LustyJoker => {
            if card_matches_suit(card, Suit::Hearts, smeared) {
                steps.push(ScoreStep::AddMult(3));
            }
        },
        Joker::Arrowhead => {
            if card_matches_suit(card, Suit::Spades, smeared) {
                steps.push(ScoreStep::AddChips(50));
            }
        },
        Joker::OnyxAgate => {
            if card_matches_suit(card, Suit::Clubs, smeared) {
                steps.push(ScoreStep::AddMult(7));
            }
        },
        Joker::Fibonacci => match card.rank {
            Rank::Ace | Rank::Two | Rank::Three | Rank::Five | Rank::Eight => {
                steps.push(ScoreStep::AddMult(8));
            },
            _ => {},
        },
        Joker::ScaryFace => {
            if is_card_face(card, round) {
                steps.push(ScoreStep::AddChips(30));
            }
        },
        Joker::EvenSteven => match card.rank {
            Rank::Two | Rank::Four | Rank::Six | Rank::Eight | Rank::Ten => {
                steps.push(ScoreStep::AddMult(4));
            },
            _ => {},
        },
        Joker::OddTodd => match card.rank {
            Rank::Ace | Rank::Three | Rank::Five | Rank::Seven | Rank::Nine => {
                steps.push(ScoreStep::AddChips(31));
            },
            _ => {},
        },
        Joker::Scholar => {
            if card.rank == Rank::Ace {
                steps.push(ScoreStep::AddChips(20));
                steps.push(ScoreStep::AddMult(4));
            }
        },
        Joker::WalkieTalkie => match card.rank {
            Rank::Ten | Rank::Four => {
                steps.push(ScoreStep::AddChips(10));
                steps.push(ScoreStep::AddMult(4));
            },
            _ => {},
        },
        Joker::Photograph => {
            if is_first_face {
                steps.push(ScoreStep::TimesMult(MultFactor::Double));
            }
        },
        Joker::SmileyFace => {
            if is_card_face(card, round) {
                steps.push(ScoreStep::AddMult(5));
            }
        },
        _ => {},
    }
    assert(steps@ =~= start + on_scored_steps(joker, card, round.jokers@, is_first_face));
}

/// The steps a scored card gives by itself: its chips, then its
/// enhancement, then its edition.
pub open spec fn card_own_steps(card: Card) -> Seq<ScoreStep> {
    base_steps(card) + enhancement_steps(card) + edition_steps(card)
}

/// Adds the steps that a scored card gives by itself.
pub(crate) fn add_card_own_steps(card: Card, steps: &mut Vec<ScoreStep>)
    ensures
        final(steps)@ == old(steps)@ + card_own_steps(card),
{
    let ghost start = steps@;
    if card_is_stone(&card) {
        steps.push(ScoreStep::AddChips(50));
    } else {
        steps.push(ScoreStep::AddChips(rank_value(card.rank) as u128));
    }
    match card.enhancement {
        Some(Enhancement::Bonus) => steps.push(ScoreStep::AddChips(30)),
        Some(Enhancement::Mult) => steps.push(ScoreStep::AddMult(4)),
        Some(Enhancement::Glass) => steps.push(ScoreStep::TimesMult(MultFactor::Double)),
        _ => {},
    }
    match card.edition {
        Some(Edition::Foil) => steps.push(ScoreStep::AddChips(50)),
        Some(Edition::Holographic) => steps.push(ScoreStep::AddMult(10)),
        Some(Edition::Polychrome) => steps.push(ScoreStep::TimesMult(MultFactor::OneAndAHalf)),
        None => {},
    }
    assert(steps@ =~= start + card_own_steps(card));
}

/// Adds one trigger of the scored card `card`.
pub fn trigger_scored_card(
    round: &Round,
    card: Card,
    steps: &mut Vec<ScoreStep>,
    is_first_face: bool,
)
    ensures
        final(steps)@ == old(steps)@ + trigger_steps(card, round.jokers@, is_first_face),
{
    let ghost start = steps@;
    add_card_own_steps(card, steps);
    let ghost own = card_own_steps(card);
    let abilities = effective_jokers(round.jokers.as_slice());
    let mut i: usize = 0;
    while i < abilities.len()
        invariant
            i <= abilities@.len(),
            abilities@ == effective_abilities(round.jokers@),
            steps@ == start + own + abilities_on_scored(abilities@.take(i as int), card, round.jokers@, is_first_face),
        decreases abilities@.len() - i,
    {
        let ghost before = steps@;
        apply_on_scored_joker(abilities[i], card, round, steps, is_first_face);
        proof {
            let next = abilities@.take(i + 1);
            assert(next.drop_last() =~= abilities@.take(i as int));
            assert(next.last() == abilities@[i as int]);
            assert(steps@ =~= start + own + abilities_on_scored(next, card, round.jokers@, is_first_face));
        }
        i = i + 1;
    }
    assert(abilities@.take(abilities@.len() as int) =~= abilities@);
    assert(start + own + abilities_on_scored(abilities@, card, round.jokers@, is_first_face) =~= start
        + trigger_steps(card, round.jokers@, is_first_face));
}

/// Adds the scoring of the scored card `card`: one trigger, then one more
/// for each retrigger that the jokers give it.
pub fn apply_card_scoring(
    round: &Round,
    card: Card,
    steps: &mut Vec<ScoreStep>,
    is_first_card: bool,
    is_first_face: bool,
)
    ensures
        final(steps)@ == old(steps)@ + card_scoring_steps(card, round.jokers@, is_first_card, is_first_face),
{
    let ghost start = steps@;
    let ghost trig = trigger_steps(card, round.jokers@, is_first_face);
    trigger_scored_card(round, card, steps, is_first_face);
    assert(repeat(trig, 1) =~= trig) by {
        assert(repeat(trig, 0) =~= Seq::<ScoreStep>::empty());
    }
    let abilities = effective_jokers(round.jokers.as_slice());
    let mut retrigger_count: u128 = 0;
    let mut i: usize = 0;
    while i < abilities.len()
        invariant
            i <= abilities@.len(),
            abilities@ == effective_abilities(round.jokers@),
            retrigger_count == retriggers(abilities@.take(i as int), card, round.jokers@, is_first_card),
            retrigger_count <= 2 * i,
        decreases abilities@.len() - i,
    {
        let extra: u128 = match abilities[i] {
            Joker::SockAndBuskin => if is_card_face(card, round) {
                1
            } else {
                0
            },
            Joker::Hack => if !card_is_stone(&card) && (card.rank == Rank::Two || card.rank == Rank::Three
                || card.rank == Rank::Four || card.rank == Rank::Five) {
                1
            } else {
                0
            },
            Joker::HangingChad => if is_first_card {
                2
            } else {
                0
            },
            _ => 0,
        };
        proof {
            let next = abilities@.take(i + 1);
            assert(next.drop_last() =~= abilities@.take(i as int));
            assert(next.last() == abilities@[i as int]);
        }
        retrigger_count = retrigger_count + extra;
        i = i + 1;
    }
    assert(abilities@.take(abilities@.len() as int) =~= abilities@);
    let mut t: u128 = 0;
    while t < retrigger_count
        invariant
            t <= retrigger_count,
            trig == trigger_steps(card, round.jokers@, is_first_face),
            steps@ == start + repeat(trig, (1 + t) as nat),
        decreases retrigger_count - t,
    {
        trigger_scored_card(round, card, steps, is_first_face);
        proof {
            lemma_repeat_more(start, trig, (1 + t) as nat);
        }
        t = t + 1;
    }
}

/// Adds what the ability `joker` does for the held card `held_card`, at
/// `held_index` among `held_cards`.
pub fn apply_on_held_joker(
    joker: Joker,
    held_index: usize,
    held_card: Card,
    held_cards: &[Card],
    steps: &mut Vec<ScoreStep>,
)
    ensures
        final(steps)@ == old(steps)@ + on_held_steps(joker, held_index as int, held_card, held_cards@),
{
    let ghost start = steps@;
    if card_is_stone(&held_card) {
        assert(steps@ =~= start + Seq::<ScoreStep>::empty());
        return;
    }
    match joker {
        Joker::RaisedFist => {
            let lowest = get_lowest_rank_card_index(held_cards);
            let is_lowest = match lowest {
                Some(i) => i == held_index,
                None => false,
            };
            proof {
                match lowest {
                    Some(i) => {
                        if is_lowest_held(held_cards@, held_index as int) {
                            lemma_lowest_unique(held_cards@, i as int, held_index as int);
                        }
                    },
                    None => {
                        if is_lowest_held(held_cards@, held_index as int) {
                            assert(is_stone(held_cards@[held_index as int]));
                        }
                    },
                }
            }
            if is_lowest {
                steps.push(ScoreStep::AddMult(2 * rank_value(held_card.rank) as u128));
            }
        },
        Joker::Baron => {
            if held_card.rank == Rank::King {
                steps.push(ScoreStep::TimesMult(MultFactor::OneAndAHalf));
            }
        },
        Joker::ShootTheMoon => {
            if held_card.rank == Rank::Queen {
                steps.push(ScoreStep::AddMult(13));
            }
        },
        _ => {},
    }
    assert(steps@ =~= start + on_held_steps(joker, held_index as int, held_card, held_cards@));
}

/// Whether every held card is wild, a Spade or a Club.
fn held_all_dark(held_cards: &[Card]) -> (dark: bool)
    ensures
        dark == all_held_dark(held_cards@),
{
    let mut i: usize = 0;
    while i < held_cards.len()
        invariant
            i <= held_cards@.len(),
            forall|k: int|
                0 <= k < i ==> is_wild(#[trigger] held_cards@[k]) || held_cards@[k].suit == Suit::Spades
                    || held_cards@[k].suit == Suit::Clubs,
        decreases held_cards@.len() - i,
    {
        let card = held_cards[i];
        if !(card_is_wild(&card) || card.suit == Suit::Spades || card.suit == Suit::Clubs) {
            assert(!(is_wild(held_cards@[i as int]) || held_cards@[i as int].suit == Suit::Spades
                || held_cards@[i as int].suit == Suit::Clubs));
            return false;
        }
        i = i + 1;
    }
    true
}

/// Adds what the ability `joker` does on its own, after the cards are
/// scored.
pub fn apply_independent_joker(
    joker: Joker,
    played_cards: &[Card],
    scored_cards: &[Card],
    held_cards: &[Card],
    jokers: &[JokerCard],
    steps: &mut Vec<ScoreStep>,
)
    ensures
        final(steps)@ == old(steps)@ + independent_steps(joker, played_cards@, scored_cards@, held_cards@, jokers@),
{
    let ghost start = steps@;
    let four_fingers = joker_in_play(jokers, Joker::FourFingers);
    let shortcut = joker_in_play(jokers, Joker::Shortcut);
    let smeared = joker_in_play(jokers, Joker::SmearedJoker);
    match joker {
        Joker::Joker => {
            steps.push(ScoreStep::AddMult(4));
        },
        Joker::JollyJoker => {
            if contains_pair(played_cards) {
                steps.push(ScoreStep::AddMult(8));
            }
        },
        Joker::ZanyJoker => {
            if contains_three_of_a_kind(played_cards) {
                steps.push(ScoreStep::AddMult(12));
            }
        },
        Joker::MadJoker => {
            if contains_two_pair(played_cards) {
                steps.push(ScoreStep::AddMult(10));
            }
        },
        Joker::TheOrder => {
            if is_straight(played_cards, four_fingers, shortcut) {
                steps.push(ScoreStep::TimesMult(MultFactor::Triple));
            }
        },
        Joker::TheTribe => {
            if is_flush(played_cards, four_fingers, smeared) {
                steps.push(ScoreStep::TimesMult(MultFactor::Double));
            }
        },
        Joker::SlyJoker => {
            if contains_pair(played_cards) {
                steps.push(ScoreStep::AddChips(50));
            }
        },
        Joker::WilyJoker => {
            if contains_three_of_a_kind(played_cards) {
                steps.push(ScoreStep::AddChips(100));
            }
        },
        Joker::CleverJoker => {
            if contains_two_pair(played_cards) {
                steps.push(ScoreStep::AddChips(80));
            }
        },
        Joker::DeviousJoker => {
            if is_straight(played_cards, four_fingers, shortcut) {
                steps.push(ScoreStep::AddChips(100));
            }
        },
        Joker::CraftyJoker => {
            if is_flush(played_cards, four_fingers, smeared) {
                steps.push(ScoreStep::AddChips(80));
            }
        },
        Joker::AbstractJoker => {
            steps.push(ScoreStep::AddMult(3 * (jokers.len() as u128)));
        },
        Joker::Blackboard => {
            if held_all_dark(held_cards) {
                steps.push(ScoreStep::TimesMult(MultFactor::Triple));
            }
        },
        Joker::FlowerPot => {
            if flower_pot_matches(scored_cards, smeared) {
                steps.push(ScoreStep::TimesMult(MultFactor::Triple));
            }
        },
        _ => {},
    }
    assert(steps@ =~= start + independent_steps(joker, played_cards@, scored_cards@, held_cards@, jokers@));
}

/// The scoring indices below `n` lie below `n`, in increasing order.
pub proof fn lemma_scoring_prefix(cards: Seq<Card>, hand_cards: Seq<usize>, splash: bool, n: int)
    requires
        0 <= n <= cards.len() <= usize::MAX,
    ensures
        forall|k: int|
            0 <= k < scoring_prefix(cards, hand_cards, splash, n).len() ==> #[trigger] scoring_prefix(
                cards,
                hand_cards,
                splash,
                n,
            )[k] < n,
        crate::patterns::increasing(scoring_prefix(cards, hand_cards, splash, n)),
    decreases n,
{
    if n > 0 {
        lemma_scoring_prefix(cards, hand_cards, splash, n - 1);
    }
}

/// The indices, in order, of the played cards that score.
fn collect_scoring_indices(round: &Round) -> (idx: Vec<usize>)
    ensures
        idx@ == scoring_indices(*round),
        forall|k: int| 0 <= k < idx@.len() ==> #[trigger] idx@[k] < round.cards_played@.len(),
{
    let played = round.cards_played.as_slice();
    let jokers = round.jokers.as_slice();
    let hand = determine_poker_hand(played, jokers);
    let hand_cards = get_scored_indices(played, hand, jokers);
    let splash = joker_in_play(jokers, Joker::Splash);
    let mut idx: Vec<usize> = Vec::new();
    let mut i: usize = 0;
    while i < played.len()
        invariant
            i <= played@.len(),
            played@ == round.cards_played@,
            idx@ == scoring_prefix(played@, hand_cards@, splash, i as int),
        decreases played@.len() - i,
    {
        if holds_index(&hand_cards, i) || splash || card_is_stone(&played[i]) {
            idx.push(i);
        }
        i = i + 1;
    }
    proof {
        lemma_scoring_prefix(played@, hand_cards@, splash, played@.len() as int);
    }
    idx
}

/// The first of `idx` whose card is a face card.
fn find_first_face(round: &Round, idx: &Vec<usize>) -> (face: Option<usize>)
    requires
        forall|k: int| 0 <= k < idx@.len() ==> #[trigger] idx@[k] < round.cards_played@.len(),
    ensures
        face == first_face(round.cards_played@, idx@, round.jokers@),
{
    let ghost all = idx@;
    assert(all.subrange(0, all.len() as int) =~= all);
    let mut p: usize = 0;
    while p < idx.len()
        invariant
            p <= idx@.len(),
            all == idx@,
            forall|k: int| 0 <= k < idx@.len() ==> #[trigger] idx@[k] < round.cards_played@.len(),
            first_face(round.cards_played@, all.subrange(p as int, all.len() as int), round.jokers@)
                == first_face(round.cards_played@, all, round.jokers@),
        decreases idx@.len() - p,
    {
        let ghost rest = all.subrange(p as int, all.len() as int);
        assert(rest[0] == idx@[p as int]);
        let index = idx[p];
        if is_card_face(round.cards_played[index], round) {
            return Some(index);
        }
        assert(rest.drop_first() =~= all.subrange(p + 1, all.len() as int));
        p = p + 1;
    }
    assert(all.subrange(p as int, all.len() as int) =~= Seq::<usize>::empty());
    None
}

/// Adds the scoring of the scoring cards, in order.
fn score_played(round: &Round, idx: &Vec<usize>, face: Option<usize>, steps: &mut Vec<ScoreStep>)
    requires
        forall|k: int| 0 <= k < idx@.len() ==> #[trigger] idx@[k] < round.cards_played@.len(),
    ensures
        final(steps)@ == old(steps)@ + played_steps(
            round.cards_played@,
            idx@,
            face,
            round.jokers@,
            idx@.len() as int,
        ),
{
    let ghost start = steps@;
    assert(steps@ =~= start + played_steps(round.cards_played@, idx@, face, round.jokers@, 0));
    let mut p: usize = 0;
    while p < idx.len()
        invariant
            p <= idx@.len(),
            forall|k: int| 0 <= k < idx@.len() ==> #[trigger] idx@[k] < round.cards_played@.len(),
            steps@ == start + played_steps(round.cards_played@, idx@, face, round.jokers@, p as int),
        decreases idx@.len() - p,
    {
        let index = idx[p];
        let is_first_face = match face {
            Some(f) => f == index,
            None => false,
        };
        apply_card_scoring(round, round.cards_played[index], steps, p == 0, is_first_face);
        assert(steps@ =~= start + played_steps(round.cards_played@, idx@, face, round.jokers@, p + 1));
        p = p + 1;
    }
}

/// How many of the abilities are `joker`.
fn count_jokers(abilities: &Vec<Joker>, joker: Joker) -> (count: usize)
    ensures
        count == count_ability(abilities@, joker),
{
    let mut count: usize = 0;
    let mut i: usize = 0;
    while i < abilities.len()
        invariant
            i <= abilities@.len(),
            count <= i,
            count == count_ability(abilities@.take(i as int), joker),
        decreases abilities@.len() - i,
    {
        proof {
            let next = abilities@.take(i + 1);
            assert(next.drop_last() =~= abilities@.take(i as int));
            assert(next.last() == abilities@[i as int]);
        }
        if abilities[i] == joker {
            count = count + 1;
        }
        i = i + 1;
    }
    assert(abilities@.take(abilities@.len() as int) =~= abilities@);
    count
}

/// Adds one round of the held card at `index`: its steel, then every
/// ability's on-held effect.
fn held_card_once(round: &Round, abilities: &Vec<Joker>, index: usize, steps: &mut Vec<ScoreStep>)
    requires
        index < round.cards_held_in_hand@.len(),
        abilities@ == effective_abilities(round.jokers@),
    ensures
        final(steps)@ == old(steps)@ + held_once(round.cards_held_in_hand@, index as int, round.jokers@),
{
    let ghost start = steps@;
    let held = round.cards_held_in_hand.as_slice();
    let card = held[index];
    let steel = match card.enhancement {
        Some(Enhancement::Steel) => true,
        _ => false,
    };
    if steel {
        steps.push(ScoreStep::TimesMult(MultFactor::OneAndAHalf));
    }
    let ghost own = step_if(
        card.enhancement == Some(Enhancement::Steel),
        ScoreStep::TimesMult(MultFactor::OneAndAHalf),
    );
    assert(steps@ =~= start + own);
    let mut i: usize = 0;
    while i < abilities.len()
        invariant
            i <= abilities@.len(),
            held@ == round.cards_held_in_hand@,
            index < held@.len(),
            card == held@[index as int],
            steps@ == start + own + abilities_on_held(abilities@.take(i as int), index as int, card, held@),
        decreases abilities@.len() - i,
    {
        apply_on_held_joker(abilities[i], index, card, held, steps);
        proof {
            let next = abilities@.take(i + 1);
            assert(next.drop_last() =~= abilities@.take(i as int));
            assert(next.last() == abilities@[i as int]);
            assert(steps@ =~= start + own + abilities_on_held(next, index as int, card, held@));
        }
        i = i + 1;
    }
    assert(abilities@.take(abilities@.len() as int) =~= abilities@);
    assert(steps@ =~= start + held_once(round.cards_held_in_hand@, index as int, round.jokers@));
}

/// Adds the held cards' steps, each card once and once more per Mime.
fn score_held(round: &Round, steps: &mut Vec<ScoreStep>)
    ensures
        final(steps)@ == old(steps)@ + held_steps(
            round.cards_held_in_hand@,
            round.jokers@,
            round.cards_held_in_hand@.len() as int,
        ),
{
    let ghost start = steps@;
    let ghost held = round.cards_held_in_hand@;
    let abilities = effective_jokers(round.jokers.as_slice());
    let mime_count = count_jokers(&abilities, Joker::Mime);
    let rounds: u128 = mime_count as u128 + 1;
    assert(steps@ =~= start + held_steps(held, round.jokers@, 0));
    let mut h: usize = 0;
    while h < round.cards_held_in_hand.len()
        invariant
            h <= held.len(),
            held == round.cards_held_in_hand@,
            abilities@ == effective_abilities(round.jokers@),
            rounds == 1 + count_ability(abilities@, Joker::Mime),
            steps@ == start + held_steps(held, round.jokers@, h as int),
        decreases held.len() - h,
    {
        let ghost before = steps@;
        let ghost once = held_once(held, h as int, round.jokers@);
        assert(repeat(once, 0) =~= Seq::<ScoreStep>::empty());
        assert(steps@ =~= before + repeat(once, 0));
        let mut t: u128 = 0;
        while t < rounds
            invariant
                t <= rounds,
                h < held.len(),
                held == round.cards_held_in_hand@,
                abilities@ == effective_abilities(round.jokers@),
                once == held_once(held, h as int, round.jokers@),
                steps@ == before + repeat(once, t as nat),
            decreases rounds - t,
        {
            held_card_once(round, &abilities, h, steps);
            proof {
                lemma_repeat_more(before, once, t as nat);
            }
            t = t + 1;
        }
        assert(steps@ =~= start + held_steps(held, round.jokers@, h + 1));
        h = h + 1;
    }
}

/// Adds the joker cards' steps, in order.
fn score_jokers(round: &Round, scored_cards: &Vec<Card>, steps: &mut Vec<ScoreStep>)
    ensures
        final(steps)@ == old(steps)@ + jokers_steps(
            round.cards_played@,
            scored_cards@,
            round.cards_held_in_hand@,
            round.jokers@,
            round.jokers@.len() as int,
        ),
{
    let ghost start = steps@;
    let played = round.cards_played.as_slice();
    let held = round.cards_held_in_hand.as_slice();
    let jokers = round.jokers.as_slice();
    assert(steps@ =~= start + jokers_steps(played@, scored_cards@, held@, jokers@, 0));
    let mut index: usize = 0;
    while index < jokers.len()
        invariant
            index <= jokers@.len(),
            played@ == round.cards_played@,
            held@ == round.cards_held_in_hand@,
            jokers@ == round.jokers@,
            steps@ == start + jokers_steps(played@, scored_cards@, held@, jokers@, index as int),
        decreases jokers@.len() - index,
    {
        let ghost before = steps@;
        let joker = jokers[index];
        match joker.edition {
            Some(Edition::Foil) => steps.push(ScoreStep::AddChips(50)),
            Some(Edition::Holographic) => steps.push(ScoreStep::AddMult(10)),
            _ => {},
        }
        let ghost mid = steps@;
        match effective_joker_at(jokers, index) {
            Some(ability) => {
                apply_independent_joker(ability, played, scored_cards.as_slice(), held, jokers, steps);
            },
            None => {},
        }
        let ghost after = steps@;
        let polychrome = match joker.edition {
            Some(Edition::Polychrome) => true,
            _ => false,
        };
        if polychrome {
            steps.push(ScoreStep::TimesMult(MultFactor::OneAndAHalf));
        }
        proof {
            let own = joker_card_steps(index as int, played@, scored_cards@, held@, jokers@);
            assert(steps@ =~= before + own);
            assert(steps@ =~= start + jokers_steps(played@, scored_cards@, held@, jokers@, index + 1));
        }
        index = index + 1;
    }
}

/// Scores `round`: the poker hand it makes, the chips and mult of that
/// hand, and every change that the scored cards, the held cards and the
/// jokers then make, in order.
pub fn score(round: Round) -> (trace: ScoreTrace)
    ensures
        trace.hand == hand_of(round.cards_played@, round.jokers@),
        trace.chips == hand_base(trace.hand).0,
        trace.mult == hand_base(trace.hand).1,
        trace.steps@ == score_steps(round),
{
    let played = round.cards_played.as_slice();
    let best_hand = determine_poker_hand(played, round.jokers.as_slice());
    let (chips, mult) = hand_value(best_hand);
    let idx = collect_scoring_indices(&round);
    let face = find_first_face(&round, &idx);
    let mut steps: Vec<ScoreStep> = Vec::new();
    score_played(&round, &idx, face, &mut steps);
    score_held(&round, &mut steps);
    let mut scored_cards: Vec<Card> = Vec::new();
    let mut k: usize = 0;
    while k < idx.len()
        invariant
            k <= idx@.len(),
            played@ == round.cards_played@,
            forall|m: int| 0 <= m < idx@.len() ==> #[trigger] idx@[m] < played@.len(),
            scored_cards@ =~= cards_at(played@, idx@).take(k as int),
        decreases idx@.len() - k,
    {
        scored_cards.push(played[idx[k]]);
        k = k + 1;
    }
    assert(cards_at(played@, idx@).take(idx@.len() as int) =~= cards_at(played@, idx@));
    score_jokers(&round, &scored_cards, &mut steps);
    proof {
        let idx_spec = scoring_indices(round);
        assert(steps@ =~= score_steps(round));
    }
    ScoreTrace { hand: best_hand, chips, mult, steps }
}

} // verus!
