//! How the scoring changes when jokers are added or reordered.

use vstd::prelude::*;

use crate::cards::{Card, Joker, JokerCard, Round};
use crate::hands::{hand_of, has_joker};
use crate::jokers::{effective_abilities, effective_at, effective_list, resolve_from};
use crate::score::{
    abilities_on_held, abilities_on_scored, card_scoring_steps, cards_at, count_ability, face_card,
    first_face, held_once, held_steps, independent_steps, joker_card_steps, jokers_steps,
    on_scored_steps, played_steps, retriggers, score_steps, scoring_indices, trigger_steps, ScoreStep,
};
use crate::selection::scored_spec;

verus! {

/// A plain Joker card: the Joker ability, no edition.
pub open spec fn plain_joker() -> JokerCard {
    JokerCard { joker: Joker::Joker, edition: None }
}

/// No Blueprint chain runs off the end of `jokers`: there are none, or the
/// last is not a Blueprint.
pub open spec fn ends_without_blueprint(jokers: Seq<JokerCard>) -> bool {
    jokers.len() == 0 || jokers.last().joker != Joker::Blueprint
}

proof fn lemma_resolve_push(j1: Seq<JokerCard>, extra: JokerCard, i: int)
    requires
        0 <= i < j1.len(),
        ends_without_blueprint(j1),
    ensures
        resolve_from(j1.push(extra), i) == resolve_from(j1, i),
    decreases j1.len() - i,
{
    let j2 = j1.push(extra);
    assert(j2[i] == j1[i]);
    if j1[i].joker == Joker::Blueprint {
        assert(i < j1.len() - 1);
        lemma_resolve_push(j1, extra, i + 1);
    }
}

proof fn lemma_resolve_lands(jokers: Seq<JokerCard>, i: int)
    ensures
        resolve_from(jokers, i) matches Some(j) ==> i <= j < jokers.len(),
    decreases jokers.len() - i,
{
    if 0 <= i < jokers.len() && jokers[i].joker == Joker::Blueprint {
        lemma_resolve_lands(jokers, i + 1);
    }
}

proof fn lemma_list_push(j1: Seq<JokerCard>, k: int)
    requires
        0 <= k <= j1.len(),
        ends_without_blueprint(j1),
    ensures
        effective_list(j1.push(plain_joker()), k) == effective_list(j1, k),
    decreases k,
{
    if k > 0 {
        lemma_list_push(j1, k - 1);
        lemma_resolve_push(j1, plain_joker(), k - 1);
        assert(j1.push(plain_joker())[k - 1] == j1[k - 1]);
        lemma_resolve_lands(j1, k - 1);
        match resolve_from(j1, k - 1) {
            Some(j) => {
                assert(j1.push(plain_joker())[j] == j1[j]);
            },
            None => {},
        }
    }
}

proof fn lemma_has_push(j1: Seq<JokerCard>, x: Joker)
    requires
        x != Joker::Joker,
    ensures
        has_joker(j1.push(plain_joker()), x) == has_joker(j1, x),
{
    let j2 = j1.push(plain_joker());
    if has_joker(j2, x) {
        let i = choose|i: int| 0 <= i < j2.len() && #[trigger] j2[i].joker == x;
        assert(j1[i] == j2[i]);
    }
    if has_joker(j1, x) {
        let i = choose|i: int| 0 <= i < j1.len() && #[trigger] j1[i].joker == x;
        assert(j1[i] == j2[i]);
    }
}

proof fn lemma_flags_push(j1: Seq<JokerCard>)
    ensures
        has_joker(j1.push(plain_joker()), Joker::FourFingers) == has_joker(j1, Joker::FourFingers),
        has_joker(j1.push(plain_joker()), Joker::Shortcut) == has_joker(j1, Joker::Shortcut),
        has_joker(j1.push(plain_joker()), Joker::SmearedJoker) == has_joker(j1, Joker::SmearedJoker),
        has_joker(j1.push(plain_joker()), Joker::Splash) == has_joker(j1, Joker::Splash),
        has_joker(j1.push(plain_joker()), Joker::Pareidolia) == has_joker(j1, Joker::Pareidolia),
        forall|c: Card| face_card(c, j1.push(plain_joker())) == #[trigger] face_card(c, j1),
{
    lemma_has_push(j1, Joker::FourFingers);
    lemma_has_push(j1, Joker::Shortcut);
    lemma_has_push(j1, Joker::SmearedJoker);
    lemma_has_push(j1, Joker::Splash);
    lemma_has_push(j1, Joker::Pareidolia);
}

proof fn lemma_scored_push(abilities: Seq<Joker>, c: Card, j1: Seq<JokerCard>, ff: bool, fc: bool)
    ensures
        abilities_on_scored(abilities, c, j1.push(plain_joker()), ff) == abilities_on_scored(abilities, c, j1, ff),
        retriggers(abilities, c, j1.push(plain_joker()), fc) == retriggers(abilities, c, j1, fc),
    decreases abilities.len(),
{
    lemma_flags_push(j1);
    if abilities.len() > 0 {
        lemma_scored_push(abilities.drop_last(), c, j1, ff, fc);
        assert(on_scored_steps(abilities.last(), c, j1.push(plain_joker()), ff) == on_scored_steps(
            abilities.last(),
            c,
            j1,
            ff,
        ));
    }
}

proof fn lemma_card_scoring_push(c: Card, j1: Seq<JokerCard>, first_card: bool, ff: bool)
    requires
        ends_without_blueprint(j1),
    ensures
        card_scoring_steps(c, j1.push(plain_joker()), first_card, ff) == card_scoring_steps(c, j1, first_card, ff),
{
    let j2 = j1.push(plain_joker());
    let a1 = effective_abilities(j1);
    lemma_list_push(j1, j1.len() as int);
    lemma_resolve_lands(j2, j1.len() as int);
    assert(j2[j1.len() as int] == plain_joker());
    assert(effective_abilities(j2) == a1.push(Joker::Joker));
    assert(a1.push(Joker::Joker).drop_last() =~= a1);
    lemma_scored_push(a1, c, j1, ff, first_card);
    assert(trigger_steps(c, j2, ff) =~= trigger_steps(c, j1, ff));
}

proof fn lemma_first_face_push(cards: Seq<Card>, idx: Seq<usize>, j1: Seq<JokerCard>)
    ensures
        first_face(cards, idx, j1.push(plain_joker())) == first_face(cards, idx, j1),
    decreases idx.len(),
{
    lemma_flags_push(j1);
    if idx.len() > 0 {
        lemma_first_face_push(cards, idx.drop_first(), j1);
    }
}

proof fn lemma_played_push(cards: Seq<Card>, idx: Seq<usize>, face: Option<usize>, j1: Seq<JokerCard>, k: int)
    requires
        ends_without_blueprint(j1),
    ensures
        played_steps(cards, idx, face, j1.push(plain_joker()), k) == played_steps(cards, idx, face, j1, k),
    decreases k,
{
    if k > 0 {
        lemma_played_push(cards, idx, face, j1, k - 1);
        lemma_card_scoring_push(cards[idx[k - 1] as int], j1, k - 1 == 0, face == Some(idx[k - 1]));
    }
}

proof fn lemma_held_push(held: Seq<Card>, j1: Seq<JokerCard>, k: int)
    requires
        ends_without_blueprint(j1),
    ensures
        held_steps(held, j1.push(plain_joker()), k) == held_steps(held, j1, k),
    decreases k,
{
    let j2 = j1.push(plain_joker());
    let a1 = effective_abilities(j1);
    lemma_list_push(j1, j1.len() as int);
    lemma_resolve_lands(j2, j1.len() as int);
    assert(j2[j1.len() as int] == plain_joker());
    assert(effective_abilities(j2) == a1.push(Joker::Joker));
    assert(a1.push(Joker::Joker).drop_last() =~= a1);
    if k > 0 {
        lemma_held_push(held, j1, k - 1);
        assert(count_ability(a1.push(Joker::Joker), Joker::Mime) == count_ability(a1, Joker::Mime));
        let card = held[k - 1];
        assert(abilities_on_held(a1.push(Joker::Joker), k - 1, card, held) =~= abilities_on_held(a1, k - 1, card, held));
        assert(held_once(held, k - 1, j2) == held_once(held, k - 1, j1));
    }
}

proof fn lemma_jokers_push(
    played: Seq<Card>,
    scored: Seq<Card>,
    held: Seq<Card>,
    j1: Seq<JokerCard>,
    k: int,
)
    requires
        0 <= k <= j1.len(),
        ends_without_blueprint(j1),
        forall|i: int| 0 <= i < j1.len() ==> #[trigger] j1[i].joker != Joker::AbstractJoker,
    ensures
        jokers_steps(played, scored, held, j1.push(plain_joker()), k) == jokers_steps(played, scored, held, j1, k),
    decreases k,
{
    if k > 0 {
        let j2 = j1.push(plain_joker());
        let i = k - 1;
        lemma_jokers_push(played, scored, held, j1, k - 1);
        lemma_flags_push(j1);
        lemma_resolve_push(j1, plain_joker(), i);
        lemma_resolve_lands(j1, i);
        assert(j2[i] == j1[i]);
        match resolve_from(j1, i) {
            Some(j) => {
                assert(j2[j] == j1[j]);
                assert(j1[j].joker != Joker::AbstractJoker);
                assert(independent_steps(j1[j].joker, played, scored, held, j2) == independent_steps(
                    j1[j].joker,
                    played,
                    scored,
                    held,
                    j1,
                ));
            },
            None => {},
        }
        assert(effective_at(j2, i) == effective_at(j1, i));
        assert(joker_card_steps(i, played, scored, held, j2) == joker_card_steps(i, played, scored, held, j1));
    }
}

/// A plain Joker (no edition) added at the end of the jokers adds exactly
/// +4 Mult, after every other step, and changes nothing else — provided no
/// Abstract Joker counts the jokers and no Blueprint at the end would copy
/// the new one.
pub proof fn law_plain_joker_adds_four_mult(round: Round, round2: Round)
    requires
        round2.cards_played@ == round.cards_played@,
        round2.cards_held_in_hand@ == round.cards_held_in_hand@,
        round2.jokers@ == round.jokers@.push(plain_joker()),
        ends_without_blueprint(round.jokers@),
        forall|i: int| 0 <= i < round.jokers@.len() ==> #[trigger] round.jokers@[i].joker != Joker::AbstractJoker,
    ensures
        score_steps(round2) == score_steps(round).push(ScoreStep::AddMult(4)),
{
    let j1 = round.jokers@;
    let j2 = round2.jokers@;
    let played = round.cards_played@;
    let held = round.cards_held_in_hand@;
    lemma_flags_push(j1);
    assert(hand_of(played, j2) == hand_of(played, j1));
    assert(scored_spec(played, hand_of(played, j2), j2) == scored_spec(played, hand_of(played, j1), j1));
    let idx = scoring_indices(round);
    assert(scoring_indices(round2) == idx);
    lemma_first_face_push(played, idx, j1);
    let face = first_face(played, idx, j1);
    lemma_played_push(played, idx, face, j1, idx.len() as int);
    lemma_held_push(held, j1, held.len() as int);
    let scored = cards_at(played, idx);
    lemma_jokers_push(played, scored, held, j1, j1.len() as int);
    let n = j1.len() as int;
    assert(j2[n] == plain_joker());
    assert(resolve_from(j2, n) == Some(n));
    assert(effective_at(j2, n) == Some(Joker::Joker));
    assert(joker_card_steps(n, played, scored, held, j2) =~= seq![ScoreStep::AddMult(4)]);
    assert(jokers_steps(played, scored, held, j2, n + 1) == jokers_steps(played, scored, held, j1, n).push(
        ScoreStep::AddMult(4),
    ));
    assert(score_steps(round2) =~= score_steps(round).push(ScoreStep::AddMult(4)));
}

} // verus!
