//! Joker resolution (Blueprint copies), the lowest held card, and the suit
//! cover that the Flower Pot asks for.

use vstd::prelude::*;

use crate::cards::{card_is_stone, card_matches_suit, is_stone, rank_number, rank_order, suit_matches, Card, Joker, JokerCard, Suit};

verus! {

/// The first joker at or after position `i` that is not a Blueprint.
pub open spec fn resolve_from(jokers: Seq<JokerCard>, i: int) -> Option<int>
    decreases jokers.len() - i,
{
    if i < 0 || i >= jokers.len() {
        None
    } else if jokers[i].joker != Joker::Blueprint {
        Some(i)
    } else {
        resolve_from(jokers, i + 1)
    }
}

/// Jokers that change the rules rather than the score; a Blueprint does not
/// copy them.
pub open spec fn is_passive(joker: Joker) -> bool {
    joker == Joker::FourFingers || joker == Joker::Shortcut || joker == Joker::Pareidolia || joker
        == Joker::Splash || joker == Joker::SmearedJoker
}

/// The ability that the joker at `source` acts with: its own, or for a
/// Blueprint that of the first non-Blueprint joker to its right, unless that
/// one is passive or there is none.
pub open spec fn effective_at(jokers: Seq<JokerCard>, source: int) -> Option<Joker> {
    match resolve_from(jokers, source) {
        None => None,
        Some(j) => if j != source && is_passive(jokers[j].joker) {
            None
        } else {
            Some(jokers[j].joker)
        },
    }
}

/// The abilities that the first `n` jokers act with, in order, skipping the
/// jokers that act with none.
pub open spec fn effective_list(jokers: Seq<JokerCard>, n: int) -> Seq<Joker>
    decreases n,
{
    if n <= 0 {
        Seq::empty()
    } else {
        let rest = effective_list(jokers, n - 1);
        match effective_at(jokers, n - 1) {
            Some(ability) => rest.push(ability),
            None => rest,
        }
    }
}

/// The abilities that all the jokers act with, in order.
pub open spec fn effective_abilities(jokers: Seq<JokerCard>) -> Seq<Joker> {
    effective_list(jokers, jokers.len() as int)
}

/// The ability that the joker at `source` acts with (see `effective_at`).
pub fn effective_joker_at(jokers: &[JokerCard], source: usize) -> (ability: Option<Joker>)
    ensures
        ability == effective_at(jokers@, source as int),
{
    let mut index = source;
    while index < jokers.len() && jokers[index].joker == Joker::Blueprint
        invariant
            source <= index,
            resolve_from(jokers@, index as int) == resolve_from(jokers@, source as int),
        decreases jokers@.len() - index,
    {
        index = index + 1;
    }
    if index >= jokers.len() {
        return None;
    }
    let copied = index != source;
    let ability = jokers[index].joker;
    let passive = match ability {
        Joker::FourFingers | Joker::Shortcut | Joker::Pareidolia | Joker::Splash | Joker::SmearedJoker => true,
        _ => false,
    };
    if copied && passive {
        None
    } else {
        Some(ability)
    }
}

/// The abilities that the jokers act with, in order, leaving out the jokers
/// that act with none.
pub fn effective_jokers(jokers: &[JokerCard]) -> (abilities: Vec<Joker>)
    ensures
        abilities@ == effective_abilities(jokers@),
{
    let mut abilities: Vec<Joker> = Vec::new();
    let mut i: usize = 0;
    while i < jokers.len()
        invariant
            i <= jokers@.len(),
            abilities@ == effective_list(jokers@, i as int),
        decreases jokers@.len() - i,
    {
        match effective_joker_at(jokers, i) {
            Some(ability) => abilities.push(ability),
            None => {},
        }
        i = i + 1;
    }
    abilities
}

/// Position `i` holds the lowest-ranked non-stone card, and the rightmost
/// one of that rank.
pub open spec fn is_lowest_rank_index(cards: Seq<Card>, i: int) -> bool {
    &&& 0 <= i < cards.len()
    &&& !is_stone(cards[i])
    &&& forall|j: int|
        0 <= j < cards.len() && !is_stone(#[trigger] cards[j]) ==> rank_number(cards[j].rank)
            > rank_number(cards[i].rank) || (rank_number(cards[j].rank) == rank_number(cards[i].rank)
            && j <= i)
}

/// The rightmost of the lowest-ranked non-stone cards, if any.
pub fn get_lowest_rank_card_index(cards: &[Card]) -> (lowest: Option<usize>)
    ensures
        match lowest {
            Some(i) => is_lowest_rank_index(cards@, i as int),
            None => forall|j: int| 0 <= j < cards@.len() ==> is_stone(#[trigger] cards@[j]),
        },
{
    let mut best: Option<usize> = None;
    let mut i: usize = 0;
    while i < cards.len()
        invariant
            i <= cards@.len(),
            match best {
                Some(k) => k < i && is_lowest_rank_index(cards@.take(i as int), k as int),
                None => forall|j: int| 0 <= j < i ==> is_stone(#[trigger] cards@[j]),
            },
        decreases cards@.len() - i,
    {
        let ghost prefix = cards@.take(i as int);
        let ghost next = cards@.take(i + 1);
        assert forall|j: int| 0 <= j < i + 1 implies #[trigger] next[j] == cards@[j] by {}
        assert forall|j: int| 0 <= j < i implies #[trigger] prefix[j] == cards@[j] by {}
        let card = cards[i];
        if !card_is_stone(&card) {
            match best {
                None => {
                    best = Some(i);
                },
                Some(k) => {
                    if rank_order(card.rank) <= rank_order(cards[k].rank) {
                        best = Some(i);
                    }
                },
            }
        }
        proof {
            match best {
                Some(k) => {
                    assert forall|j: int| 0 <= j < next.len() && !is_stone(#[trigger] next[j]) implies rank_number(next[j].rank)
                        > rank_number(next[k as int].rank) || (rank_number(next[j].rank) == rank_number(
                        next[k as int].rank,
                    ) && j <= k) by {
                        if j < i {
                            assert(prefix[j] == next[j]);
                        }
                    }
                },
                None => {},
            }
        }
        i = i + 1;
    }
    assert(cards@.take(cards@.len() as int) =~= cards@);
    best
}

/// The suit that position `k` of a Flower Pot cover stands for.
pub open spec fn flower_suit(k: int) -> Suit {
    if k == 0 {
        Suit::Diamonds
    } else if k == 1 {
        Suit::Clubs
    } else if k == 2 {
        Suit::Hearts
    } else {
        Suit::Spades
    }
}

/// No index occurs twice in `a`.
pub open spec fn distinct_indices(a: Seq<usize>) -> bool {
    forall|s: int, t: int| 0 <= s < t < a.len() ==> a[s] != a[t]
}

/// `a` gives the suits `k..4` of the cover distinct cards, none of them
/// marked in `used`, each counting as the suit it stands for.
pub open spec fn covers_rest(cards: Seq<Card>, used: Seq<bool>, k: int, a: Seq<usize>, smeared: bool) -> bool {
    &&& a.len() + k == 4
    &&& distinct_indices(a)
    &&& forall|t: int|
        0 <= t < a.len() ==> #[trigger] a[t] < cards.len() && !used[a[t] as int] && suit_matches(
            cards[a[t] as int],
            flower_suit(k + t),
            smeared,
        )
}

/// `a` names four distinct cards, a Diamond, a Club, a Heart and a Spade.
pub open spec fn suit_cover(cards: Seq<Card>, a: Seq<usize>, smeared: bool) -> bool {
    &&& a.len() == 4
    &&& distinct_indices(a)
    &&& forall|t: int|
        0 <= t < 4 ==> #[trigger] a[t] < cards.len() && suit_matches(cards[a[t] as int], flower_suit(t), smeared)
}

/// At least four cards, among which a Diamond, a Club, a Heart and a Spade,
/// each a different card.
pub open spec fn flower_pot_spec(cards: Seq<Card>, smeared: bool) -> bool {
    cards.len() >= 4 && exists|a: Seq<usize>| #[trigger] suit_cover(cards, a, smeared)
}

fn flower_suit_at(k: usize) -> (suit: Suit)
    ensures
        suit == flower_suit(k as int),
{
    if k == 0 {
        Suit::Diamonds
    } else if k == 1 {
        Suit::Clubs
    } else if k == 2 {
        Suit::Hearts
    } else {
        Suit::Spades
    }
}

/// Whether the suits `k..4` can be given to distinct cards not yet used.
fn assign(k: usize, cards: &[Card], smeared: bool, used: &mut Vec<bool>) -> (found: bool)
    requires
        old(used)@.len() == cards@.len(),
        k <= 4,
    ensures
        found == exists|a: Seq<usize>| #[trigger] covers_rest(cards@, old(used)@, k as int, a, smeared),
        !found ==> final(used)@ == old(used)@,
        final(used)@.len() == cards@.len(),
    decreases 4 - k,
{
    let ghost used0 = used@;
    if k == 4 {
        assert(covers_rest(cards@, used0, 4, Seq::<usize>::empty(), smeared));
        return true;
    }
    let suit = flower_suit_at(k);
    let mut c: usize = 0;
    while c < cards.len()
        invariant
            k < 4,
            c <= cards@.len(),
            used@ == used0,
            used0 == old(used)@,
            used0.len() == cards@.len(),
            suit == flower_suit(k as int),
            forall|a: Seq<usize>| #[trigger] covers_rest(cards@, used0, k as int, a, smeared) ==> a[0] >= c,
        decreases cards@.len() - c,
    {
        if !used[c] && card_matches_suit(cards[c], suit, smeared) {
            used.set(c, true);
            let ghost used1 = used@;
            let deeper = assign(k + 1, cards, smeared, used);
            if deeper {
                proof {
                    let rest = choose|a: Seq<usize>| #[trigger] covers_rest(cards@, used1, k + 1, a, smeared);
                    let a = seq![c].add(rest);
                    assert forall|t: int| 0 <= t < rest.len() implies #[trigger] rest[t] != c by {
                        assert(!used1[rest[t] as int]);
                    }
                    assert forall|t: int| 0 <= t < a.len() implies #[trigger] a[t] < cards@.len() && !used0[a[t] as int]
                        && suit_matches(cards@[a[t] as int], flower_suit(k + t), smeared) by {
                        if t > 0 {
                            assert(a[t] == rest[t - 1]);
                            assert(!used1[rest[t - 1] as int]);
                        }
                    }
                    assert forall|s: int, t: int| 0 <= s < t < a.len() implies a[s] != a[t] by {
                        if s == 0 {
                            assert(a[t] == rest[t - 1]);
                        } else {
                            assert(a[s] == rest[s - 1] && a[t] == rest[t - 1]);
                        }
                    }
                    assert(covers_rest(cards@, used0, k as int, a, smeared));
                }
                return true;
            }
            used.set(c, false);
            proof {
                assert(used@ =~= used0);
                assert forall|a: Seq<usize>| #[trigger] covers_rest(cards@, used0, k as int, a, smeared) implies a[0] >= c + 1 by {
                    if a[0] == c {
                        let rest = a.drop_first();
                        assert forall|t: int| 0 <= t < rest.len() implies #[trigger] rest[t] < cards@.len()
                            && !used1[rest[t] as int] && suit_matches(
                            cards@[rest[t] as int],
                            flower_suit(k + 1 + t),
                            smeared,
                        ) by {
                            assert(rest[t] == a[t + 1]);
                            assert(a[0] != a[t + 1]);
                        }
                        assert(covers_rest(cards@, used1, k + 1, rest, smeared));
                    }
                }
            }
        } else {
            proof {
                assert forall|a: Seq<usize>| #[trigger] covers_rest(cards@, used0, k as int, a, smeared) implies a[0] >= c + 1 by {
                    assert(a[0] < cards@.len());
                }
            }
        }
        c = c + 1;
    }
    proof {
        assert forall|a: Seq<usize>| !#[trigger] covers_rest(cards@, used0, k as int, a, smeared) by {
            if covers_rest(cards@, used0, k as int, a, smeared) {
                assert(a[0] < cards@.len());
            }
        }
    }
    false
}

/// Whether the cards hold, as four different cards, a Diamond, a Club, a
/// Heart and a Spade.
pub fn flower_pot_matches(cards: &[Card], smeared: bool) -> (found: bool)
    ensures
        found == flower_pot_spec(cards@, smeared),
{
    if cards.len() < 4 {
        return false;
    }
    let mut used: Vec<bool> = Vec::new();
    let mut i: usize = 0;
    while i < cards.len()
        invariant
            i <= cards@.len(),
            used@.len() == i,
            forall|j: int| 0 <= j < i ==> !#[trigger] used@[j],
        decreases cards@.len() - i,
    {
        used.push(false);
        i = i + 1;
    }
    let ghost unused = used@;
    let found = assign(0, cards, smeared, &mut used);
    proof {
        assert forall|a: Seq<usize>| #[trigger] covers_rest(cards@, unused, 0, a, smeared) <==> suit_cover(cards@, a, smeared) by {
            if suit_cover(cards@, a, smeared) {
                assert forall|t: int| 0 <= t < a.len() implies #[trigger] a[t] < cards@.len() && !unused[a[t] as int]
                    && suit_matches(cards@[a[t] as int], flower_suit(0 + t), smeared) by {}
            }
        }
        if found {
            let a = choose|a: Seq<usize>| #[trigger] covers_rest(cards@, unused, 0, a, smeared);
            assert(suit_cover(cards@, a, smeared));
        }
        if flower_pot_spec(cards@, smeared) {
            let a = choose|a: Seq<usize>| #[trigger] suit_cover(cards@, a, smeared);
            assert(covers_rest(cards@, unused, 0, a, smeared));
        }
    }
    found
}

} // verus!
