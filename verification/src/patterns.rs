//! Straights, flushes and the combinations of played cards they are looked
//! for in.

use vstd::prelude::*;

use crate::cards::{card_is_stone, card_matches_suit, is_stone, rank_number, rank_order, suit_matches, Card, Suit};

verus! {

/// A sequence of indices that only grows.
pub open spec fn increasing(s: Seq<usize>) -> bool {
    forall|a: int, b: int| 0 <= a < b < s.len() ==> s[a] < s[b]
}

/// The indices of the cards of `cards` that are not stone cards, in order.
pub open spec fn candidates(cards: Seq<Card>) -> Seq<usize>
    decreases cards.len(),
{
    if cards.len() == 0 {
        Seq::empty()
    } else {
        let rest = candidates(cards.drop_last());
        if is_stone(cards.last()) {
            rest
        } else {
            rest.push((cards.len() - 1) as usize)
        }
    }
}

/// All the ways to choose `size` of `items`, each kept in the order of
/// `items`, listed lexicographically by position: first every choice that
/// takes `items[0]`, then every choice that leaves it out.
pub open spec fn combos(items: Seq<usize>, size: nat) -> Seq<Seq<usize>>
    decreases items.len(),
{
    if size == 0 {
        seq![Seq::<usize>::empty()]
    } else if items.len() == 0 {
        Seq::empty()
    } else {
        let head = items[0];
        combos(items.drop_first(), (size - 1) as nat).map_values(
            |c: Seq<usize>| seq![head] + c,
        ) + combos(items.drop_first(), size)
    }
}

/// The views of a vector of index vectors.
pub open spec fn nested(v: Seq<Vec<usize>>) -> Seq<Seq<usize>> {
    v.map_values(|x: Vec<usize>| x@)
}

/// All indices of `idx` point into `cards`.
pub open spec fn indices_in(cards: Seq<Card>, idx: Seq<usize>) -> bool {
    forall|k: int| 0 <= k < idx.len() ==> #[trigger] idx[k] < cards.len()
}

/// Every card chosen by `idx` counts as `suit`.
pub open spec fn all_match_suit(cards: Seq<Card>, idx: Seq<usize>, suit: Suit, smeared: bool) -> bool {
    forall|k: int| 0 <= k < idx.len() ==> suit_matches(cards[#[trigger] idx[k] as int], suit, smeared)
}

/// The cards chosen by `idx` all count as one suit.
pub open spec fn flush_spec(cards: Seq<Card>, idx: Seq<usize>, smeared: bool) -> bool {
    exists|suit: Suit| #[trigger] all_match_suit(cards, idx, suit, smeared)
}

/// The rank numbers of the cards chosen by `idx`.
pub open spec fn index_ranks(cards: Seq<Card>, idx: Seq<usize>) -> Seq<int> {
    Seq::new(idx.len(), |k: int| rank_number(cards[idx[k] as int].rank))
}

/// No number occurs twice in `s`.
pub open spec fn distinct_ints(s: Seq<int>) -> bool {
    forall|a: int, b: int| 0 <= a < b < s.len() ==> s[a] != s[b]
}

/// Some number in `s` is greater than `x`.
pub open spec fn has_above(s: Seq<int>, x: int) -> bool {
    exists|b: int| 0 <= b < s.len() && #[trigger] s[b] > x
}

/// `s` holds `x + 1`, or `x + 2` when gaps of one rank are allowed.
pub open spec fn has_next(s: Seq<int>, x: int, shortcut: bool) -> bool {
    exists|b: int| 0 <= b < s.len() && (#[trigger] s[b] == x + 1 || (shortcut && s[b] == x + 2))
}

/// Once sorted, neighbouring numbers of `s` differ by one (or, with
/// `shortcut`, by one or two): every number but the largest is followed by
/// its successor (or the one after).
pub open spec fn gaps_closed(s: Seq<int>, shortcut: bool) -> bool {
    forall|a: int| 0 <= a < s.len() && has_above(s, #[trigger] s[a]) ==> has_next(s, s[a], shortcut)
}

/// `s` with an Ace (14) counted low (1).
pub open spec fn ace_low(s: Seq<int>) -> Seq<int> {
    Seq::new(s.len(), |k: int| if s[k] == 14 { 1 } else { s[k] })
}

/// The cards chosen by `idx` have distinct ranks that run without a gap
/// (gaps of one rank allowed with `shortcut`), with the Ace high or low.
pub open spec fn straight_spec(cards: Seq<Card>, idx: Seq<usize>, shortcut: bool) -> bool {
    let s = index_ranks(cards, idx);
    distinct_ints(s) && (gaps_closed(s, shortcut) || (s.contains(14) && gaps_closed(
        ace_low(s),
        shortcut,
    )))
}

/// Whether the chosen cards form the pattern: a straight when `straight`
/// holds (with `flag` the shortcut), else a flush (with `flag` smearing).
pub open spec fn pattern_holds(cards: Seq<Card>, idx: Seq<usize>, straight: bool, flag: bool) -> bool {
    if straight {
        straight_spec(cards, idx, flag)
    } else {
        flush_spec(cards, idx, flag)
    }
}

/// The first choice of `cs` that forms the pattern.
pub open spec fn first_with_pattern(
    cards: Seq<Card>,
    cs: Seq<Seq<usize>>,
    straight: bool,
    flag: bool,
) -> Option<Seq<usize>>
    decreases cs.len(),
{
    if cs.len() == 0 {
        None
    } else if pattern_holds(cards, cs[0], straight, flag) {
        Some(cs[0])
    } else {
        first_with_pattern(cards, cs.drop_first(), straight, flag)
    }
}

/// The first five non-stone cards (in the order of `combos`) that form the
/// pattern; failing those, and only with Four Fingers, the first four.
pub open spec fn find_pattern(cards: Seq<Card>, four_fingers: bool, straight: bool, flag: bool) -> Option<
    Seq<usize>,
> {
    match first_with_pattern(cards, combos(candidates(cards), 5), straight, flag) {
        Some(found) => Some(found),
        None => if four_fingers {
            first_with_pattern(cards, combos(candidates(cards), 4), straight, flag)
        } else {
            None
        },
    }
}

/// The view of an optional index vector.
pub open spec fn opt_view(v: Option<Vec<usize>>) -> Option<Seq<usize>> {
    match v {
        Some(x) => Some(x@),
        None => None,
    }
}

/// What a combination of `items` is: `size` of them, in the order of
/// `items`.
pub open spec fn combo_ok(items: Seq<usize>, c: Seq<usize>, size: nat) -> bool {
    &&& c.len() == size
    &&& forall|j: int| 0 <= j < c.len() ==> items.contains(#[trigger] c[j])
    &&& increasing(items) ==> increasing(c)
}

pub proof fn lemma_combos(items: Seq<usize>, size: nat)
    ensures
        forall|i: int|
            0 <= i < combos(items, size).len() ==> combo_ok(items, #[trigger] combos(items, size)[i], size),
    decreases items.len(),
{
    if size == 0 {
    } else if items.len() == 0 {
    } else {
        let rest = items.drop_first();
        let head = items[0];
        lemma_combos(rest, (size - 1) as nat);
        lemma_combos(rest, size);
        let with = combos(rest, (size - 1) as nat);
        let without = combos(rest, size);
        let all = combos(items, size);
        assert(all == with.map_values(|c: Seq<usize>| seq![head] + c) + without);
        assert forall|i: int| 0 <= i < all.len() implies combo_ok(items, #[trigger] all[i], size) by {
            if i < with.len() {
                let c = with[i];
                assert(combo_ok(rest, c, (size - 1) as nat));
                assert(all[i] == seq![head] + c);
                let d = seq![head] + c;
                assert forall|j: int| 0 <= j < d.len() implies items.contains(#[trigger] d[j]) by {
                    if j == 0 {
                        assert(items[0] == d[j]);
                    } else {
                        assert(d[j] == c[j - 1]);
                        assert(rest.contains(c[j - 1]));
                        let k = choose|k: int| 0 <= k < rest.len() && rest[k] == c[j - 1];
                        assert(items[k + 1] == rest[k]);
                    }
                }
                if increasing(items) {
                    assert(increasing(rest));
                    assert forall|a: int, b: int| 0 <= a < b < d.len() implies d[a] < d[b] by {
                        if a == 0 {
                            assert(rest.contains(c[b - 1]));
                            let k = choose|k: int| 0 <= k < rest.len() && rest[k] == c[b - 1];
                            assert(items[k + 1] == rest[k]);
                        } else {
                            assert(d[a] == c[a - 1] && d[b] == c[b - 1]);
                        }
                    }
                }
            } else {
                let c = without[i - with.len()];
                assert(all[i] == c);
                assert(combo_ok(rest, c, size));
                assert forall|j: int| 0 <= j < c.len() implies items.contains(#[trigger] c[j]) by {
                    assert(rest.contains(c[j]));
                    let k = choose|k: int| 0 <= k < rest.len() && rest[k] == c[j];
                    assert(items[k + 1] == rest[k]);
                }
                if increasing(items) {
                    assert(increasing(rest));
                }
            }
        }
    }
}

/// What the non-stone indices of `cards` are.
pub proof fn lemma_candidates(cards: Seq<Card>)
    requires
        cards.len() <= usize::MAX,
    ensures
        increasing(candidates(cards)),
        forall|k: int|
            0 <= k < candidates(cards).len() ==> #[trigger] candidates(cards)[k] < cards.len()
                && !is_stone(cards[candidates(cards)[k] as int]),
        forall|i: int|
            0 <= i < cards.len() && !is_stone(cards[i]) ==> #[trigger] candidates(cards).contains(
                i as usize,
            ),
    decreases cards.len(),
{
    if cards.len() > 0 {
        let rest = cards.drop_last();
        lemma_candidates(rest);
        let c = candidates(cards);
        let rc = candidates(rest);
        assert forall|k: int| 0 <= k < rc.len() implies #[trigger] rc[k] < cards.len() - 1 && cards[rc[k] as int]
            == rest[rc[k] as int] by {}
        if !is_stone(cards.last()) {
            assert(c == rc.push((cards.len() - 1) as usize));
            assert forall|a: int, b: int| 0 <= a < b < c.len() implies c[a] < c[b] by {
                if b == c.len() - 1 {
                    assert(c[a] == rc[a] && rc[a] < cards.len() - 1);
                    assert(c[b] == cards.len() - 1);
                } else {
                    assert(c[a] == rc[a] && c[b] == rc[b]);
                }
            }
        }
        assert forall|i: int| 0 <= i < cards.len() && !is_stone(cards[i]) implies #[trigger] c.contains(
            i as usize,
        ) by {
            if i < cards.len() - 1 {
                assert(rest[i] == cards[i]);
                assert(candidates(rest).contains(i as usize));
                let k = choose|k: int| 0 <= k < candidates(rest).len() && candidates(rest)[k] == i as usize;
                assert(c[k] == candidates(rest)[k]);
            } else {
                assert(c[c.len() - 1] == i as usize);
            }
        }
    }
}

/// Whether every card chosen by `indices` counts as `suit`.
fn all_cards_match(cards: &[Card], indices: &[usize], suit: Suit, smeared: bool) -> (all: bool)
    requires
        indices_in(cards@, indices@),
    ensures
        all == all_match_suit(cards@, indices@, suit, smeared),
{
    let mut k: usize = 0;
    while k < indices.len()
        invariant
            k <= indices@.len(),
            indices_in(cards@, indices@),
            forall|j: int| 0 <= j < k ==> suit_matches(cards@[#[trigger] indices@[j] as int], suit, smeared),
        decreases indices@.len() - k,
    {
        let index = indices[k];
        if !card_matches_suit(cards[index], suit, smeared) {
            return false;
        }
        k = k + 1;
    }
    true
}

/// Whether the cards chosen by `indices` all count as one suit.
pub fn flush_candidate(cards: &[Card], indices: &[usize], smeared: bool) -> (flush: bool)
    requires
        indices_in(cards@, indices@),
    ensures
        flush == flush_spec(cards@, indices@, smeared),
{
    let spades = all_cards_match(cards, indices, Suit::Spades, smeared);
    let hearts = all_cards_match(cards, indices, Suit::Hearts, smeared);
    let clubs = all_cards_match(cards, indices, Suit::Clubs, smeared);
    let diamonds = all_cards_match(cards, indices, Suit::Diamonds, smeared);
    proof {
        if !(spades || hearts || clubs || diamonds) {
            assert forall|suit: Suit| !#[trigger] all_match_suit(cards@, indices@, suit, smeared) by {
                match suit {
                    Suit::Spades => {},
                    Suit::Hearts => {},
                    Suit::Clubs => {},
                    Suit::Diamonds => {},
                }
            }
        }
    }
    spades || hearts || clubs || diamonds
}

/// The numbers held by a vector of bytes.
pub open spec fn ints(v: Seq<u8>) -> Seq<int> {
    Seq::new(v.len(), |k: int| v[k] as int)
}

/// Whether no number occurs twice in `ranks`.
fn ranks_distinct(ranks: &Vec<u8>) -> (distinct: bool)
    ensures
        distinct == distinct_ints(ints(ranks@)),
{
    let ghost s = ints(ranks@);
    let mut a: usize = 0;
    while a < ranks.len()
        invariant
            a <= ranks@.len(),
            s == ints(ranks@),
            forall|x: int, y: int| 0 <= x < a && x < y < s.len() ==> s[x] != s[y],
        decreases ranks@.len() - a,
    {
        let mut b: usize = a + 1;
        while b < ranks.len()
            invariant
                a < b <= ranks@.len(),
                s == ints(ranks@),
                forall|y: int| a < y < b ==> s[a as int] != #[trigger] s[y],
            decreases ranks@.len() - b,
        {
            if ranks[a] == ranks[b] {
                assert(s[a as int] == s[b as int]);
                return false;
            }
            b = b + 1;
        }
        a = a + 1;
    }
    true
}

/// Whether every number of `ranks` but the largest is followed by its
/// successor (or, with `shortcut`, by the number after that).
fn ranks_gaps_closed(ranks: &Vec<u8>, shortcut: bool) -> (closed: bool)
    ensures
        closed == gaps_closed(ints(ranks@), shortcut),
{
    let ghost s = ints(ranks@);
    let mut a: usize = 0;
    while a < ranks.len()
        invariant
            a <= ranks@.len(),
            s == ints(ranks@),
            forall|x: int| 0 <= x < a && has_above(s, #[trigger] s[x]) ==> has_next(s, s[x], shortcut),
        decreases ranks@.len() - a,
    {
        let x = ranks[a];
        let mut above = false;
        let mut next = false;
        let mut b: usize = 0;
        while b < ranks.len()
            invariant
                a < ranks@.len(),
                b <= ranks@.len(),
                s == ints(ranks@),
                x as int == s[a as int],
                above == exists|y: int| 0 <= y < b && #[trigger] s[y] > x,
                next == exists|y: int| 0 <= y < b && (#[trigger] s[y] == x + 1 || (shortcut && s[y] == x + 2)),
            decreases ranks@.len() - b,
        {
            let y = ranks[b];
            assert(s[b as int] == y);
            if y > x {
                above = true;
            }
            if y as u16 == x as u16 + 1 || (shortcut && y as u16 == x as u16 + 2) {
                next = true;
            }
            b = b + 1;
        }
        if above && !next {
            assert(has_above(s, s[a as int]));
            return false;
        }
        a = a + 1;
    }
    true
}

/// Whether the cards chosen by `indices` have distinct ranks that run
/// without a gap (gaps of one rank allowed with `shortcut`), the Ace counting
/// high or low.
pub fn straight_candidate(cards: &[Card], indices: &[usize], shortcut: bool) -> (straight: bool)
    requires
        indices_in(cards@, indices@),
    ensures
        straight == straight_spec(cards@, indices@, shortcut),
{
    let ghost target = index_ranks(cards@, indices@);
    let mut ranks: Vec<u8> = Vec::new();
    let mut k: usize = 0;
    while k < indices.len()
        invariant
            k <= indices@.len(),
            indices_in(cards@, indices@),
            target == index_ranks(cards@, indices@),
            ranks@.len() == k,
            target.len() == indices@.len(),
            ints(ranks@) =~= target.take(k as int),
        decreases indices@.len() - k,
    {
        let index = indices[k];
        let order = rank_order(cards[index].rank);
        let ghost before = ranks@;
        ranks.push(order);
        assert(target[k as int] == order as int);
        assert forall|m: int| 0 <= m < k + 1 implies #[trigger] ints(ranks@)[m] == target.take(k + 1)[m] by {
            if m < k {
                assert(ranks@[m] == before[m]);
                assert(ints(before)[m] == target.take(k as int)[m]);
            }
        }
        k = k + 1;
    }
    assert(target.take(indices@.len() as int) =~= target);
    if !ranks_distinct(&ranks) {
        return false;
    }
    if ranks_gaps_closed(&ranks, shortcut) {
        return true;
    }
    let mut has_ace = false;
    let mut low: Vec<u8> = Vec::new();
    let mut j: usize = 0;
    while j < ranks.len()
        invariant
            j <= ranks@.len(),
            ints(ranks@) == target,
            has_ace == exists|y: int| 0 <= y < j && #[trigger] target[y] == 14,
            low@.len() == j,
            ranks@.len() == target.len(),
            ints(low@) =~= ace_low(target).take(j as int),
        decreases ranks@.len() - j,
    {
        let r = ranks[j];
        assert(target[j as int] == r);
        let ghost before = low@;
        if r == 14 {
            has_ace = true;
            low.push(1);
        } else {
            low.push(r);
        }
        assert forall|m: int| 0 <= m < j + 1 implies #[trigger] ints(low@)[m] == ace_low(target).take(j + 1)[m] by {
            if m < j {
                assert(low@[m] == before[m]);
                assert(ints(before)[m] == ace_low(target).take(j as int)[m]);
            }
        }
        j = j + 1;
    }
    assert(ace_low(target).take(target.len() as int) =~= ace_low(target));
    proof {
        if has_ace {
            let y = choose|y: int| 0 <= y < target.len() && target[y] == 14;
            assert(target.contains(14));
        }
        if target.contains(14) {
            let y = choose|y: int| 0 <= y < target.len() && target[y] == 14;
            assert(target[y] == 14);
        }
    }
    if !has_ace {
        return false;
    }
    ranks_gaps_closed(&low, shortcut)
}

/// Every combination of the non-stone cards points into `cards`.
pub proof fn lemma_combos_in_range(cards: Seq<Card>, size: nat)
    requires
        cards.len() <= usize::MAX,
    ensures
        forall|i: int|
            0 <= i < combos(candidates(cards), size).len() ==> #[trigger] indices_in(
                cards,
                combos(candidates(cards), size)[i],
            ),
        forall|i: int|
            0 <= i < combos(candidates(cards), size).len() ==> combo_ok(
                candidates(cards),
                #[trigger] combos(candidates(cards), size)[i],
                size,
            ),
{
    let cands = candidates(cards);
    lemma_candidates(cards);
    lemma_combos(cands, size);
    assert forall|i: int| 0 <= i < combos(cands, size).len() implies #[trigger] indices_in(
        cards,
        combos(cands, size)[i],
    ) by {
        let c = combos(cands, size)[i];
        assert(combo_ok(cands, c, size));
        assert forall|k: int| 0 <= k < c.len() implies #[trigger] c[k] < cards.len() by {
            assert(cands.contains(c[k]));
            let j = choose|j: int| 0 <= j < cands.len() && cands[j] == c[k];
            assert(cands[j] < cards.len());
        }
    }
}

/// A copy of an index list.
pub(crate) fn copy_indices(v: &Vec<usize>) -> (copy: Vec<usize>)
    ensures
        copy@ == v@,
{
    let mut copy: Vec<usize> = Vec::new();
    let mut k: usize = 0;
    while k < v.len()
        invariant
            k <= v@.len(),
            copy@ =~= v@.take(k as int),
        decreases v@.len() - k,
    {
        copy.push(v[k]);
        k = k + 1;
    }
    assert(v@.take(v@.len() as int) =~= v@);
    copy
}

/// The combinations of `size` of `items[from..]`.
fn combos_from(items: &Vec<usize>, from: usize, size: usize) -> (all: Vec<Vec<usize>>)
    requires
        from <= items@.len(),
    ensures
        nested(all@) == combos(items@.subrange(from as int, items@.len() as int), size as nat),
    decreases items@.len() - from,
{
    let ghost sub = items@.subrange(from as int, items@.len() as int);
    if size == 0 {
        let mut all: Vec<Vec<usize>> = Vec::new();
        all.push(Vec::new());
        assert(nested(all@) =~= seq![Seq::<usize>::empty()]);
        return all;
    }
    if from == items.len() {
        let all: Vec<Vec<usize>> = Vec::new();
        assert(sub.len() == 0);
        assert(nested(all@) =~= combos(sub, size as nat));
        return all;
    }
    let head = items[from];
    let ghost rest = items@.subrange(from + 1, items@.len() as int);
    assert(sub.drop_first() =~= rest);
    assert(sub[0] == head);
    let with = combos_from(items, from + 1, size - 1);
    let mut without = combos_from(items, from + 1, size);
    let mut all: Vec<Vec<usize>> = Vec::new();
    let mut i: usize = 0;
    while i < with.len()
        invariant
            i <= with@.len(),
            all@.len() == i,
            forall|m: int| 0 <= m < i ==> (#[trigger] all@[m])@ == seq![head] + with@[m]@,
        decreases with@.len() - i,
    {
        let w = &with[i];
        let mut c: Vec<usize> = Vec::new();
        c.push(head);
        let mut j: usize = 0;
        while j < w.len()
            invariant
                j <= w@.len(),
                c@ =~= seq![head] + w@.take(j as int),
            decreases w@.len() - j,
        {
            c.push(w[j]);
            j = j + 1;
        }
        assert(w@.take(w@.len() as int) =~= w@);
        all.push(c);
        i = i + 1;
    }
    let ghost firsts = all@;
    let ghost tail = without@;
    all.append(&mut without);
    proof {
        let target = combos(sub, size as nat);
        let with_spec = combos(rest, (size - 1) as nat);
        let without_spec = combos(rest, size as nat);
        assert(nested(with@) == with_spec);
        assert(nested(tail) == without_spec);
        assert(target == with_spec.map_values(|c: Seq<usize>| seq![head] + c) + without_spec);
        assert forall|m: int| 0 <= m < target.len() implies #[trigger] nested(all@)[m] == target[m] by {
            if m < with@.len() {
                assert(nested(with@)[m] == with@[m]@);
                assert(all@[m] == firsts[m]);
            } else {
                assert(all@[m] == tail[m - with@.len()]);
                assert(nested(tail)[m - with@.len()] == tail[m - with@.len()]@);
            }
        }
        assert(nested(all@) =~= target);
    }
    all
}

/// The indices of the cards that are not stone cards, in order.
pub fn non_stone_indices(cards: &[Card]) -> (items: Vec<usize>)
    ensures
        items@ == candidates(cards@),
{
    let mut items: Vec<usize> = Vec::new();
    let mut i: usize = 0;
    while i < cards.len()
        invariant
            i <= cards@.len(),
            items@ == candidates(cards@.take(i as int)),
        decreases cards@.len() - i,
    {
        proof {
            let next = cards@.take(i + 1);
            assert(next.drop_last() =~= cards@.take(i as int));
            assert(next.last() == cards@[i as int]);
        }
        if !card_is_stone(&cards[i]) {
            items.push(i);
        }
        i = i + 1;
    }
    assert(cards@.take(cards@.len() as int) =~= cards@);
    items
}

/// Every way to choose `size` of the non-stone cards, as ascending index
/// lists, in the order of `combos`.
pub fn combinations(cards: &[Card], size: usize) -> (all: Vec<Vec<usize>>)
    ensures
        nested(all@) == combos(candidates(cards@), size as nat),
{
    let items = non_stone_indices(cards);
    assert(items@.subrange(0, items@.len() as int) =~= items@);
    combos_from(&items, 0, size)
}

fn pattern_check(cards: &[Card], indices: &[usize], straight: bool, flag: bool) -> (holds: bool)
    requires
        indices_in(cards@, indices@),
    ensures
        holds == pattern_holds(cards@, indices@, straight, flag),
{
    if straight {
        straight_candidate(cards, indices, flag)
    } else {
        flush_candidate(cards, indices, flag)
    }
}

/// The first of `choices` that forms the pattern.
fn first_with(cards: &[Card], choices: &Vec<Vec<usize>>, straight: bool, flag: bool) -> (found: Option<
    Vec<usize>,
>)
    requires
        forall|i: int| 0 <= i < choices@.len() ==> #[trigger] indices_in(cards@, choices@[i]@),
    ensures
        opt_view(found) == first_with_pattern(cards@, nested(choices@), straight, flag),
{
    let ghost all = nested(choices@);
    assert(all.subrange(0, all.len() as int) =~= all);
    let mut i: usize = 0;
    while i < choices.len()
        invariant
            i <= choices@.len(),
            all == nested(choices@),
            forall|m: int| 0 <= m < choices@.len() ==> #[trigger] indices_in(cards@, choices@[m]@),
            first_with_pattern(cards@, all.subrange(i as int, all.len() as int), straight, flag)
                == first_with_pattern(cards@, all, straight, flag),
        decreases choices@.len() - i,
    {
        let ghost rest = all.subrange(i as int, all.len() as int);
        assert(rest[0] == choices@[i as int]@);
        assert(indices_in(cards@, choices@[i as int]@));
        if pattern_check(cards, choices[i].as_slice(), straight, flag) {
            return Some(copy_indices(&choices[i]));
        }
        assert(rest.drop_first() =~= all.subrange(i + 1, all.len() as int));
        i = i + 1;
    }
    assert(all.subrange(i as int, all.len() as int) =~= Seq::<Seq<usize>>::empty());
    None
}

fn find_indices(cards: &[Card], four_fingers: bool, straight: bool, flag: bool) -> (found: Option<
    Vec<usize>,
>)
    ensures
        opt_view(found) == find_pattern(cards@, four_fingers, straight, flag),
{
    let n = cards.len();
    proof {
        lemma_combos_in_range(cards@, 5);
        lemma_combos_in_range(cards@, 4);
    }
    let fives = combinations(cards, 5);
    assert forall|i: int| 0 <= i < fives@.len() implies #[trigger] indices_in(cards@, fives@[i]@) by {
        assert(nested(fives@)[i] == fives@[i]@);
    }
    match first_with(cards, &fives, straight, flag) {
        Some(found) => {
            return Some(found);
        },
        None => {},
    }
    if four_fingers {
        let fours = combinations(cards, 4);
        assert forall|i: int| 0 <= i < fours@.len() implies #[trigger] indices_in(cards@, fours@[i]@) by {
            assert(nested(fours@)[i] == fours@[i]@);
        }
        first_with(cards, &fours, straight, flag)
    } else {
        None
    }
}

/// The first straight among five of the non-stone cards, or (with Four
/// Fingers) among four of them.
pub fn find_straight_indices(cards: &[Card], four_fingers: bool, shortcut: bool) -> (found: Option<
    Vec<usize>,
>)
    ensures
        opt_view(found) == find_pattern(cards@, four_fingers, true, shortcut),
{
    find_indices(cards, four_fingers, true, shortcut)
}

/// The first flush among five of the non-stone cards, or (with Four Fingers)
/// among four of them.
pub fn find_flush_indices(cards: &[Card], four_fingers: bool, smeared: bool) -> (found: Option<
    Vec<usize>,
>)
    ensures
        opt_view(found) == find_pattern(cards@, four_fingers, false, smeared),
{
    find_indices(cards, four_fingers, false, smeared)
}

/// Whether the played cards hold a flush.
pub fn is_flush(cards: &[Card], four_fingers: bool, smeared: bool) -> (flush: bool)
    ensures
        flush == find_pattern(cards@, four_fingers, false, smeared) is Some,
{
    find_flush_indices(cards, four_fingers, smeared).is_some()
}

/// Whether the played cards hold a straight.
pub fn is_straight(cards: &[Card], four_fingers: bool, shortcut: bool) -> (straight: bool)
    ensures
        straight == find_pattern(cards@, four_fingers, true, shortcut) is Some,
{
    find_straight_indices(cards, four_fingers, shortcut).is_some()
}

} // verus!
