//! What the poker hand of the played cards does not depend on.

use vstd::prelude::*;

use crate::cards::{is_stone, rank_number, suit_matches, Card, JokerCard, Joker, Suit};
use crate::hands::{hand_of, has_joker, straight_flush_spec};
use crate::patterns::{
    ace_low, all_match_suit, candidates, combos, distinct_ints, find_pattern, first_with_pattern, flush_spec,
    gaps_closed, has_above, has_next, index_ranks, lemma_candidates, pattern_holds, straight_spec,
};
use crate::ranks::{count_table, rank_count};
use crate::score::cards_at;
use vstd::multiset::Multiset;

verus! {

broadcast use vstd::seq_lib::group_to_multiset_ensures, vstd::multiset::group_multiset_axioms, vstd::multiset::group_multiset_properties;

/// Reordering the jokers does not change the poker hand.
proof fn lemma_hand_ignores_joker_order(cards: Seq<Card>, jokers: Seq<JokerCard>, jokers2: Seq<JokerCard>)
    requires
        jokers2.to_multiset() == jokers.to_multiset(),
    ensures
        hand_of(cards, jokers2) == hand_of(cards, jokers),
{
    lemma_has_by_multiset(jokers, jokers2, Joker::FourFingers);
    lemma_has_by_multiset(jokers, jokers2, Joker::Shortcut);
    lemma_has_by_multiset(jokers, jokers2, Joker::SmearedJoker);
}

proof fn lemma_has_by_multiset(j1: Seq<JokerCard>, j2: Seq<JokerCard>, x: Joker)
    requires
        j2.to_multiset() == j1.to_multiset(),
    ensures
        has_joker(j2, x) == has_joker(j1, x),
{
    if has_joker(j1, x) {
        let i = choose|i: int| 0 <= i < j1.len() && #[trigger] j1[i].joker == x;
        assert(j1.contains(j1[i]));
        assert(j1.to_multiset().count(j1[i]) > 0);
        assert(j2.contains(j1[i]));
        let k = choose|k: int| 0 <= k < j2.len() && j2[k] == j1[i];
        assert(j2[k].joker == x);
    }
    if has_joker(j2, x) {
        let i = choose|i: int| 0 <= i < j2.len() && #[trigger] j2[i].joker == x;
        assert(j2.contains(j2[i]));
        assert(j2.to_multiset().count(j2[i]) > 0);
        assert(j1.contains(j2[i]));
        let k = choose|k: int| 0 <= k < j1.len() && j1[k] == j2[i];
        assert(j1[k].joker == x);
    }
}

proof fn lemma_rank_count_concat(a: Seq<Card>, b: Seq<Card>, r: int)
    ensures
        rank_count(a + b, r) == rank_count(a, r) + rank_count(b, r),
    decreases b.len(),
{
    if b.len() == 0 {
        assert(a + b =~= a);
    } else {
        lemma_rank_count_concat(a, b.drop_last(), r);
        assert((a + b).drop_last() =~= a + b.drop_last());
        assert((a + b).last() == b.last());
    }
}

/// The non-stone cards, in order.
pub open spec fn non_stone_cards(cards: Seq<Card>) -> Seq<Card>
    decreases cards.len(),
{
    if cards.len() == 0 {
        Seq::empty()
    } else if is_stone(cards.last()) {
        non_stone_cards(cards.drop_last())
    } else {
        non_stone_cards(cards.drop_last()).push(cards.last())
    }
}

proof fn lemma_non_stone_concat(a: Seq<Card>, b: Seq<Card>)
    ensures
        non_stone_cards(a + b) == non_stone_cards(a) + non_stone_cards(b),
    decreases b.len(),
{
    if b.len() == 0 {
        assert(a + b =~= a);
        assert(non_stone_cards(a) + non_stone_cards(b) =~= non_stone_cards(a));
    } else {
        lemma_non_stone_concat(a, b.drop_last());
        assert((a + b).drop_last() =~= a + b.drop_last());
        assert((a + b).last() == b.last());
        if !is_stone(b.last()) {
            assert(non_stone_cards(a) + non_stone_cards(b.drop_last()).push(b.last()) =~= (non_stone_cards(a)
                + non_stone_cards(b.drop_last())).push(b.last()));
        }
    }
}

proof fn lemma_candidates_select(cards: Seq<Card>)
    requires
        cards.len() <= usize::MAX,
    ensures
        cards_at(cards, candidates(cards)) == non_stone_cards(cards),
        candidates(cards).len() == non_stone_cards(cards).len(),
    decreases cards.len(),
{
    if cards.len() > 0 {
        let rest = cards.drop_last();
        lemma_candidates_select(rest);
        lemma_candidates(rest);
        let rc = candidates(rest);
        assert(cards_at(cards, rc) =~= cards_at(rest, rc)) by {
            assert forall|k: int| 0 <= k < rc.len() implies cards[rc[k] as int] == rest[rc[k] as int] by {}
        }
        if !is_stone(cards.last()) {
            assert(cards_at(cards, candidates(cards)) =~= cards_at(cards, rc).push(cards.last()));
        }
    }
}

proof fn lemma_combos_short(items: Seq<usize>, size: nat)
    requires
        items.len() <= size,
        size > 0,
    ensures
        items.len() < size ==> combos(items, size).len() == 0,
        items.len() == size ==> combos(items, size) == seq![items],
    decreases items.len(),
{
    if items.len() > 0 {
        let rest = items.drop_first();
        if size > 1 {
            lemma_combos_short(rest, (size - 1) as nat);
        } else {
            assert(combos(rest, 0) == seq![Seq::<usize>::empty()]);
        }
        lemma_combos_short(rest, size);
        if items.len() == size {
            assert(seq![items[0]] + rest =~= items);
            assert(combos(items, size) =~= seq![items]);
        }
    }
}

proof fn lemma_pattern_by_selection(
    cards: Seq<Card>,
    idx: Seq<usize>,
    cards2: Seq<Card>,
    idx2: Seq<usize>,
    straight: bool,
    flag: bool,
)
    requires
        cards_at(cards, idx) == cards_at(cards2, idx2),
    ensures
        pattern_holds(cards, idx, straight, flag) == pattern_holds(cards2, idx2, straight, flag),
{
    assert(idx.len() == idx2.len()) by {
        assert(cards_at(cards, idx).len() == idx.len());
    }
    assert forall|k: int| 0 <= k < idx.len() implies #[trigger] cards[idx[k] as int] == cards2[idx2[k] as int] by {
        assert(cards_at(cards, idx)[k] == cards[idx[k] as int]);
        assert(cards_at(cards2, idx2)[k] == cards2[idx2[k] as int]);
        assert(cards_at(cards, idx)[k] == cards_at(cards2, idx2)[k]);
    }
    assert(index_ranks(cards, idx) =~= index_ranks(cards2, idx2));
    assert forall|s: Suit| #[trigger] all_match_suit(cards, idx, s, flag) == all_match_suit(cards2, idx2, s, flag) by {
        if all_match_suit(cards, idx, s, flag) {
            assert forall|k: int| 0 <= k < idx2.len() implies suit_matches(cards2[#[trigger] idx2[k] as int], s, flag) by {
                assert(cards[idx[k] as int] == cards2[idx2[k] as int]);
            }
        }
        if all_match_suit(cards2, idx2, s, flag) {
            assert forall|k: int| 0 <= k < idx.len() implies suit_matches(cards[#[trigger] idx[k] as int], s, flag) by {
                assert(cards[idx[k] as int] == cards2[idx2[k] as int]);
            }
        }
    }
    if flush_spec(cards, idx, flag) {
        let s = choose|s: Suit| #[trigger] all_match_suit(cards, idx, s, flag);
        assert(all_match_suit(cards2, idx2, s, flag));
    }
    if flush_spec(cards2, idx2, flag) {
        let s = choose|s: Suit| #[trigger] all_match_suit(cards2, idx2, s, flag);
        assert(all_match_suit(cards, idx, s, flag));
    }
}

/// With at most four non-stone cards, whether a pattern is found depends
/// only on the non-stone cards, in order.
proof fn lemma_find_few(cards: Seq<Card>, cards2: Seq<Card>, four_fingers: bool, straight: bool, flag: bool)
    requires
        cards.len() <= usize::MAX,
        cards2.len() <= usize::MAX,
        non_stone_cards(cards) == non_stone_cards(cards2),
        non_stone_cards(cards).len() <= 4,
    ensures
        (find_pattern(cards, four_fingers, straight, flag) is Some) == (find_pattern(cards2, four_fingers, straight, flag) is Some),
        combos(candidates(cards), 5).len() == 0,
        combos(candidates(cards2), 5).len() == 0,
{
    lemma_candidates_select(cards);
    lemma_candidates_select(cards2);
    let c1 = candidates(cards);
    let c2 = candidates(cards2);
    lemma_combos_short(c1, 5);
    lemma_combos_short(c2, 5);
    lemma_combos_short(c1, 4);
    lemma_combos_short(c2, 4);
    lemma_pattern_by_selection(cards, c1, cards2, c2, straight, flag);
    let none = Seq::<Seq<usize>>::empty();
    assert(combos(c1, 5) =~= none);
    assert(combos(c2, 5) =~= none);
    assert(first_with_pattern(cards, none, straight, flag) is None);
    assert(first_with_pattern(cards2, none, straight, flag) is None);
    if c1.len() < 4 {
        assert(combos(c1, 4) =~= none);
        assert(combos(c2, 4) =~= none);
    } else {
        assert(seq![c1].drop_first() =~= none);
        assert(seq![c2].drop_first() =~= none);
        assert(seq![c1][0] == c1);
        assert(seq![c2][0] == c2);
        assert(first_with_pattern(cards, seq![c1], straight, flag) is Some == pattern_holds(cards, c1, straight, flag));
        assert(first_with_pattern(cards2, seq![c2], straight, flag) is Some == pattern_holds(cards2, c2, straight, flag));
    }
}

/// A stone card slipped in among at most four cards leaves the poker hand
/// as it was: it adds no rank and no suit.
pub proof fn law_hand_ignores_added_stone(
    cards: Seq<Card>,
    position: int,
    stone: Card,
    jokers: Seq<JokerCard>,
)
    requires
        cards.len() <= 4,
        0 <= position <= cards.len(),
        is_stone(stone),
    ensures
        hand_of(cards.insert(position, stone), jokers) == hand_of(cards, jokers),
{
    let cards2 = cards.insert(position, stone);
    let a = cards.take(position);
    let b = cards.skip(position);
    assert(cards =~= a + b);
    assert(cards2 =~= a + seq![stone] + b);
    let one = seq![stone];
    assert(one.drop_last() =~= Seq::<Card>::empty());
    assert(one.last() == stone);
    assert forall|r: int| #[trigger] rank_count(cards2, r) == rank_count(cards, r) by {
        lemma_rank_count_concat(a, b, r);
        lemma_rank_count_concat(a + one, b, r);
        lemma_rank_count_concat(a, one, r);
        assert(rank_count(Seq::<Card>::empty(), r) == 0);
        assert(rank_count(one, r) == 0);
    }
    assert(count_table(cards2) =~= count_table(cards));
    lemma_non_stone_concat(a, b);
    lemma_non_stone_concat(a + one, b);
    lemma_non_stone_concat(a, one);
    assert(non_stone_cards(Seq::<Card>::empty()) =~= Seq::<Card>::empty());
    assert(non_stone_cards(one) =~= Seq::<Card>::empty());
    assert(non_stone_cards(a) + Seq::<Card>::empty() =~= non_stone_cards(a));
    assert(non_stone_cards(cards2) == non_stone_cards(cards));
    lemma_candidates_select(cards);
    assert(non_stone_cards(cards).len() <= 4) by {
        lemma_candidates(cards);
        lemma_candidate_count(cards);
    }
    let four_fingers = has_joker(jokers, Joker::FourFingers);
    let shortcut = has_joker(jokers, Joker::Shortcut);
    let smeared = has_joker(jokers, Joker::SmearedJoker);
    lemma_find_few(cards, cards2, four_fingers, true, shortcut);
    lemma_find_few(cards, cards2, four_fingers, false, smeared);
    lemma_find_few(cards, cards2, true, true, shortcut);
    lemma_find_few(cards, cards2, true, false, smeared);
    // Hands of exactly five cards: the stone card blocks the flush, and no
    // rank can count five among four cards.
    if cards2.len() == 5 {
        assert(!flush_spec(cards2, crate::hands::all_five(), smeared)) by {
            assert forall|s: Suit| !#[trigger] all_match_suit(cards2, crate::hands::all_five(), s, smeared) by {
                assert(crate::hands::all_five()[position] == position as usize);
                assert(cards2[position] == stone);
            }
        }
        assert forall|r: int| 2 <= r <= 14 implies #[trigger] count_table(cards2)[r] != 5 by {
            crate::ranks::lemma_rank_count_bounds(cards, r);
        }
    }
}

proof fn lemma_candidate_count(cards: Seq<Card>)
    ensures
        non_stone_cards(cards).len() <= cards.len(),
    decreases cards.len(),
{
    if cards.len() > 0 {
        lemma_candidate_count(cards.drop_last());
    }
}


proof fn lemma_rank_count_one(x: Card, r: int)
    ensures
        rank_count(seq![x], r) == (if !is_stone(x) && rank_number(x.rank) == r { 1nat } else { 0nat }),
{
    assert(seq![x].drop_last() =~= Seq::<Card>::empty());
    assert(seq![x].last() == x);
    assert(rank_count(Seq::<Card>::empty(), r) == 0);
    assert(rank_count(seq![x], r) == rank_count(seq![x].drop_last(), r) + (if !is_stone(x) && rank_number(x.rank) == r { 1nat } else { 0nat }));
}

/// Removing one occurrence of `x` from two sequences with the same cards
/// leaves two sequences with the same cards.
proof fn lemma_remove_matching<A>(a: Seq<A>, b: Seq<A>, n: int, k: int)
    requires
        a.to_multiset() == b.to_multiset(),
        0 <= n < a.len(),
        0 <= k < b.len(),
        a[n] == b[k],
    ensures
        a.remove(n).to_multiset() == b.remove(k).to_multiset(),
{
    assert(a.remove(n).to_multiset() =~= a.to_multiset().remove(a[n]));
    assert(b.remove(k).to_multiset() =~= b.to_multiset().remove(b[k]));
}

proof fn lemma_rank_count_perm(a: Seq<Card>, b: Seq<Card>, r: int)
    requires
        a.to_multiset() == b.to_multiset(),
    ensures
        rank_count(a, r) == rank_count(b, r),
    decreases a.len(),
{
    if a.len() == 0 {
        assert(b.to_multiset().len() == 0);
        assert(b =~= a);
    } else {
        let n = a.len() - 1;
        let x = a[n];
        assert(a.contains(x));
        assert(a.to_multiset().count(x) > 0);
        assert(b.contains(x));
        let k = choose|k: int| 0 <= k < b.len() && b[k] == x;
        lemma_remove_matching(a, b, n, k);
        assert(a.remove(n) =~= a.drop_last());
        lemma_rank_count_perm(a.drop_last(), b.remove(k), r);
        let pre = b.take(k);
        let post = b.skip(k + 1);
        assert(b =~= pre + seq![x] + post);
        assert(b.remove(k) =~= pre + post);
        lemma_rank_count_concat(pre + seq![x], post, r);
        lemma_rank_count_concat(pre, seq![x], r);
        lemma_rank_count_concat(pre, post, r);
        lemma_rank_count_one(x, r);
    }
}

proof fn lemma_non_stone_count(s: Seq<Card>, x: Card)
    ensures
        non_stone_cards(s).to_multiset().count(x) == (if is_stone(x) { 0 } else { s.to_multiset().count(x) }),
    decreases s.len(),
{
    if s.len() == 0 {
        assert(s.to_multiset().len() == 0);
        assert(non_stone_cards(s).to_multiset().len() == 0);
    } else {
        lemma_non_stone_count(s.drop_last(), x);
        let y = s.last();
        assert(s.drop_last().push(y) =~= s);
        assert(s.to_multiset() =~= s.drop_last().to_multiset().insert(y));
        if !is_stone(y) {
            assert(non_stone_cards(s).to_multiset() =~= non_stone_cards(s.drop_last()).to_multiset().insert(y));
        }
    }
}

proof fn lemma_non_stone_perm(a: Seq<Card>, b: Seq<Card>)
    requires
        a.to_multiset() == b.to_multiset(),
    ensures
        non_stone_cards(a).to_multiset() == non_stone_cards(b).to_multiset(),
{
    assert forall|x: Card| #[trigger] non_stone_cards(a).to_multiset().count(x) == non_stone_cards(b).to_multiset().count(x) by {
        lemma_non_stone_count(a, x);
        lemma_non_stone_count(b, x);
    }
    assert(non_stone_cards(a).to_multiset() =~= non_stone_cards(b).to_multiset());
}

proof fn lemma_prepend_multiset<A>(x: A, t: Seq<A>)
    ensures
        (seq![x] + t).to_multiset() =~= t.to_multiset().insert(x),
{
    vstd::seq_lib::lemma_seq_union_to_multiset_commutative(seq![x], t);
    assert(t + seq![x] =~= t.push(x));
}

proof fn lemma_combos_split(items: Seq<usize>, size: nat)
    requires
        size > 0,
        items.len() > 0,
    ensures
        combos(items, size) == combos(items.drop_first(), (size - 1) as nat).map_values(
            |c: Seq<usize>| seq![items[0]] + c,
        ) + combos(items.drop_first(), size),
{
}

proof fn lemma_cards_at_prepend(cards: Seq<Card>, h: usize, c: Seq<usize>)
    ensures
        cards_at(cards, seq![h] + c) =~= seq![cards[h as int]] + cards_at(cards, c),
{
}

/// Every choice listed by `combos` takes `size` of the cards that `items`
/// points at.
pub(crate) proof fn lemma_combos_sound(cards: Seq<Card>, items: Seq<usize>, size: nat, k: int)
    requires
        0 <= k < combos(items, size).len(),
    ensures
        combos(items, size)[k].len() == size,
        cards_at(cards, combos(items, size)[k]).to_multiset().subset_of(cards_at(cards, items).to_multiset()),
    decreases items.len(),
{
    if size == 0 {
        let c = combos(items, size)[k];
        assert(c == Seq::<usize>::empty());
        assert(cards_at(cards, c).to_multiset().len() == 0);
    } else if items.len() == 0 {
    } else {
        let h = items[0];
        let rest = items.drop_first();
        let x = cards[h as int];
        assert(items =~= seq![h] + rest);
        lemma_cards_at_prepend(cards, h, rest);
        lemma_prepend_multiset(x, cards_at(cards, rest));
        let tail = combos(rest, (size - 1) as nat);
        let front = tail.map_values(|c: Seq<usize>| seq![h] + c);
        lemma_combos_split(items, size);
        if k < front.len() {
            lemma_combos_sound(cards, rest, (size - 1) as nat, k);
            assert(combos(items, size)[k] == seq![h] + tail[k]);
            lemma_cards_at_prepend(cards, h, tail[k]);
            lemma_prepend_multiset(x, cards_at(cards, tail[k]));
        } else {
            lemma_combos_sound(cards, rest, size, k - front.len());
            assert(combos(items, size)[k] == combos(rest, size)[k - front.len()]);
        }
    }
}

/// Every way of taking `size` of the cards that `items` points at is listed
/// by `combos`, up to order.
proof fn lemma_combos_complete(cards: Seq<Card>, items: Seq<usize>, size: nat, m: Multiset<Card>)
    requires
        m.subset_of(cards_at(cards, items).to_multiset()),
        m.len() == size,
    ensures
        exists|k: int|
            0 <= k < combos(items, size).len() && #[trigger] cards_at(cards, combos(items, size)[k]).to_multiset() == m,
    decreases items.len(),
{
    if size == 0 {
        let e = Seq::<usize>::empty();
        assert(combos(items, size)[0] == e);
        assert(cards_at(cards, e).to_multiset().len() == 0);
        assert(m =~= Multiset::<Card>::empty());
        assert(cards_at(cards, e).to_multiset() =~= Multiset::<Card>::empty());
        assert(cards_at(cards, combos(items, size)[0]).to_multiset() == m);
    } else if items.len() == 0 {
        assert(cards_at(cards, items).to_multiset().len() == 0);
        assert forall|v: Card| m.count(v) == 0 by {
            assert(cards_at(cards, items).to_multiset().count(v) <= cards_at(cards, items).to_multiset().len());
        }
        assert(m =~= Multiset::<Card>::empty());
    } else {
        let h = items[0];
        let rest = items.drop_first();
        let x = cards[h as int];
        assert(items =~= seq![h] + rest);
        lemma_cards_at_prepend(cards, h, rest);
        lemma_prepend_multiset(x, cards_at(cards, rest));
        let tail = combos(rest, (size - 1) as nat);
        let front = tail.map_values(|c: Seq<usize>| seq![h] + c);
        lemma_combos_split(items, size);
        let whole = cards_at(cards, rest).to_multiset();
        if m.count(x) > 0 {
            let m1 = m.remove(x);
            assert(Multiset::singleton(x).subset_of(m));
            assert(m1.len() == size - 1);
            assert forall|v: Card| m1.count(v) <= whole.count(v) by {
                assert(m.count(v) <= whole.insert(x).count(v));
            }
            lemma_combos_complete(cards, rest, (size - 1) as nat, m1);
            let k = choose|k: int| 0 <= k < tail.len() && #[trigger] cards_at(cards, tail[k]).to_multiset() == m1;
            assert(combos(items, size)[k] == seq![h] + tail[k]);
            lemma_cards_at_prepend(cards, h, tail[k]);
            lemma_prepend_multiset(x, cards_at(cards, tail[k]));
            assert(m1.insert(x) =~= m);
            assert(cards_at(cards, combos(items, size)[k]).to_multiset() == m);
        } else {
            assert forall|v: Card| m.count(v) <= whole.count(v) by {
                assert(m.count(v) <= whole.insert(x).count(v));
            }
            lemma_combos_complete(cards, rest, size, m);
            let k = choose|k: int|
                0 <= k < combos(rest, size).len() && #[trigger] cards_at(cards, combos(rest, size)[k]).to_multiset() == m;
            assert(combos(items, size)[front.len() + k] == combos(rest, size)[k]);
            assert(cards_at(cards, combos(items, size)[front.len() + k]).to_multiset() == m);
        }
    }
}


proof fn lemma_map_multiset<A, B>(a: Seq<A>, b: Seq<A>, f: spec_fn(A) -> B)
    requires
        a.to_multiset() == b.to_multiset(),
    ensures
        a.map_values(f).to_multiset() == b.map_values(f).to_multiset(),
    decreases a.len(),
{
    if a.len() == 0 {
        assert(b.to_multiset().len() == 0);
        assert(a.map_values(f) =~= b.map_values(f));
    } else {
        let n = a.len() - 1;
        let x = a[n];
        assert(a.contains(x));
        assert(a.to_multiset().count(x) > 0);
        assert(b.contains(x));
        let k = choose|k: int| 0 <= k < b.len() && b[k] == x;
        lemma_remove_matching(a, b, n, k);
        lemma_map_multiset(a.remove(n), b.remove(k), f);
        let fa = a.map_values(f);
        let fb = b.map_values(f);
        assert(fa.remove(n) =~= a.remove(n).map_values(f));
        assert(fb.remove(k) =~= b.remove(k).map_values(f));
        assert(fa.remove(n).to_multiset() =~= fa.to_multiset().remove(fa[n]));
        assert(fb.remove(k).to_multiset() =~= fb.to_multiset().remove(fb[k]));
        let y = f(x);
        assert(fa.contains(y)) by { assert(fa[n] == y); }
        assert(fb.contains(y)) by { assert(fb[k] == y); }
        assert forall|v: B| #[trigger] fa.to_multiset().count(v) == fb.to_multiset().count(v) by {
            assert(fa.to_multiset().remove(y).count(v) == fb.to_multiset().remove(y).count(v));
        }
        assert(fa.to_multiset() =~= fb.to_multiset());
    }
}

/// `s1` and `s2` hold the same numbers, and the runs in `s1` close their gaps:
/// so do those in `s2`.
proof fn lemma_gaps_transfer(s1: Seq<int>, s2: Seq<int>, shortcut: bool)
    requires
        forall|v: int| s1.contains(v) <==> s2.contains(v),
        gaps_closed(s1, shortcut),
    ensures
        gaps_closed(s2, shortcut),
{
    assert forall|a: int| 0 <= a < s2.len() && has_above(s2, #[trigger] s2[a]) implies has_next(s2, s2[a], shortcut) by {
        let v = s2[a];
        assert(s2.contains(v));
        let a1 = choose|a1: int| 0 <= a1 < s1.len() && s1[a1] == v;
        let b = choose|b: int| 0 <= b < s2.len() && #[trigger] s2[b] > v;
        assert(s2.contains(s2[b]));
        let b1 = choose|b1: int| 0 <= b1 < s1.len() && s1[b1] == s2[b];
        assert(s1[b1] > s1[a1]);
        assert(has_above(s1, s1[a1]));
        assert(has_next(s1, s1[a1], shortcut));
        let c1 = choose|c1: int| 0 <= c1 < s1.len() && (#[trigger] s1[c1] == v + 1 || (shortcut && s1[c1] == v + 2));
        assert(s1.contains(s1[c1]));
        let c2 = choose|c2: int| 0 <= c2 < s2.len() && s2[c2] == s1[c1];
        assert(s2[c2] == v + 1 || (shortcut && s2[c2] == v + 2));
    }
}

proof fn lemma_distinct_transfer(s1: Seq<int>, s2: Seq<int>)
    requires
        s1.to_multiset() == s2.to_multiset(),
        distinct_ints(s1),
    ensures
        distinct_ints(s2),
{
    assert(s1.no_duplicates());
    s1.lemma_multiset_has_no_duplicates();
    s2.lemma_multiset_has_no_duplicates_conv();
}

/// The straight condition depends only on which rank numbers occur, and how
/// often.
proof fn lemma_straight_by_multiset(s1: Seq<int>, s2: Seq<int>, shortcut: bool)
    requires
        s1.to_multiset() == s2.to_multiset(),
    ensures
        (distinct_ints(s1) && (gaps_closed(s1, shortcut) || (s1.contains(14) && gaps_closed(ace_low(s1), shortcut))))
            == (distinct_ints(s2) && (gaps_closed(s2, shortcut) || (s2.contains(14) && gaps_closed(ace_low(s2), shortcut)))),
{
    assert forall|v: int| s1.contains(v) <==> s2.contains(v) by {
        assert(s1.contains(v) <==> s1.to_multiset().count(v) > 0);
        assert(s2.contains(v) <==> s2.to_multiset().count(v) > 0);
    }
    let low = |v: int| if v == 14 { 1int } else { v };
    assert(ace_low(s1) =~= s1.map_values(low));
    assert(ace_low(s2) =~= s2.map_values(low));
    lemma_map_multiset(s1, s2, low);
    let l1 = ace_low(s1);
    let l2 = ace_low(s2);
    assert forall|v: int| l1.contains(v) <==> l2.contains(v) by {
        assert(l1.contains(v) <==> l1.to_multiset().count(v) > 0);
        assert(l2.contains(v) <==> l2.to_multiset().count(v) > 0);
    }
    if distinct_ints(s1) {
        lemma_distinct_transfer(s1, s2);
    }
    if distinct_ints(s2) {
        lemma_distinct_transfer(s2, s1);
    }
    if gaps_closed(s1, shortcut) {
        lemma_gaps_transfer(s1, s2, shortcut);
    }
    if gaps_closed(s2, shortcut) {
        lemma_gaps_transfer(s2, s1, shortcut);
    }
    if gaps_closed(l1, shortcut) {
        lemma_gaps_transfer(l1, l2, shortcut);
    }
    if gaps_closed(l2, shortcut) {
        lemma_gaps_transfer(l2, l1, shortcut);
    }
}

proof fn lemma_all_match_transfer(
    cards: Seq<Card>,
    idx: Seq<usize>,
    cards2: Seq<Card>,
    idx2: Seq<usize>,
    suit: Suit,
    smeared: bool,
)
    requires
        cards_at(cards, idx).to_multiset() == cards_at(cards2, idx2).to_multiset(),
        all_match_suit(cards, idx, suit, smeared),
    ensures
        all_match_suit(cards2, idx2, suit, smeared),
{
    let a = cards_at(cards, idx);
    let b = cards_at(cards2, idx2);
    assert forall|k: int| 0 <= k < idx2.len() implies suit_matches(cards2[#[trigger] idx2[k] as int], suit, smeared) by {
        assert(b[k] == cards2[idx2[k] as int]);
        assert(b.contains(b[k]));
        assert(b.to_multiset().count(b[k]) > 0);
        assert(a.contains(b[k]));
        let j = choose|j: int| 0 <= j < a.len() && a[j] == b[k];
        assert(a[j] == cards[idx[j] as int]);
    }
}

/// Whether chosen cards form a straight or a flush depends only on which
/// cards they are, not on where they lie or in what order.
proof fn lemma_pattern_by_multiset(
    cards: Seq<Card>,
    idx: Seq<usize>,
    cards2: Seq<Card>,
    idx2: Seq<usize>,
    straight: bool,
    flag: bool,
)
    requires
        cards_at(cards, idx).to_multiset() == cards_at(cards2, idx2).to_multiset(),
    ensures
        pattern_holds(cards, idx, straight, flag) == pattern_holds(cards2, idx2, straight, flag),
{
    let a = cards_at(cards, idx);
    let b = cards_at(cards2, idx2);
    let rank_of = |c: Card| rank_number(c.rank);
    assert(index_ranks(cards, idx) =~= a.map_values(rank_of));
    assert(index_ranks(cards2, idx2) =~= b.map_values(rank_of));
    lemma_map_multiset(a, b, rank_of);
    lemma_straight_by_multiset(index_ranks(cards, idx), index_ranks(cards2, idx2), flag);
    if flush_spec(cards, idx, flag) {
        let s = choose|s: Suit| #[trigger] all_match_suit(cards, idx, s, flag);
        lemma_all_match_transfer(cards, idx, cards2, idx2, s, flag);
    }
    if flush_spec(cards2, idx2, flag) {
        let s = choose|s: Suit| #[trigger] all_match_suit(cards2, idx2, s, flag);
        lemma_all_match_transfer(cards2, idx2, cards, idx, s, flag);
    }
}

proof fn lemma_first_some(cards: Seq<Card>, cs: Seq<Seq<usize>>, straight: bool, flag: bool)
    ensures
        (first_with_pattern(cards, cs, straight, flag) is Some) == (exists|k: int|
            0 <= k < cs.len() && #[trigger] pattern_holds(cards, cs[k], straight, flag)),
    decreases cs.len(),
{
    if cs.len() > 0 {
        let rest = cs.drop_first();
        lemma_first_some(cards, rest, straight, flag);
        if !pattern_holds(cards, cs[0], straight, flag) {
            if first_with_pattern(cards, rest, straight, flag) is Some {
                let k = choose|k: int| 0 <= k < rest.len() && #[trigger] pattern_holds(cards, rest[k], straight, flag);
                assert(cs[k + 1] == rest[k]);
            }
            if exists|k: int| 0 <= k < cs.len() && #[trigger] pattern_holds(cards, cs[k], straight, flag) {
                let k = choose|k: int| 0 <= k < cs.len() && #[trigger] pattern_holds(cards, cs[k], straight, flag);
                assert(rest[k - 1] == cs[k]);
            }
        }
    }
}

/// Any choice of `size` non-stone cards of `cards` is also a choice of
/// `size` non-stone cards of a reordering of `cards`.
proof fn lemma_combo_transfer(cards: Seq<Card>, cards2: Seq<Card>, size: nat, k: int) -> (k2: int)
    requires
        cards.len() <= usize::MAX,
        cards2.to_multiset() == cards.to_multiset(),
        0 <= k < combos(candidates(cards), size).len(),
    ensures
        0 <= k2 < combos(candidates(cards2), size).len(),
        cards_at(cards2, combos(candidates(cards2), size)[k2]).to_multiset() == cards_at(
            cards,
            combos(candidates(cards), size)[k],
        ).to_multiset(),
{
    assert(cards2.len() == cards.len()) by {
        vstd::seq_lib::to_multiset_len(cards);
        vstd::seq_lib::to_multiset_len(cards2);
    }
    let c = combos(candidates(cards), size)[k];
    let m = cards_at(cards, c).to_multiset();
    lemma_combos_sound(cards, candidates(cards), size, k);
    lemma_candidates_select(cards);
    lemma_candidates_select(cards2);
    lemma_non_stone_perm(cards, cards2);
    assert(m.len() == size);
    lemma_combos_complete(cards2, candidates(cards2), size, m);
    let k2 = choose|k2: int|
        0 <= k2 < combos(candidates(cards2), size).len() && #[trigger] cards_at(
            cards2,
            combos(candidates(cards2), size)[k2],
        ).to_multiset() == m;
    k2
}

proof fn lemma_some_pattern_transfer(cards: Seq<Card>, cards2: Seq<Card>, size: nat, straight: bool, flag: bool)
    requires
        cards.len() <= usize::MAX,
        cards2.to_multiset() == cards.to_multiset(),
        first_with_pattern(cards, combos(candidates(cards), size), straight, flag) is Some,
    ensures
        first_with_pattern(cards2, combos(candidates(cards2), size), straight, flag) is Some,
{
    let cs = combos(candidates(cards), size);
    let cs2 = combos(candidates(cards2), size);
    lemma_first_some(cards, cs, straight, flag);
    lemma_first_some(cards2, cs2, straight, flag);
    let k = choose|k: int| 0 <= k < cs.len() && #[trigger] pattern_holds(cards, cs[k], straight, flag);
    let k2 = lemma_combo_transfer(cards, cards2, size, k);
    lemma_pattern_by_multiset(cards, cs[k], cards2, cs2[k2], straight, flag);
}

proof fn lemma_find_perm(cards: Seq<Card>, cards2: Seq<Card>, four_fingers: bool, straight: bool, flag: bool)
    requires
        cards.len() <= usize::MAX,
        cards2.to_multiset() == cards.to_multiset(),
    ensures
        (find_pattern(cards2, four_fingers, straight, flag) is Some) == (find_pattern(cards, four_fingers, straight, flag) is Some),
{
    assert(cards2.len() == cards.len()) by {
        vstd::seq_lib::to_multiset_len(cards);
        vstd::seq_lib::to_multiset_len(cards2);
    }
    if first_with_pattern(cards, combos(candidates(cards), 5), straight, flag) is Some {
        lemma_some_pattern_transfer(cards, cards2, 5, straight, flag);
    }
    if first_with_pattern(cards2, combos(candidates(cards2), 5), straight, flag) is Some {
        lemma_some_pattern_transfer(cards2, cards, 5, straight, flag);
    }
    if first_with_pattern(cards, combos(candidates(cards), 4), straight, flag) is Some {
        lemma_some_pattern_transfer(cards, cards2, 4, straight, flag);
    }
    if first_with_pattern(cards2, combos(candidates(cards2), 4), straight, flag) is Some {
        lemma_some_pattern_transfer(cards2, cards, 4, straight, flag);
    }
}

proof fn lemma_straight_flush_transfer(cards: Seq<Card>, cards2: Seq<Card>, shortcut: bool, smeared: bool)
    requires
        cards.len() <= usize::MAX,
        cards2.to_multiset() == cards.to_multiset(),
        straight_flush_spec(cards, false, shortcut, smeared),
    ensures
        straight_flush_spec(cards2, false, shortcut, smeared),
{
    let cs = combos(candidates(cards), 5);
    let cs2 = combos(candidates(cards2), 5);
    let k = choose|k: int|
        0 <= k < cs.len() && straight_spec(cards, #[trigger] cs[k], shortcut) && flush_spec(cards, cs[k], smeared);
    let k2 = lemma_combo_transfer(cards, cards2, 5, k);
    lemma_pattern_by_multiset(cards, cs[k], cards2, cs2[k2], true, shortcut);
    lemma_pattern_by_multiset(cards, cs[k], cards2, cs2[k2], false, smeared);
    assert(straight_spec(cards2, cs2[k2], shortcut) && flush_spec(cards2, cs2[k2], smeared));
}

/// Reordering the played cards, the jokers, or both, does not change the
/// poker hand.
pub proof fn law_hand_ignores_order(
    cards: Seq<Card>,
    cards2: Seq<Card>,
    jokers: Seq<JokerCard>,
    jokers2: Seq<JokerCard>,
)
    requires
        cards.len() <= usize::MAX,
        cards2.to_multiset() == cards.to_multiset(),
        jokers2.to_multiset() == jokers.to_multiset(),
    ensures
        hand_of(cards2, jokers2) == hand_of(cards, jokers),
{
    lemma_hand_ignores_joker_order(cards2, jokers, jokers2);
    assert(cards2.len() == cards.len()) by {
        vstd::seq_lib::to_multiset_len(cards);
        vstd::seq_lib::to_multiset_len(cards2);
    }
    assert forall|r: int| #[trigger] rank_count(cards2, r) == rank_count(cards, r) by {
        lemma_rank_count_perm(cards2, cards, r);
    }
    assert(count_table(cards2) =~= count_table(cards));
    let four_fingers = has_joker(jokers, Joker::FourFingers);
    let shortcut = has_joker(jokers, Joker::Shortcut);
    let smeared = has_joker(jokers, Joker::SmearedJoker);
    if cards.len() == 5 {
        assert(cards_at(cards, crate::hands::all_five()) =~= cards);
        assert(cards_at(cards2, crate::hands::all_five()) =~= cards2);
        lemma_pattern_by_multiset(cards, crate::hands::all_five(), cards2, crate::hands::all_five(), false, smeared);
    }
    lemma_find_perm(cards, cards2, four_fingers, true, shortcut);
    lemma_find_perm(cards, cards2, four_fingers, false, smeared);
    lemma_find_perm(cards, cards2, true, true, shortcut);
    lemma_find_perm(cards, cards2, true, false, smeared);
    if straight_flush_spec(cards, false, shortcut, smeared) {
        lemma_straight_flush_transfer(cards, cards2, shortcut, smeared);
    }
    if straight_flush_spec(cards2, false, shortcut, smeared) {
        lemma_straight_flush_transfer(cards2, cards, shortcut, smeared);
    }
}

} // verus!
