//! Counting the ranks of the played cards, and the rank-based poker hands.

use vstd::prelude::*;

use crate::cards::{card_is_stone, is_stone, rank_number, rank_order, Card};
use std::collections::HashMap;

verus! {

broadcast use vstd::std_specs::hash::group_hash_axioms;

/// The number of cards of `cards` that are not stone cards and whose rank has
/// the number `r`.
pub open spec fn rank_count(cards: Seq<Card>, r: int) -> nat
    decreases cards.len(),
{
    if cards.len() == 0 {
        0
    } else {
        let last = cards.last();
        rank_count(cards.drop_last(), r) + if !is_stone(last) && rank_number(last.rank) == r {
            1nat
        } else {
            0nat
        }
    }
}

/// The count table held in a map from rank number to count: entry `r` is
/// the count stored under `r`, or zero where `r` has no entry.
pub open spec fn count_view(counts: Map<u8, usize>) -> Seq<int> {
    Seq::new(15, |r: int| if counts.contains_key(r as u8) { counts[r as u8] as int } else { 0 })
}

/// The count stored under the rank number `r`, or zero where there is none.
pub fn count_of(counts: &HashMap<u8, usize>, r: usize) -> (n: usize)
    requires
        r < 15,
    ensures
        n == count_view(counts@)[r as int],
{
    match counts.get(&(r as u8)) {
        Some(n) => *n,
        None => 0,
    }
}

/// The count table of `cards`: entry `r` is `rank_count(cards, r)`, for `r` in
/// `0..15`.
pub open spec fn count_table(cards: Seq<Card>) -> Seq<int> {
    Seq::new(15, |r: int| rank_count(cards, r) as int)
}

/// Some rank in the count table `t` reaches `n`.
pub open spec fn table_at_least(t: Seq<int>, n: int) -> bool {
    exists|r: int| 2 <= r <= 14 && #[trigger] t[r] >= n
}

/// Some rank in the count table `t` is exactly `n`.
pub open spec fn table_exactly(t: Seq<int>, n: int) -> bool {
    exists|r: int| 2 <= r <= 14 && #[trigger] t[r] == n
}

/// Two different ranks in the count table `t` reach 2.
pub open spec fn table_two_pairs(t: Seq<int>) -> bool {
    exists|r1: int, r2: int| 2 <= r1 < r2 <= 14 && #[trigger] t[r1] >= 2 && #[trigger] t[r2] >= 2
}

/// Some rank occurs at least `n` times among the non-stone cards.
pub open spec fn some_rank_at_least(cards: Seq<Card>, n: int) -> bool {
    table_at_least(count_table(cards), n)
}

/// Some rank occurs exactly `n` times among the non-stone cards.
pub open spec fn some_rank_exactly(cards: Seq<Card>, n: int) -> bool {
    table_exactly(count_table(cards), n)
}

/// Two different ranks each occur at least twice among the non-stone cards.
pub open spec fn two_ranks_paired(cards: Seq<Card>) -> bool {
    table_two_pairs(count_table(cards))
}

pub proof fn lemma_rank_count_bounds(cards: Seq<Card>, r: int)
    ensures
        rank_count(cards, r) <= cards.len(),
        (r < 2 || r > 14) ==> rank_count(cards, r) == 0,
    decreases cards.len(),
{
    if cards.len() > 0 {
        lemma_rank_count_bounds(cards.drop_last(), r);
    }
}

/// How many non-stone cards of each rank were played, keyed by rank
/// number: a rank has an entry exactly when some non-stone card has it.
pub fn count_ranks(cards: &[Card]) -> (counts: HashMap<u8, usize>)
    ensures
        forall|r: u8| #[trigger] counts@.contains_key(r) <==> rank_count(cards@, r as int) > 0,
        forall|r: u8| counts@.contains_key(r) ==> #[trigger] counts@[r] == rank_count(cards@, r as int),
        count_view(counts@) == count_table(cards@),
{
    let mut counts: HashMap<u8, usize> = HashMap::new();
    let mut i: usize = 0;
    while i < cards.len()
        invariant
            i <= cards@.len(),
            forall|r: u8| #[trigger] counts@.contains_key(r) <==> rank_count(cards@.take(i as int), r as int) > 0,
            forall|r: u8|
                counts@.contains_key(r) ==> #[trigger] counts@[r] == rank_count(cards@.take(i as int), r as int),
        decreases cards@.len() - i,
    {
        let card = cards[i];
        proof {
            assert(cards@.take(i + 1).drop_last() =~= cards@.take(i as int));
            assert(cards@.take(i + 1).last() == card);
            lemma_rank_count_bounds(cards@.take(i as int), rank_number(card.rank));
        }
        if !card_is_stone(&card) {
            let o = rank_order(card.rank);
            let c = match counts.get(&o) {
                Some(n) => *n,
                None => 0,
            };
            counts.insert(o, c + 1);
        }
        i = i + 1;
    }
    assert(cards@.take(cards@.len() as int) =~= cards@);
    assert forall|r: int| 0 <= r < 15 implies #[trigger] count_view(counts@)[r] == count_table(cards@)[r] by {
        assert((r as u8) as int == r);
    }
    assert(count_view(counts@) =~= count_table(cards@));
    counts
}

/// Whether some entry `r` in `2..15` of `counts` is at least `n`.
fn any_count_at_least(counts: &HashMap<u8, usize>, n: usize) -> (found: bool)
    ensures
        found == table_at_least(count_view(counts@), n as int),
{
    let mut r: usize = 2;
    while r < 15
        invariant
            2 <= r <= 15,
            forall|k: int| 2 <= k < r ==> #[trigger] count_view(counts@)[k] < n,
        decreases 15 - r,
    {
        if count_of(counts, r) >= n {
            assert(count_view(counts@)[r as int] >= n);
            return true;
        }
        r = r + 1;
    }
    false
}

/// Whether some entry `r` in `2..15` of `counts` is exactly `n`.
fn any_count_exactly(counts: &HashMap<u8, usize>, n: usize) -> (found: bool)
    ensures
        found == table_exactly(count_view(counts@), n as int),
{
    let mut r: usize = 2;
    while r < 15
        invariant
            2 <= r <= 15,
            forall|k: int| 2 <= k < r ==> #[trigger] count_view(counts@)[k] != n,
        decreases 15 - r,
    {
        if count_of(counts, r) == n {
            assert(count_view(counts@)[r as int] == n);
            return true;
        }
        r = r + 1;
    }
    false
}

/// Whether two different entries in `2..15` of `counts` are at least 2.
fn two_counts_paired(counts: &HashMap<u8, usize>) -> (found: bool)
    ensures
        found == table_two_pairs(count_view(counts@)),
{
    let mut first: Option<usize> = None;
    let mut r: usize = 2;
    while r < 15
        invariant
            2 <= r <= 15,
            first is None ==> forall|k: int| 2 <= k < r ==> #[trigger] count_view(counts@)[k] < 2,
            first matches Some(f) ==> 2 <= f < r && count_view(counts@)[f as int] >= 2 && forall|k: int|
                2 <= k < r && k != f ==> #[trigger] count_view(counts@)[k] < 2,
        decreases 15 - r,
    {
        if count_of(counts, r) >= 2 {
            match first {
                Some(f) => {
                    assert(count_view(counts@)[f as int] >= 2 && count_view(counts@)[r as int] >= 2);
                    return true;
                },
                None => {
                    first = Some(r);
                },
            }
        }
        r = r + 1;
    }
    false
}

/// Whether some rank occurs at least twice.
pub fn contains_pair(cards: &[Card]) -> (found: bool)
    ensures
        found == some_rank_at_least(cards@, 2),
{
    let counts = count_ranks(cards);
    any_count_at_least(&counts, 2)
}

/// Whether some rank occurs at least three times.
pub fn contains_three_of_a_kind(cards: &[Card]) -> (found: bool)
    ensures
        found == some_rank_at_least(cards@, 3),
{
    let counts = count_ranks(cards);
    any_count_at_least(&counts, 3)
}

/// Whether two different ranks each occur at least twice.
pub fn contains_two_pair(cards: &[Card]) -> (found: bool)
    ensures
        found == two_ranks_paired(cards@),
{
    let counts = count_ranks(cards);
    two_counts_paired(&counts)
}

/// Five cards, all of one rank.
pub fn is_five_of_a_kind(cards: &[Card]) -> (found: bool)
    ensures
        found == (cards@.len() == 5 && some_rank_exactly(cards@, 5)),
{
    if cards.len() != 5 {
        return false;
    }
    let counts = count_ranks(cards);
    any_count_exactly(&counts, 5)
}

/// Some rank occurs at least four times.
pub fn is_four_of_a_kind(cards: &[Card]) -> (found: bool)
    ensures
        found == some_rank_at_least(cards@, 4),
{
    let counts = count_ranks(cards);
    any_count_at_least(&counts, 4)
}

/// Some rank occurs exactly three times and some rank exactly twice.
pub fn is_full_house(cards: &[Card]) -> (found: bool)
    ensures
        found == (some_rank_exactly(cards@, 3) && some_rank_exactly(cards@, 2)),
{
    let counts = count_ranks(cards);
    any_count_exactly(&counts, 3) && any_count_exactly(&counts, 2)
}

/// Some rank occurs at least three times.
pub fn is_three_of_a_kind(cards: &[Card]) -> (found: bool)
    ensures
        found == some_rank_at_least(cards@, 3),
{
    let counts = count_ranks(cards);
    any_count_at_least(&counts, 3)
}

/// Two different ranks each occur at least twice.
pub fn is_two_pair(cards: &[Card]) -> (found: bool)
    ensures
        found == two_ranks_paired(cards@),
{
    let counts = count_ranks(cards);
    two_counts_paired(&counts)
}

/// Some rank occurs at least twice.
pub fn is_pair(cards: &[Card]) -> (found: bool)
    ensures
        found == some_rank_at_least(cards@, 2),
{
    let counts = count_ranks(cards);
    any_count_at_least(&counts, 2)
}

} // verus!
