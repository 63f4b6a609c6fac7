use ortalab::cards::{
    card_matches_suit, hand_value, is_face, rank_order, rank_value, Card, Edition, Enhancement, Joker,
    JokerCard, PokerHand, Rank, Round, Suit,
};
use ortalab::classic;
use ortalab::hands::determine_poker_hand;
use ortalab::input::parse_round;
use ortalab::jokers::{effective_joker_at, effective_jokers, flower_pot_matches, get_lowest_rank_card_index};
use ortalab::patterns::{combinations, find_flush_indices, find_straight_indices, flush_candidate, straight_candidate};
use ortalab::ranks::count_ranks;
use ortalab::score::{is_card_face, score, MultFactor, ScoreStep, ScoreTrace};
use ortalab::selection::{get_scored_indices, rank_group_indices};

fn c(rank: Rank, suit: Suit) -> Card {
    Card { rank, suit, enhancement: None, edition: None }
}

fn enhanced(rank: Rank, suit: Suit, enhancement: Enhancement) -> Card {
    Card { rank, suit, enhancement: Some(enhancement), edition: None }
}

fn j(joker: Joker) -> JokerCard {
    JokerCard { joker, edition: None }
}

fn round(played: Vec<Card>, held: Vec<Card>, jokers: Vec<Joker>) -> Round {
    Round { cards_played: played, cards_held_in_hand: held, jokers: jokers.into_iter().map(j).collect() }
}

fn total(trace: &ScoreTrace) -> f64 {
    let mut chips = trace.chips as f64;
    let mut mult = trace.mult as f64;
    for step in &trace.steps {
        match *step {
            ScoreStep::AddChips(n) => chips += n as f64,
            ScoreStep::AddMult(n) => mult += n as f64,
            ScoreStep::TimesMult(MultFactor::OneAndAHalf) => mult *= 1.5,
            ScoreStep::TimesMult(MultFactor::Double) => mult *= 2.0,
            ScoreStep::TimesMult(MultFactor::Triple) => mult *= 3.0,
        }
    }
    (chips * mult).floor()
}

#[test]
fn rank_tables_are_exact() {
    let ranks = [
        Rank::Two, Rank::Three, Rank::Four, Rank::Five, Rank::Six, Rank::Seven, Rank::Eight,
        Rank::Nine, Rank::Ten, Rank::Jack, Rank::Queen, Rank::King, Rank::Ace,
    ];
    let orders: Vec<u8> = ranks.iter().map(|r| rank_order(*r)).collect();
    assert_eq!(orders, vec![2, 3, 4, 5, 6, 7, 8, 9, 10, 11, 12, 13, 14]);
    let values: Vec<u64> = ranks.iter().map(|r| rank_value(*r)).collect();
    assert_eq!(values, vec![2, 3, 4, 5, 6, 7, 8, 9, 10, 10, 10, 10, 11]);
    let faces: Vec<bool> = ranks.iter().map(|r| is_face(*r)).collect();
    assert_eq!(faces.iter().filter(|f| **f).count(), 3);
    assert!(is_face(Rank::Jack) && is_face(Rank::Queen) && is_face(Rank::King));
}

#[test]
fn hand_values_are_exact() {
    assert_eq!(hand_value(PokerHand::HighCard), (5, 1));
    assert_eq!(hand_value(PokerHand::Pair), (10, 2));
    assert_eq!(hand_value(PokerHand::TwoPair), (20, 2));
    assert_eq!(hand_value(PokerHand::ThreeOfAKind), (30, 3));
    assert_eq!(hand_value(PokerHand::Straight), (30, 4));
    assert_eq!(hand_value(PokerHand::Flush), (35, 4));
    assert_eq!(hand_value(PokerHand::FullHouse), (40, 4));
    assert_eq!(hand_value(PokerHand::FourOfAKind), (60, 7));
    assert_eq!(hand_value(PokerHand::StraightFlush), (100, 8));
    assert_eq!(hand_value(PokerHand::FiveOfAKind), (120, 12));
    assert_eq!(hand_value(PokerHand::FlushHouse), (140, 14));
    assert_eq!(hand_value(PokerHand::FlushFive), (160, 16));
}

#[test]
fn stone_and_wild_suits() {
    let stone = enhanced(Rank::Ace, Suit::Spades, Enhancement::Stone);
    let wild = enhanced(Rank::Two, Suit::Hearts, Enhancement::Wild);
    for suit in [Suit::Spades, Suit::Hearts, Suit::Clubs, Suit::Diamonds] {
        assert!(!card_matches_suit(stone, suit, false));
        assert!(!card_matches_suit(stone, suit, true));
        assert!(card_matches_suit(wild, suit, false));
    }
}

#[test]
fn smeared_only_widens_suits() {
    let heart = c(Rank::Two, Suit::Hearts);
    assert!(card_matches_suit(heart, Suit::Hearts, false));
    assert!(card_matches_suit(heart, Suit::Hearts, true));
    assert!(!card_matches_suit(heart, Suit::Diamonds, false));
    assert!(card_matches_suit(heart, Suit::Diamonds, true));
    assert!(!card_matches_suit(heart, Suit::Clubs, true));
    let cards = vec![c(Rank::Two, Suit::Hearts), c(Rank::Four, Suit::Diamonds), c(Rank::Six, Suit::Hearts)];
    assert!(!flush_candidate(&cards, &[0, 1, 2], false));
    assert!(flush_candidate(&cards, &[0, 1, 2], true));
}

#[test]
fn shortcut_only_widens_straights() {
    let cards = vec![
        c(Rank::Two, Suit::Hearts),
        c(Rank::Three, Suit::Spades),
        c(Rank::Four, Suit::Clubs),
        c(Rank::Five, Suit::Diamonds),
        c(Rank::Seven, Suit::Hearts),
    ];
    assert!(!straight_candidate(&cards, &[0, 1, 2, 3, 4], false));
    assert!(straight_candidate(&cards, &[0, 1, 2, 3, 4], true));
    assert!(straight_candidate(&cards, &[0, 1, 2, 3], false));
    assert!(straight_candidate(&cards, &[0, 1, 2, 3], true));
}

#[test]
fn straights_ignore_the_order_of_indices() {
    let cards = vec![
        c(Rank::Nine, Suit::Hearts),
        c(Rank::Seven, Suit::Spades),
        c(Rank::Eight, Suit::Clubs),
        c(Rank::Jack, Suit::Diamonds),
        c(Rank::Ten, Suit::Hearts),
        c(Rank::Ten, Suit::Spades),
    ];
    assert!(straight_candidate(&cards, &[3, 0, 4, 1, 2], false));
    assert!(!straight_candidate(&cards, &[3, 0, 4, 5, 2], false));
    assert!(straight_candidate(&cards, &[], false));
}

#[test]
fn ace_counts_high_or_low_once() {
    let cards = vec![
        c(Rank::Ace, Suit::Hearts),
        c(Rank::King, Suit::Spades),
        c(Rank::Queen, Suit::Clubs),
        c(Rank::Jack, Suit::Diamonds),
        c(Rank::Ten, Suit::Hearts),
        c(Rank::Two, Suit::Hearts),
    ];
    assert!(straight_candidate(&cards, &[0, 1, 2, 3, 4], false));
    assert!(!straight_candidate(&cards, &[0, 5, 1, 2, 3], false));
}

#[test]
fn four_fingers_keeps_five_card_straights() {
    let cards = vec![
        c(Rank::Two, Suit::Hearts),
        c(Rank::Three, Suit::Spades),
        c(Rank::Four, Suit::Clubs),
        c(Rank::Five, Suit::Diamonds),
        c(Rank::Six, Suit::Hearts),
    ];
    assert_eq!(find_straight_indices(&cards, false, false), Some(vec![0, 1, 2, 3, 4]));
    assert_eq!(find_straight_indices(&cards, true, false), Some(vec![0, 1, 2, 3, 4]));
    let four = vec![
        c(Rank::Four, Suit::Diamonds),
        c(Rank::Five, Suit::Clubs),
        c(Rank::Six, Suit::Diamonds),
        c(Rank::Seven, Suit::Spades),
        c(Rank::Jack, Suit::Clubs),
    ];
    assert_eq!(find_straight_indices(&four, false, false), None);
    assert_eq!(find_straight_indices(&four, true, false), Some(vec![0, 1, 2, 3]));
}

#[test]
fn four_fingers_straight_flush_from_both() {
    let played = vec![
        c(Rank::Three, Suit::Hearts),
        c(Rank::Four, Suit::Hearts),
        c(Rank::Five, Suit::Clubs),
        c(Rank::Six, Suit::Hearts),
        c(Rank::Jack, Suit::Hearts),
    ];
    assert_eq!(determine_poker_hand(&played, &[j(Joker::FourFingers)]), PokerHand::StraightFlush);
    assert_eq!(determine_poker_hand(&played, &[]), PokerHand::HighCard);
    assert_eq!(
        get_scored_indices(&played, PokerHand::StraightFlush, &[j(Joker::FourFingers)]),
        vec![0, 1, 2, 3, 4]
    );
    assert_eq!(find_flush_indices(&played, true, false), Some(vec![0, 1, 3, 4]));
}

#[test]
fn combinations_leave_out_stones_in_order() {
    let mut cards: Vec<Card> = vec![
        c(Rank::Two, Suit::Hearts),
        c(Rank::Three, Suit::Hearts),
        c(Rank::Four, Suit::Hearts),
        c(Rank::Five, Suit::Hearts),
        c(Rank::Six, Suit::Hearts),
        c(Rank::Seven, Suit::Hearts),
    ];
    cards.insert(2, enhanced(Rank::Ace, Suit::Spades, Enhancement::Stone));
    let fives = combinations(&cards, 5);
    assert_eq!(fives.len(), 6);
    assert_eq!(fives[0], vec![0, 1, 3, 4, 5]);
    assert_eq!(fives[5], vec![1, 3, 4, 5, 6]);
    assert!(fives.iter().all(|f| !f.contains(&2)));
    assert_eq!(combinations(&cards, 0), vec![Vec::<usize>::new()]);
    assert!(combinations(&cards, 7).is_empty());
}

#[test]
fn rank_groups_take_the_highest_rank() {
    let cards = vec![
        c(Rank::Three, Suit::Hearts),
        c(Rank::Four, Suit::Hearts),
        c(Rank::Three, Suit::Spades),
        c(Rank::Four, Suit::Clubs),
        c(Rank::Three, Suit::Clubs),
        c(Rank::Four, Suit::Diamonds),
    ];
    let counts = count_ranks(&cards);
    assert_eq!(counts[&3], 3);
    assert_eq!(counts[&4], 3);
    assert_eq!(counts.len(), 2);
    assert_eq!(rank_group_indices(&cards, &counts, 3), vec![1, 3, 5]);
    assert_eq!(rank_group_indices(&cards, &counts, 4), Vec::<usize>::new());
}

#[test]
fn two_pair_takes_the_two_highest_pairs() {
    let cards = vec![
        c(Rank::Two, Suit::Hearts),
        c(Rank::King, Suit::Hearts),
        c(Rank::Two, Suit::Spades),
        c(Rank::Nine, Suit::Clubs),
        c(Rank::King, Suit::Clubs),
        c(Rank::Nine, Suit::Diamonds),
    ];
    assert_eq!(get_scored_indices(&cards, PokerHand::TwoPair, &[]), vec![1, 3, 4, 5]);
}

#[test]
fn high_card_is_the_last_highest() {
    let cards = vec![
        c(Rank::Ace, Suit::Hearts),
        c(Rank::Three, Suit::Spades),
        c(Rank::Ace, Suit::Clubs),
        enhanced(Rank::King, Suit::Clubs, Enhancement::Stone),
    ];
    assert_eq!(get_scored_indices(&cards, PokerHand::HighCard, &[]), vec![2]);
    let stones = vec![enhanced(Rank::King, Suit::Clubs, Enhancement::Stone)];
    assert_eq!(get_scored_indices(&stones, PokerHand::HighCard, &[]), Vec::<usize>::new());
}

#[test]
fn lowest_held_card_edges() {
    let stones = vec![enhanced(Rank::Two, Suit::Clubs, Enhancement::Stone)];
    assert_eq!(get_lowest_rank_card_index(&stones), None);
    assert_eq!(get_lowest_rank_card_index(&[]), None);
    let held = vec![c(Rank::Ace, Suit::Clubs), c(Rank::King, Suit::Spades), c(Rank::King, Suit::Hearts)];
    assert_eq!(get_lowest_rank_card_index(&held), Some(2));
}

#[test]
fn blueprint_copies_the_joker_to_its_right() {
    let jokers = vec![j(Joker::Blueprint), j(Joker::Blueprint), j(Joker::Baron), j(Joker::Blueprint)];
    assert_eq!(effective_joker_at(&jokers, 0), Some(Joker::Baron));
    assert_eq!(effective_joker_at(&jokers, 2), Some(Joker::Baron));
    assert_eq!(effective_joker_at(&jokers, 3), None);
    assert_eq!(effective_joker_at(&jokers, 9), None);
    assert_eq!(effective_jokers(&jokers), vec![Joker::Baron, Joker::Baron, Joker::Baron]);
    let passive = vec![j(Joker::Blueprint), j(Joker::Splash)];
    assert_eq!(effective_joker_at(&passive, 1), Some(Joker::Splash));
    assert_eq!(effective_jokers(&passive), vec![Joker::Splash]);
}

#[test]
fn pareidolia_makes_faces_but_not_of_stones() {
    let with = round(vec![], vec![], vec![Joker::Pareidolia]);
    let without = round(vec![], vec![], vec![]);
    let two = c(Rank::Two, Suit::Hearts);
    let stone = enhanced(Rank::King, Suit::Hearts, Enhancement::Stone);
    assert!(is_card_face(two, &with));
    assert!(!is_card_face(two, &without));
    assert!(!is_card_face(stone, &with));
    assert!(is_card_face(c(Rank::Queen, Suit::Clubs), &without));
}

#[test]
fn stone_scores_fifty_after_a_pair() {
    let trace = score(round(
        vec![c(Rank::King, Suit::Spades), c(Rank::King, Suit::Hearts), enhanced(Rank::Two, Suit::Diamonds, Enhancement::Stone)],
        vec![],
        vec![],
    ));
    assert_eq!(trace.hand, PokerHand::Pair);
    assert_eq!(
        trace.steps,
        vec![ScoreStep::AddChips(10), ScoreStep::AddChips(10), ScoreStep::AddChips(50)]
    );
    assert_eq!(total(&trace), 160.0);
}

#[test]
fn splash_scores_all_in_played_order() {
    let trace = score(round(
        vec![c(Rank::Ace, Suit::Hearts), c(Rank::Three, Suit::Spades), c(Rank::Two, Suit::Diamonds)],
        vec![],
        vec![Joker::Splash],
    ));
    assert_eq!(
        trace.steps,
        vec![ScoreStep::AddChips(11), ScoreStep::AddChips(3), ScoreStep::AddChips(2)]
    );
}

#[test]
fn empty_round_scores_high_card_base() {
    let trace = score(round(vec![], vec![], vec![]));
    assert_eq!(trace.hand, PokerHand::HighCard);
    assert!(trace.steps.is_empty());
    assert_eq!(total(&trace), 5.0);
}

#[test]
fn abstract_joker_counts_every_joker_card() {
    let trace = score(round(vec![], vec![], vec![Joker::AbstractJoker, Joker::Splash, Joker::Blueprint]));
    assert_eq!(trace.steps, vec![ScoreStep::AddMult(9)]);
}

#[test]
fn mime_repeats_held_abilities() {
    let trace = score(round(
        vec![],
        vec![enhanced(Rank::King, Suit::Clubs, Enhancement::Steel)],
        vec![Joker::Baron, Joker::Mime, Joker::Mime],
    ));
    assert_eq!(trace.steps.len(), 6);
    assert!(trace.steps.iter().all(|s| *s == ScoreStep::TimesMult(MultFactor::OneAndAHalf)));
}

#[test]
fn flower_pot_counts_wild_once() {
    let cards = vec![
        enhanced(Rank::Two, Suit::Hearts, Enhancement::Wild),
        c(Rank::Three, Suit::Clubs),
        c(Rank::Four, Suit::Hearts),
        c(Rank::Five, Suit::Spades),
    ];
    assert!(flower_pot_matches(&cards, false));
    assert!(!flower_pot_matches(&cards[1..], false));
    let smeared = vec![
        c(Rank::Two, Suit::Hearts),
        c(Rank::Three, Suit::Clubs),
        c(Rank::Four, Suit::Hearts),
        c(Rank::Five, Suit::Spades),
    ];
    assert!(!flower_pot_matches(&smeared, false));
    assert!(flower_pot_matches(&smeared, true));
}

#[test]
fn joker_editions_without_ability() {
    let trace = score(Round {
        cards_played: vec![],
        cards_held_in_hand: vec![],
        jokers: vec![
            JokerCard { joker: Joker::Splash, edition: Some(Edition::Foil) },
            JokerCard { joker: Joker::Splash, edition: Some(Edition::Polychrome) },
        ],
    });
    assert_eq!(
        trace.steps,
        vec![ScoreStep::AddChips(50), ScoreStep::TimesMult(MultFactor::OneAndAHalf)]
    );
}

#[test]
fn command_scores_single_ace() {
    let trace = classic::score(round(vec![c(Rank::Ace, Suit::Hearts)], vec![], vec![]));
    assert_eq!(trace.hand, PokerHand::HighCard);
    assert_eq!(total(&trace), 16.0);
}

#[test]
fn command_scores_basic_and_abstract_jokers() {
    let trace = classic::score(round(
        vec![c(Rank::Ace, Suit::Hearts)],
        vec![],
        vec![Joker::Blueprint, Joker::Joker, Joker::AbstractJoker, Joker::Scholar],
    ));
    // Blueprint and Scholar give nothing in the command; the Abstract Joker
    // gives +3 mult for each of the four joker cards.
    assert_eq!(trace.steps, vec![ScoreStep::AddChips(11), ScoreStep::AddMult(4), ScoreStep::AddMult(12)]);
    assert_eq!(total(&trace), (5 + 11) as f64 * (1 + 4 + 12) as f64);
    let two = classic::score(round(vec![], vec![], vec![Joker::AbstractJoker, Joker::AbstractJoker]));
    assert_eq!(two.steps, vec![ScoreStep::AddMult(6), ScoreStep::AddMult(6)]);
}

#[test]
fn command_scores_stones_after_the_hand() {
    let trace = classic::score(round(
        vec![enhanced(Rank::Two, Suit::Diamonds, Enhancement::Stone), c(Rank::King, Suit::Spades), c(Rank::King, Suit::Hearts)],
        vec![enhanced(Rank::Two, Suit::Clubs, Enhancement::Steel)],
        vec![],
    ));
    assert_eq!(trace.hand, PokerHand::Pair);
    assert_eq!(
        trace.steps,
        vec![
            ScoreStep::AddChips(10),
            ScoreStep::AddChips(10),
            ScoreStep::AddChips(50),
            ScoreStep::TimesMult(MultFactor::OneAndAHalf)
        ]
    );
}

#[test]
fn command_hands() {
    let wheel = vec![
        c(Rank::Ace, Suit::Hearts),
        c(Rank::Two, Suit::Spades),
        c(Rank::Three, Suit::Clubs),
        c(Rank::Four, Suit::Diamonds),
        c(Rank::Five, Suit::Hearts),
    ];
    assert!(classic::is_sequential(&wheel));
    assert_eq!(classic::determine_poker_hand(&wheel), PokerHand::Straight);
    let repeated = vec![
        c(Rank::Two, Suit::Hearts),
        c(Rank::Two, Suit::Spades),
        c(Rank::Three, Suit::Clubs),
        c(Rank::Four, Suit::Diamonds),
        c(Rank::Six, Suit::Hearts),
        c(Rank::Seven, Suit::Hearts),
    ];
    assert!(classic::is_sequential(&repeated));
    let flush = vec![
        c(Rank::Two, Suit::Hearts),
        enhanced(Rank::Nine, Suit::Spades, Enhancement::Wild),
        c(Rank::Three, Suit::Hearts),
        c(Rank::Queen, Suit::Hearts),
        c(Rank::Six, Suit::Hearts),
    ];
    assert!(classic::is_all_same_suit(&flush));
    assert_eq!(classic::determine_poker_hand(&flush), PokerHand::Flush);
    assert!(!classic::is_all_same_suit(&flush[..4]));
    assert_eq!(
        classic::get_scored_cards(&flush, PokerHand::Flush).len(),
        5
    );
}


#[test]
fn four_fingers_and_shortcut_examples() {
    let four_fingers = [j(Joker::FourFingers)];
    let straight = vec![
        c(Rank::Four, Suit::Diamonds),
        c(Rank::Five, Suit::Clubs),
        c(Rank::Six, Suit::Diamonds),
        c(Rank::Seven, Suit::Spades),
        c(Rank::Jack, Suit::Clubs),
    ];
    assert_eq!(determine_poker_hand(&straight, &four_fingers), PokerHand::Straight);
    assert_eq!(get_scored_indices(&straight, PokerHand::Straight, &four_fingers), vec![0, 1, 2, 3]);
    let flush = vec![
        c(Rank::Three, Suit::Diamonds),
        c(Rank::Seven, Suit::Diamonds),
        c(Rank::Nine, Suit::Diamonds),
        c(Rank::Ace, Suit::Diamonds),
    ];
    assert_eq!(determine_poker_hand(&flush, &four_fingers), PokerHand::Flush);
    assert_eq!(determine_poker_hand(&flush, &[]), PokerHand::HighCard);
    let straight_flush = vec![
        c(Rank::Six, Suit::Hearts),
        c(Rank::Seven, Suit::Hearts),
        c(Rank::Eight, Suit::Hearts),
        c(Rank::Nine, Suit::Hearts),
    ];
    assert_eq!(determine_poker_hand(&straight_flush, &four_fingers), PokerHand::StraightFlush);
    let gaps = vec![
        c(Rank::Ten, Suit::Hearts),
        c(Rank::Eight, Suit::Clubs),
        c(Rank::Six, Suit::Hearts),
        c(Rank::Five, Suit::Spades),
        c(Rank::Three, Suit::Diamonds),
    ];
    assert_eq!(determine_poker_hand(&gaps, &[j(Joker::Shortcut)]), PokerHand::Straight);
    assert_eq!(determine_poker_hand(&gaps, &[]), PokerHand::HighCard);
}

#[test]
fn stone_card_blocks_five_card_only_hands() {
    let mut aces = vec![c(Rank::Ace, Suit::Hearts); 5];
    assert_eq!(determine_poker_hand(&aces, &[]), PokerHand::FlushFive);
    aces.push(enhanced(Rank::Two, Suit::Hearts, Enhancement::Stone));
    assert_eq!(determine_poker_hand(&aces, &[]), PokerHand::FourOfAKind);
    assert_eq!(count_ranks(&aces)[&14], 5);
    assert_eq!(count_ranks(&aces).get(&2), None);
}

#[test]
fn parses_a_round_from_yaml() {
    let round = parse_round(
        "cards_played: [10♦ Glass Foil, A♠]\ncards_held_in_hand: [K♣ Stone]\njokers: [Blueprint Polychrome, Shoot The Moon]\n",
    )
    .expect("round should parse");
    assert_eq!(round.cards_played.len(), 2);
    let ten = round.cards_played[0];
    assert_eq!((ten.rank, ten.suit, ten.enhancement, ten.edition), (Rank::Ten, Suit::Diamonds, Some(Enhancement::Glass), Some(Edition::Foil)));
    let ace = round.cards_played[1];
    assert_eq!((ace.rank, ace.suit, ace.enhancement, ace.edition), (Rank::Ace, Suit::Spades, None, None));
    let king = round.cards_held_in_hand[0];
    assert_eq!((king.rank, king.suit, king.enhancement), (Rank::King, Suit::Clubs, Some(Enhancement::Stone)));
    assert_eq!(round.jokers.len(), 2);
    assert_eq!((round.jokers[0].joker, round.jokers[0].edition), (Joker::Blueprint, Some(Edition::Polychrome)));
    assert_eq!((round.jokers[1].joker, round.jokers[1].edition), (Joker::ShootTheMoon, None));
}

#[test]
fn parse_defaults_and_errors() {
    let round = parse_round("cards_played: [2♥]\n").expect("held cards and jokers default to none");
    assert!(round.cards_held_in_hand.is_empty() && round.jokers.is_empty());
    assert!(parse_round("cards_played: [1♥]\n").is_err());
    assert!(parse_round("jokers: [Joker]\n").is_err());
}

#[test]
fn plain_joker_last_adds_four_mult_at_the_end() {
    let played = vec![c(Rank::King, Suit::Spades), c(Rank::King, Suit::Hearts)];
    let before = score(round(played.clone(), vec![], vec![Joker::GreedyJoker]));
    let after = score(round(played, vec![], vec![Joker::GreedyJoker, Joker::Joker]));
    assert_eq!(after.hand, before.hand);
    assert_eq!((after.chips, after.mult), (before.chips, before.mult));
    let mut expected = before.steps.clone();
    expected.push(ScoreStep::AddMult(4));
    assert_eq!(after.steps, expected);
    assert_eq!(total(&after), (10 + 10 + 10) as f64 * (2 + 4) as f64);
}

#[test]
fn joker_order_leaves_the_hand() {
    let cards = vec![
        c(Rank::Two, Suit::Hearts), c(Rank::Three, Suit::Hearts), c(Rank::Four, Suit::Hearts),
        c(Rank::Five, Suit::Hearts), c(Rank::Seven, Suit::Hearts),
    ];
    let a = [j(Joker::FourFingers), j(Joker::Shortcut), j(Joker::GreedyJoker)];
    let b = [j(Joker::GreedyJoker), j(Joker::Shortcut), j(Joker::FourFingers)];
    assert_eq!(determine_poker_hand(&cards, &a), PokerHand::StraightFlush);
    assert_eq!(determine_poker_hand(&cards, &b), PokerHand::StraightFlush);
}

#[test]
fn added_stone_leaves_a_short_hand() {
    let stone = enhanced(Rank::Ace, Suit::Spades, Enhancement::Stone);
    let cards = vec![c(Rank::Nine, Suit::Clubs), c(Rank::Nine, Suit::Hearts), c(Rank::Four, Suit::Clubs)];
    assert_eq!(determine_poker_hand(&cards, &[]), PokerHand::Pair);
    for position in 0..=cards.len() {
        let mut with_stone = cards.clone();
        with_stone.insert(position, stone);
        assert_eq!(determine_poker_hand(&with_stone, &[]), PokerHand::Pair);
    }
    let four = vec![
        c(Rank::Six, Suit::Diamonds), c(Rank::Seven, Suit::Diamonds), c(Rank::Eight, Suit::Diamonds),
        c(Rank::Nine, Suit::Diamonds),
    ];
    let ff = [j(Joker::FourFingers)];
    assert_eq!(determine_poker_hand(&four, &ff), PokerHand::StraightFlush);
    for position in 0..=four.len() {
        let mut with_stone = four.clone();
        with_stone.insert(position, stone);
        assert_eq!(determine_poker_hand(&with_stone, &ff), PokerHand::StraightFlush);
    }
}

#[test]
fn card_order_leaves_the_hand() {
    let stone = enhanced(Rank::King, Suit::Clubs, Enhancement::Stone);
    let cards = vec![
        c(Rank::Ten, Suit::Spades), stone, c(Rank::Jack, Suit::Spades), c(Rank::Queen, Suit::Spades),
        c(Rank::Nine, Suit::Spades), c(Rank::King, Suit::Spades),
    ];
    assert_eq!(determine_poker_hand(&cards, &[]), PokerHand::StraightFlush);
    let mut reversed = cards.clone();
    reversed.reverse();
    assert_eq!(determine_poker_hand(&reversed, &[]), PokerHand::StraightFlush);
    let mut rotated = cards.clone();
    rotated.rotate_left(2);
    assert_eq!(determine_poker_hand(&rotated, &[]), PokerHand::StraightFlush);
    let pairs = vec![
        c(Rank::Three, Suit::Hearts), c(Rank::Five, Suit::Clubs), c(Rank::Three, Suit::Spades),
        c(Rank::Five, Suit::Diamonds), c(Rank::Eight, Suit::Clubs),
    ];
    assert_eq!(determine_poker_hand(&pairs, &[]), PokerHand::TwoPair);
    let mut shuffled = pairs.clone();
    shuffled.swap(0, 4);
    shuffled.swap(1, 3);
    assert_eq!(determine_poker_hand(&shuffled, &[]), PokerHand::TwoPair);
}
