//! The vocabulary of a round: ranks, suits, enhancements, editions, jokers,
//! cards and poker hands, with the few fixed tables that the rules use.

use vstd::prelude::*;

verus! {

/// The thirteen ranks of a playing card.
#[derive(Clone, Copy, Debug, PartialEq, Eq, Structural)]
pub enum Rank {
    Two,
    Three,
    Four,
    Five,
    Six,
    Seven,
    Eight,
    Nine,
    Ten,
    Jack,
    Queen,
    King,
    Ace,
}

/// The four suits.
#[derive(Clone, Copy, Debug, PartialEq, Eq, Structural)]
pub enum Suit {
    Spades,
    Hearts,
    Clubs,
    Diamonds,
}

/// Card enhancements.
#[derive(Clone, Copy, Debug, PartialEq, Eq, Structural)]
pub enum Enhancement {
    Bonus,
    Mult,
    Wild,
    Glass,
    Steel,
    Stone,
}

/// Editions of cards and jokers.
#[derive(Clone, Copy, Debug, PartialEq, Eq, Structural)]
pub enum Edition {
    Foil,
    Holographic,
    Polychrome,
}

/// The joker abilities.
#[derive(Clone, Copy, Debug, PartialEq, Eq, Structural)]
pub enum Joker {
    Joker,
    JollyJoker,
    ZanyJoker,
    MadJoker,
    TheOrder,
    TheTribe,
    SlyJoker,
    WilyJoker,
    CleverJoker,
    DeviousJoker,
    CraftyJoker,
    AbstractJoker,
    RaisedFist,
    Blackboard,
    Baron,
    ShootTheMoon,
    GreedyJoker,
    LustyJoker,
    Arrowhead,
    OnyxAgate,
    Fibonacci,
    ScaryFace,
    EvenSteven,
    OddTodd,
    Scholar,
    WalkieTalkie,
    Photograph,
    SmileyFace,
    FlowerPot,
    FourFingers,
    Shortcut,
    Mime,
    Pareidolia,
    Splash,
    SockAndBuskin,
    Hack,
    HangingChad,
    SmearedJoker,
    Blueprint,
}

/// The poker hands, from the lowest to the highest.
#[derive(Clone, Copy, Debug, PartialEq, Eq, Structural)]
pub enum PokerHand {
    HighCard,
    Pair,
    TwoPair,
    ThreeOfAKind,
    Straight,
    Flush,
    FullHouse,
    FourOfAKind,
    StraightFlush,
    FiveOfAKind,
    FlushHouse,
    FlushFive,
}

/// One playing card.
#[derive(Clone, Copy, Debug)]
pub struct Card {
    pub rank: Rank,
    pub suit: Suit,
    pub enhancement: Option<Enhancement>,
    pub edition: Option<Edition>,
}

/// One joker card: its ability and a possible edition.
#[derive(Clone, Copy, Debug)]
pub struct JokerCard {
    pub joker: Joker,
    pub edition: Option<Edition>,
}

/// Everything that one round is scored from.
#[derive(Debug)]
pub struct Round {
    pub cards_played: Vec<Card>,
    pub cards_held_in_hand: Vec<Card>,
    pub jokers: Vec<JokerCard>,
}

/// The number that orders a rank: 2 to 10 for the numerals, 11, 12, 13 for
/// Jack, Queen, King, and 14 for the Ace.
pub open spec fn rank_number(rank: Rank) -> int {
    match rank {
        Rank::Two => 2,
        Rank::Three => 3,
        Rank::Four => 4,
        Rank::Five => 5,
        Rank::Six => 6,
        Rank::Seven => 7,
        Rank::Eight => 8,
        Rank::Nine => 9,
        Rank::Ten => 10,
        Rank::Jack => 11,
        Rank::Queen => 12,
        Rank::King => 13,
        Rank::Ace => 14,
    }
}

/// The chips that a card of this rank scores: its numeral, 10 for a face
/// card, 11 for an Ace.
pub open spec fn rank_chips(rank: Rank) -> int {
    match rank {
        Rank::Jack | Rank::Queen | Rank::King => 10,
        Rank::Ace => 11,
        _ => rank_number(rank),
    }
}

/// Jack, Queen and King are face ranks.
pub open spec fn is_face_rank(rank: Rank) -> bool {
    rank == Rank::Jack || rank == Rank::Queen || rank == Rank::King
}

/// A stone card has no rank and no suit.
pub open spec fn is_stone(card: Card) -> bool {
    card.enhancement == Some(Enhancement::Stone)
}

/// A wild card counts as every suit.
pub open spec fn is_wild(card: Card) -> bool {
    card.enhancement == Some(Enhancement::Wild)
}

/// Hearts and Diamonds are red, Spades and Clubs black.
pub open spec fn is_red(suit: Suit) -> bool {
    suit == Suit::Hearts || suit == Suit::Diamonds
}

/// Whether a card counts as being of `suit`: never for a stone card, always
/// for a wild card, by colour when the Smeared Joker is in play, else by its
/// own suit.
pub open spec fn suit_matches(card: Card, suit: Suit, smeared: bool) -> bool {
    if is_stone(card) {
        false
    } else if is_wild(card) {
        true
    } else if smeared {
        is_red(card.suit) == is_red(suit)
    } else {
        card.suit == suit
    }
}

/// The chips and mult that a poker hand starts from.
pub open spec fn hand_base(hand: PokerHand) -> (int, int) {
    match hand {
        PokerHand::HighCard => (5, 1),
        PokerHand::Pair => (10, 2),
        PokerHand::TwoPair => (20, 2),
        PokerHand::ThreeOfAKind => (30, 3),
        PokerHand::Straight => (30, 4),
        PokerHand::Flush => (35, 4),
        PokerHand::FullHouse => (40, 4),
        PokerHand::FourOfAKind => (60, 7),
        PokerHand::StraightFlush => (100, 8),
        PokerHand::FiveOfAKind => (120, 12),
        PokerHand::FlushHouse => (140, 14),
        PokerHand::FlushFive => (160, 16),
    }
}

/// The number that orders `rank` (Ace high).
pub fn rank_order(rank: Rank) -> (order: u8)
    ensures
        order == rank_number(rank),
        2 <= order <= 14,
{
    match rank {
        Rank::Ace => 14,
        Rank::Two => 2,
        Rank::Three => 3,
        Rank::Four => 4,
        Rank::Five => 5,
        Rank::Six => 6,
        Rank::Seven => 7,
        Rank::Eight => 8,
        Rank::Nine => 9,
        Rank::Ten => 10,
        Rank::Jack => 11,
        Rank::Queen => 12,
        Rank::King => 13,
    }
}

/// The chips that a card of `rank` scores.
pub fn rank_value(rank: Rank) -> (chips: u64)
    ensures
        chips == rank_chips(rank),
{
    match rank {
        Rank::Two => 2,
        Rank::Three => 3,
        Rank::Four => 4,
        Rank::Five => 5,
        Rank::Six => 6,
        Rank::Seven => 7,
        Rank::Eight => 8,
        Rank::Nine => 9,
        Rank::Ten | Rank::Jack | Rank::Queen | Rank::King => 10,
        Rank::Ace => 11,
    }
}

/// Whether `rank` is a face rank.
pub fn is_face(rank: Rank) -> (face: bool)
    ensures
        face == is_face_rank(rank),
{
    match rank {
        Rank::Jack | Rank::Queen | Rank::King => true,
        _ => false,
    }
}

/// The chips and mult that `hand` starts from.
pub fn hand_value(hand: PokerHand) -> (base: (u64, u64))
    ensures
        base.0 == hand_base(hand).0,
        base.1 == hand_base(hand).1,
{
    match hand {
        PokerHand::HighCard => (5, 1),
        PokerHand::Pair => (10, 2),
        PokerHand::TwoPair => (20, 2),
        PokerHand::ThreeOfAKind => (30, 3),
        PokerHand::Straight => (30, 4),
        PokerHand::Flush => (35, 4),
        PokerHand::FullHouse => (40, 4),
        PokerHand::FourOfAKind => (60, 7),
        PokerHand::StraightFlush => (100, 8),
        PokerHand::FiveOfAKind => (120, 12),
        PokerHand::FlushHouse => (140, 14),
        PokerHand::FlushFive => (160, 16),
    }
}

/// Whether `card` is a stone card.
pub fn card_is_stone(card: &Card) -> (stone: bool)
    ensures
        stone == is_stone(*card),
{
    match card.enhancement {
        Some(Enhancement::Stone) => true,
        _ => false,
    }
}

/// Whether `card` is a wild card.
pub fn card_is_wild(card: &Card) -> (wild: bool)
    ensures
        wild == is_wild(*card),
{
    match card.enhancement {
        Some(Enhancement::Wild) => true,
        _ => false,
    }
}

fn suit_is_red(suit: Suit) -> (red: bool)
    ensures
        red == is_red(suit),
{
    match suit {
        Suit::Hearts | Suit::Diamonds => true,
        Suit::Spades | Suit::Clubs => false,
    }
}

/// Whether `card` counts as being of `suit` (see `suit_matches`).
pub fn card_matches_suit(card: Card, suit: Suit, smeared: bool) -> (matches: bool)
    ensures
        matches == suit_matches(card, suit, smeared),
{
    if card_is_stone(&card) {
        false
    } else if card_is_wild(&card) {
        true
    } else if smeared {
        suit_is_red(card.suit) == suit_is_red(suit)
    } else {
        card.suit == suit
    }
}

} // verus!
