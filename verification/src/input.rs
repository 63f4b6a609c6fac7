//! Reading a round from its YAML text.

use vstd::prelude::*;

use crate::cards::{Card, Edition, Enhancement, Joker, JokerCard, Rank, Round, Suit};

verus! {

/// A card as the round's text gives it: the positions of its rank, suit,
/// enhancement and edition among the variants of `ortalib`'s enums (in the
/// order they are declared there).
pub type CardCode = (u8, u8, Option<u8>, Option<u8>);

/// A joker card as the round's text gives it: the position of its joker
/// among `ortalib::Joker`'s variants, and of its edition.
pub type JokerCode = (u8, Option<u8>);

/// What serde_yaml makes of a YAML text as an `ortalib::Round`: the played
/// cards, the held cards and the jokers, each by its codes; or the error's
/// description.
pub uninterp spec fn parsed_round(text: Seq<char>) -> Result<(Seq<CardCode>, Seq<CardCode>, Seq<JokerCode>), Seq<char>>;

/// Every code of the card is the position of a variant.
pub open spec fn card_code_ok(c: CardCode) -> bool {
    &&& c.0 < 13
    &&& c.1 < 4
    &&& c.2 matches Some(e) ==> e < 6
    &&& c.3 matches Some(e) ==> e < 3
}

/// Every code of the joker card is the position of a variant.
pub open spec fn joker_code_ok(j: JokerCode) -> bool {
    &&& j.0 < 39
    &&& j.1 matches Some(e) ==> e < 3
}

/// Calls `serde_yaml::from_str::<ortalib::Round>` on `text`. On success the
/// cards and jokers are handed back field by field, each enum value as the
/// position of its variant (a cast of a field-less enum, so always below the
/// number of variants); on failure, the error's `Debug` text. The contract
/// claims only that the result is a function of the text (`parsed_round`)
/// and that the positions are in range.
#[verifier::external_body]
fn read_round_codes(text: &str) -> (codes: Result<(Vec<CardCode>, Vec<CardCode>, Vec<JokerCode>), String>)
    ensures
        match codes {
            Ok((played, held, jokers)) => parsed_round(text@) == Ok::<_, Seq<char>>((played@, held@, jokers@))
                && (forall|i: int| 0 <= i < played@.len() ==> card_code_ok(#[trigger] played@[i]))
                && (forall|i: int| 0 <= i < held@.len() ==> card_code_ok(#[trigger] held@[i]))
                && (forall|i: int| 0 <= i < jokers@.len() ==> joker_code_ok(#[trigger] jokers@[i])),
            Err(message) => parsed_round(text@) == Err::<(Seq<CardCode>, Seq<CardCode>, Seq<JokerCode>), _>(message@),
        },
{
    match serde_yaml::from_str::<ortalib::Round>(text) {
        Ok(r) => {
            let card = |c: &ortalib::Card| (c.rank as u8, c.suit as u8, c.enhancement.map(|e| e as u8), c.edition.map(|e| e as u8));
            let joker = |j: &ortalib::JokerCard| (j.joker as u8, j.edition.map(|e| e as u8));
            Ok((r.cards_played.iter().map(card).collect(), r.cards_held_in_hand.iter().map(card).collect(), r.jokers.iter().map(joker).collect()))
        },
        Err(e) => Err(format!("{:?}", e)),
    }
}

/// The rank at position `k` of `ortalib::Rank`.
pub open spec fn rank_of_code(k: u8) -> Rank {
    if k == 0 { Rank::Two } else if k == 1 { Rank::Three } else if k == 2 { Rank::Four }
    else if k == 3 { Rank::Five } else if k == 4 { Rank::Six } else if k == 5 { Rank::Seven }
    else if k == 6 { Rank::Eight } else if k == 7 { Rank::Nine } else if k == 8 { Rank::Ten }
    else if k == 9 { Rank::Jack } else if k == 10 { Rank::Queen } else if k == 11 { Rank::King }
    else { Rank::Ace }
}

/// The suit at position `k` of `ortalib::Suit`.
pub open spec fn suit_of_code(k: u8) -> Suit {
    if k == 0 { Suit::Spades } else if k == 1 { Suit::Hearts } else if k == 2 { Suit::Clubs } else { Suit::Diamonds }
}

/// The enhancement at position `k` of `ortalib::Enhancement`.
pub open spec fn enhancement_of_code(k: u8) -> Enhancement {
    if k == 0 { Enhancement::Bonus } else if k == 1 { Enhancement::Mult } else if k == 2 { Enhancement::Wild }
    else if k == 3 { Enhancement::Glass } else if k == 4 { Enhancement::Steel } else { Enhancement::Stone }
}

/// The edition at position `k` of `ortalib::Edition`.
pub open spec fn edition_of_code(k: u8) -> Edition {
    if k == 0 { Edition::Foil } else if k == 1 { Edition::Holographic } else { Edition::Polychrome }
}

/// The joker at position `k` of `ortalib::Joker`.
pub open spec fn joker_of_code(k: u8) -> Joker {
    if k == 0 { Joker::Joker } else if k == 1 { Joker::JollyJoker } else if k == 2 { Joker::ZanyJoker }
    else if k == 3 { Joker::MadJoker } else if k == 4 { Joker::TheOrder } else if k == 5 { Joker::TheTribe }
    else if k == 6 { Joker::SlyJoker } else if k == 7 { Joker::WilyJoker } else if k == 8 { Joker::CleverJoker }
    else if k == 9 { Joker::DeviousJoker } else if k == 10 { Joker::CraftyJoker } else if k == 11 { Joker::AbstractJoker }
    else if k == 12 { Joker::RaisedFist } else if k == 13 { Joker::Blackboard } else if k == 14 { Joker::Baron }
    else if k == 15 { Joker::ShootTheMoon } else if k == 16 { Joker::GreedyJoker } else if k == 17 { Joker::LustyJoker }
    else if k == 18 { Joker::Arrowhead } else if k == 19 { Joker::OnyxAgate } else if k == 20 { Joker::Fibonacci }
    else if k == 21 { Joker::ScaryFace } else if k == 22 { Joker::EvenSteven } else if k == 23 { Joker::OddTodd }
    else if k == 24 { Joker::Scholar } else if k == 25 { Joker::WalkieTalkie } else if k == 26 { Joker::Photograph }
    else if k == 27 { Joker::SmileyFace } else if k == 28 { Joker::FlowerPot } else if k == 29 { Joker::FourFingers }
    else if k == 30 { Joker::Shortcut } else if k == 31 { Joker::Mime } else if k == 32 { Joker::Pareidolia }
    else if k == 33 { Joker::Splash } else if k == 34 { Joker::SockAndBuskin } else if k == 35 { Joker::Hack }
    else if k == 36 { Joker::HangingChad } else if k == 37 { Joker::SmearedJoker } else { Joker::Blueprint }
}

/// The card that a card code stands for.
pub open spec fn card_of_code(c: CardCode) -> Card {
    Card {
        rank: rank_of_code(c.0),
        suit: suit_of_code(c.1),
        enhancement: match c.2 { Some(e) => Some(enhancement_of_code(e)), None => None },
        edition: match c.3 { Some(e) => Some(edition_of_code(e)), None => None },
    }
}

/// The joker card that a joker code stands for.
pub open spec fn joker_card_of_code(j: JokerCode) -> JokerCard {
    JokerCard {
        joker: joker_of_code(j.0),
        edition: match j.1 { Some(e) => Some(edition_of_code(e)), None => None },
    }
}

/// The round that the codes of a parsed text stand for.
pub open spec fn round_of_codes(round: Round, codes: (Seq<CardCode>, Seq<CardCode>, Seq<JokerCode>)) -> bool {
    &&& round.cards_played@ == Seq::new(codes.0.len(), |i: int| card_of_code(codes.0[i]))
    &&& round.cards_held_in_hand@ == Seq::new(codes.1.len(), |i: int| card_of_code(codes.1[i]))
    &&& round.jokers@ == Seq::new(codes.2.len(), |i: int| joker_card_of_code(codes.2[i]))
}

fn rank_from_code(k: u8) -> (rank: Rank)
    requires k < 13,
    ensures rank == rank_of_code(k),
{
    match k {
        0 => Rank::Two, 1 => Rank::Three, 2 => Rank::Four, 3 => Rank::Five, 4 => Rank::Six,
        5 => Rank::Seven, 6 => Rank::Eight, 7 => Rank::Nine, 8 => Rank::Ten, 9 => Rank::Jack,
        10 => Rank::Queen, 11 => Rank::King, _ => Rank::Ace,
    }
}

fn suit_from_code(k: u8) -> (suit: Suit)
    ensures suit == suit_of_code(k),
{
    match k {
        0 => Suit::Spades, 1 => Suit::Hearts, 2 => Suit::Clubs, _ => Suit::Diamonds,
    }
}

fn enhancement_from_code(k: u8) -> (enhancement: Enhancement)
    ensures enhancement == enhancement_of_code(k),
{
    match k {
        0 => Enhancement::Bonus, 1 => Enhancement::Mult, 2 => Enhancement::Wild,
        3 => Enhancement::Glass, 4 => Enhancement::Steel, _ => Enhancement::Stone,
    }
}

fn edition_from_code(k: u8) -> (edition: Edition)
    ensures edition == edition_of_code(k),
{
    match k {
        0 => Edition::Foil, 1 => Edition::Holographic, _ => Edition::Polychrome,
    }
}

fn joker_from_code(k: u8) -> (joker: Joker)
    ensures joker == joker_of_code(k),
{
    match k {
        0 => Joker::Joker, 1 => Joker::JollyJoker, 2 => Joker::ZanyJoker, 3 => Joker::MadJoker,
        4 => Joker::TheOrder, 5 => Joker::TheTribe, 6 => Joker::SlyJoker, 7 => Joker::WilyJoker,
        8 => Joker::CleverJoker, 9 => Joker::DeviousJoker, 10 => Joker::CraftyJoker,
        11 => Joker::AbstractJoker, 12 => Joker::RaisedFist, 13 => Joker::Blackboard,
        14 => Joker::Baron, 15 => Joker::ShootTheMoon, 16 => Joker::GreedyJoker,
        17 => Joker::LustyJoker, 18 => Joker::Arrowhead, 19 => Joker::OnyxAgate,
        20 => Joker::Fibonacci, 21 => Joker::ScaryFace, 22 => Joker::EvenSteven,
        23 => Joker::OddTodd, 24 => Joker::Scholar, 25 => Joker::WalkieTalkie,
        26 => Joker::Photograph, 27 => Joker::SmileyFace, 28 => Joker::FlowerPot,
        29 => Joker::FourFingers, 30 => Joker::Shortcut, 31 => Joker::Mime,
        32 => Joker::Pareidolia, 33 => Joker::Splash, 34 => Joker::SockAndBuskin,
        35 => Joker::Hack, 36 => Joker::HangingChad, 37 => Joker::SmearedJoker,
        _ => Joker::Blueprint,
    }
}

fn optional_edition(code: Option<u8>) -> (edition: Option<Edition>)
    ensures
        edition == match code { Some(e) => Some(edition_of_code(e)), None => None::<Edition> },
{
    match code {
        Some(e) => Some(edition_from_code(e)),
        None => None,
    }
}

fn card_from_code(code: CardCode) -> (card: Card)
    requires card_code_ok(code),
    ensures card == card_of_code(code),
{
    let enhancement = match code.2 {
        Some(e) => Some(enhancement_from_code(e)),
        None => None,
    };
    Card {
        rank: rank_from_code(code.0),
        suit: suit_from_code(code.1),
        enhancement,
        edition: optional_edition(code.3),
    }
}

fn cards_from_codes(codes: &Vec<CardCode>) -> (cards: Vec<Card>)
    requires forall|i: int| 0 <= i < codes@.len() ==> card_code_ok(#[trigger] codes@[i]),
    ensures cards@ == Seq::new(codes@.len(), |i: int| card_of_code(codes@[i])),
{
    let mut cards: Vec<Card> = Vec::new();
    let mut i: usize = 0;
    while i < codes.len()
        invariant
            i <= codes@.len(),
            forall|k: int| 0 <= k < codes@.len() ==> card_code_ok(#[trigger] codes@[k]),
            cards@ =~= Seq::new(i as nat, |k: int| card_of_code(codes@[k])),
        decreases codes@.len() - i,
    {
        cards.push(card_from_code(codes[i]));
        i = i + 1;
    }
    cards
}

/// Reads a round from its YAML text: the round that the text describes, or
/// the description of why it describes none.
pub fn parse_round(text: &str) -> (round: Result<Round, String>)
    ensures
        match parsed_round(text@) {
            Ok(codes) => round matches Ok(r) && round_of_codes(r, codes),
            Err(message) => round matches Err(m) && m@ == message,
        },
{
    match read_round_codes(text) {
        Ok((played, held, joker_codes)) => {
            let cards_played = cards_from_codes(&played);
            let cards_held_in_hand = cards_from_codes(&held);
            let mut jokers: Vec<JokerCard> = Vec::new();
            let mut i: usize = 0;
            while i < joker_codes.len()
                invariant
                    i <= joker_codes@.len(),
                    forall|k: int| 0 <= k < joker_codes@.len() ==> joker_code_ok(#[trigger] joker_codes@[k]),
                    jokers@ =~= Seq::new(i as nat, |k: int| joker_card_of_code(joker_codes@[k])),
                decreases joker_codes@.len() - i,
            {
                let code = joker_codes[i];
                jokers.push(JokerCard { joker: joker_from_code(code.0), edition: optional_edition(code.1) });
                i = i + 1;
            }
            Ok(Round { cards_played, cards_held_in_hand, jokers })
        },
        Err(message) => Err(message),
    }
}

} // verus!
