//! Scoring of a single Ortalab round: recognising the poker hand that the
//! played cards form, choosing the cards that score, and producing the exact
//! sequence of chip and mult changes that the cards, editions and jokers make.

pub mod cards;
pub mod ranks;
pub mod patterns;
pub mod hands;
pub mod selection;
pub mod jokers;
pub mod score;
pub mod laws;
pub mod joker_laws;
pub mod hand_laws;
pub mod classic;
pub mod input;
pub mod rule_laws;

