//! Poker hand evaluation: the best five-card category of a hand of five to
//! seven cards, its tiebreak signature, and the comparison of evaluated hands
//! at a showdown.

pub mod card;
pub mod category;
pub mod compare;
pub mod counting;
pub mod detect;
pub mod evaluate;
pub mod order;
pub mod shape;
pub mod showdown;
pub mod tally;
