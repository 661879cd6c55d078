//! A blackjack-style card game: a 52-card deck with random draws, hand
//! scoring with ace resolution, and settlement of a round against a wager.

pub mod card;
pub mod deck;
pub mod error;
pub mod player;
pub mod round;
pub mod score;
pub mod settle;
