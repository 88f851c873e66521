//! Scorekeeping for a two-player expedition card game: the card lexicon,
//! the validation and scoring of a player's round submission, and the
//! progression of a three-round game.

pub mod cards;
pub mod text;
pub mod validate;
pub mod error;
pub mod score;
pub mod round;
pub mod game;
pub mod files;
