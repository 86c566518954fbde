//! A verified number-guessing game.
//!
//! The library holds the game's entire decision logic: parsing a line of
//! input as an unsigned decimal numeral, comparing a parsed guess against
//! the secret value, and the response policy for a whole session of guesses.
//! Reading lines and printing responses is left to the surrounding binary.

pub mod game;
pub mod numeral;
pub mod restaurant;
