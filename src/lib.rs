//! A rock-paper-scissors game: parsing a player's free-text choice, deciding
//! the outcome of one choice against another, and the players who hold them.
use vstd::prelude::*;

pub mod choice;
pub mod outcome;
pub mod player;
pub mod text;

pub use choice::Choice;
pub use outcome::Outcome;
pub use player::Player;

verus! {

} // verus!
