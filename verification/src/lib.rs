//! A verified core for a single-player word-guessing game: scoring a guess
//! against the hidden word, keeping the dictionary and the hidden word, and the
//! state machine of one game.

pub mod puzzle;
pub mod scoring;
pub mod session;
pub mod text;

pub use puzzle::{ConfigError, Puzzle};
pub use scoring::{check_word, CharGuess, LengthMismatch};
pub use session::{Attempt, Message, Status, Wordle};
