//! Core of a chat word-guessing game: a hidden word is revealed
//! letter by letter as players guess; accents are folded away and
//! case is ignored when a guess is compared against the word.
pub mod game;
pub mod loopstep;
pub mod norm;
pub mod words;
