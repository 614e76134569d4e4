//! A five-letter word-guessing game: per-letter feedback on each guess, a keyboard
//! that folds that feedback together, and a session that keeps the guesses.
pub mod definitions;
pub mod keyboard;
pub mod matcher;
pub mod session;
pub mod vocabulary;
pub mod word;
