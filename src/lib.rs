//! An advisor for a five-letter word-guessing game: scoring of guesses with
//! positional feedback, pruning of the candidate words by that feedback, and
//! the choice of the next guess.
pub mod brain;
pub mod feedback;
pub mod solver;
pub mod text;
pub mod data;
pub mod session;
