//! An assistant for a word-guessing game in which a hidden five-letter word is found
//! from the verdicts on a series of guesses.
//!
//! * [`game`] keeps what the verdicts have revealed: which letter stands where, which
//!   letters are in the word but elsewhere, and which are not in it at all.
//! * [`filter`] keeps, of a list of candidate words, those that agree with it.
//! * [`analysis`] counts how often each letter stands at each position of a word list,
//!   and [`ranking`] turns the counts into the parts of a candidate's score.
//! * [`play`] judges guesses against a known target, and [`solver`] follows a game whose
//!   verdicts are typed in.
//! * [`soundness`] shows that honest verdicts never filter the target out.
//! * [`text`] and [`layout`] prepare what is read and written.
//!
//! Every function states what it computes, and the statement is proved.

pub mod analysis;
pub mod error;
pub mod filter;
pub mod game;
pub mod layout;
pub mod letters;
pub mod play;
pub mod ranking;
pub mod solver;
pub mod soundness;
pub mod text;
