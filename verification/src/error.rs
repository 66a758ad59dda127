//! What can be wrong with the input to the solver.

use vstd::prelude::*;

verus! {

/// Why a request was turned down.
#[derive(Clone, Copy, Debug, PartialEq, Eq, Structural)]
pub enum SolverError {
    /// A word or a pattern does not have exactly five characters.
    InvalidWordLength,
    /// A pattern holds a character other than `c`, `m` and `w`.
    InvalidPattern,
    /// A regular expression was not accepted.
    InvalidExpression,
    /// The guess is not in the word list.
    UnknownWord,
    /// The word list holds no five-letter word.
    EmptyWordList,
    /// The list of weights is empty.
    EmptyWeightConfiguration,
}

} // verus!
