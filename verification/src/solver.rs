//! The assistant: it follows a game that is played elsewhere, and keeps the list of
//! words that can still be the target.

use crate::analysis::LetterStats;
use crate::error::SolverError;
use crate::filter::{
    all_five_letters, five_letter_words, lemma_filter_only_removes, survivors, Filter,
};
use crate::game::{is_pattern, parse_pattern, pattern_feedback, GameData, Knowledge};
use crate::letters::{is_listed, lists, same_text};
use crate::ranking::{
    score_candidates, scored_views, scores, string_views, weight_index, ScoreTerms,
};
use vstd::prelude::*;

verus! {

/// What a line typed in place of a guess asks for.
#[derive(Clone, Copy, Debug, PartialEq, Eq, Structural)]
pub enum GuessCheck {
    /// The line is the word `exit`: the session ends.
    Exit,
    /// The line is a five-letter word of the word list.
    Accepted,
}

/// The state of an assisted game.
#[derive(Debug)]
pub struct Solver {
    game: GameData,
    current_words: Vec<String>,
    all_words: Vec<String>,
}

impl Solver {
    /// What the guesses have revealed so far.
    pub closed spec fn game(&self) -> GameData {
        self.game
    }

    /// The words that can still be the target.
    pub closed spec fn candidates(&self) -> Seq<String> {
        self.current_words@
    }

    /// The whole word list.
    pub closed spec fn dictionary(&self) -> Seq<String> {
        self.all_words@
    }

    /// Every word that the solver holds has five letters.
    pub open spec fn wf(&self) -> bool {
        five_letter_words(self.candidates()) && five_letter_words(self.dictionary())
    }

    /// A solver for a new game over `words`. The list must not be empty, and each of its
    /// words must have five letters.
    pub fn new(words: Vec<String>) -> (made: Result<Solver, SolverError>)
        ensures
            words@.len() == 0 ==> made == Err::<Solver, SolverError>(SolverError::EmptyWordList),
            words@.len() > 0 && !five_letter_words(words@) ==> made == Err::<Solver, SolverError>(
                SolverError::InvalidWordLength,
            ),
            words@.len() > 0 && five_letter_words(words@) ==> made is Ok && ({
                let solver = made.unwrap();
                &&& solver.wf()
                &&& solver.dictionary() == words@
                &&& solver.candidates() == words@
                &&& solver.game()@ == Knowledge::empty()
                &&& solver.game().lines@.len() == 0
                &&& solver.game().faithful()
            }),
    {
        if words.len() == 0 {
            return Err(SolverError::EmptyWordList);
        }
        if !all_five_letters(words.as_slice()) {
            return Err(SolverError::InvalidWordLength);
        }
        let current_words = words.clone();
        Ok(Solver { game: GameData::new(), current_words, all_words: words })
    }

    /// What the guesses have revealed so far.
    pub fn game_data(&self) -> (game: &GameData)
        ensures
            *game == self.game(),
    {
        &self.game
    }

    /// The words that can still be the target.
    pub fn current_words(&self) -> (words: &Vec<String>)
        ensures
            words@ == self.candidates(),
    {
        &self.current_words
    }

    /// The whole word list.
    pub fn all_words(&self) -> (words: &Vec<String>)
        ensures
            words@ == self.dictionary(),
    {
        &self.all_words
    }

    /// Decides what a line typed in place of a guess asks for: `exit` ends the session;
    /// any other line must be a five-letter word of the word list.
    pub fn check_guess(&self, word: &str) -> (check: Result<GuessCheck, SolverError>)
        ensures
            check == if word@ == "exit"@ {
                Ok::<GuessCheck, SolverError>(GuessCheck::Exit)
            } else if word@.len() != 5 {
                Err::<GuessCheck, SolverError>(SolverError::InvalidWordLength)
            } else if !lists(self.dictionary(), word@) {
                Err::<GuessCheck, SolverError>(SolverError::UnknownWord)
            } else {
                Ok::<GuessCheck, SolverError>(GuessCheck::Accepted)
            },
    {
        if same_text(word, "exit") {
            Ok(GuessCheck::Exit)
        } else if word.unicode_len() != 5 {
            Err(SolverError::InvalidWordLength)
        } else if !is_listed(&self.all_words, word) {
            Err(SolverError::UnknownWord)
        } else {
            Ok(GuessCheck::Accepted)
        }
    }

    /// The candidates that agree with what is known, in their order.
    pub fn update_wordlist(&self) -> (kept: Vec<String>)
        requires
            self.wf(),
        ensures
            kept@ == survivors(self.game()@, self.candidates()),
    {
        let filter = Filter::new(&self.game, self.current_words.as_slice());
        filter.filter_words()
    }

    /// Records the guess `word` with the verdicts that `pattern` spells, if both are
    /// well formed; otherwise nothing changes.
    pub fn add_round(&mut self, word: &str, pattern: &str) -> (done: Result<(), SolverError>)
        ensures
            final(self).candidates() == old(self).candidates(),
            final(self).dictionary() == old(self).dictionary(),
            done == if word@.len() != 5 || pattern@.len() != 5 {
                Err::<(), SolverError>(SolverError::InvalidWordLength)
            } else if !is_pattern(pattern@) {
                Err::<(), SolverError>(SolverError::InvalidPattern)
            } else {
                Ok::<(), SolverError>(())
            },
            done is Err ==> final(self).game() == old(self).game(),
            done is Ok ==> {
                &&& final(self).game()@ == old(self).game()@.record_round(
                    word@,
                    pattern_feedback(pattern@),
                )
                &&& final(self).game().lines@.len() == old(self).game().lines@.len() + 1
                &&& final(self).game().lines@.drop_last() == old(self).game().lines@
                &&& final(self).game().lines@.last().records(word@, pattern_feedback(pattern@))
                &&& old(self).game().faithful() ==> final(self).game().faithful()
            },
    {
        if word.unicode_len() != 5 || pattern.unicode_len() != 5 {
            Err(SolverError::InvalidWordLength)
        } else if parse_pattern(pattern).is_none() {
            Err(SolverError::InvalidPattern)
        } else {
            self.game.add_line(word, pattern);
            Ok(())
        }
    }

    /// Drops the candidates that no longer agree with what is known.
    pub fn narrow(&mut self)
        requires
            old(self).wf(),
        ensures
            final(self).wf(),
            final(self).game() == old(self).game(),
            final(self).dictionary() == old(self).dictionary(),
            final(self).candidates() == survivors(old(self).game()@, old(self).candidates()),
            final(self).candidates().len() <= old(self).candidates().len(),
    {
        let kept = self.update_wordlist();
        proof {
            lemma_filter_only_removes(self.game@, self.current_words@);
        }
        self.current_words = kept;
    }

    /// Which of `available` weight settings applies now: the one numbered by the guesses
    /// made so far, and the last one once the guesses outnumber the settings.
    pub fn weight_index(&self, available: usize) -> (index: Result<usize, SolverError>)
        ensures
            available == 0 ==> index == Err::<usize, SolverError>(
                SolverError::EmptyWeightConfiguration,
            ),
            available > 0 ==> index == Ok::<usize, SolverError>(
                if self.game().lines@.len() < available {
                    self.game().lines@.len() as usize
                } else {
                    (available - 1) as usize
                },
            ),
    {
        weight_index(self.game.lines.len(), available)
    }

    /// Prepares the next suggestions: picks the weight setting, drops the candidates that
    /// no longer agree with what is known, and scores the rest. With no weight setting to
    /// pick from, nothing changes.
    pub fn rank_words(&mut self, stats: &LetterStats, available: usize) -> (ranked: Result<
        (usize, Vec<(String, ScoreTerms)>),
        SolverError,
    >)
        requires
            old(self).wf(),
        ensures
            final(self).wf(),
            final(self).game() == old(self).game(),
            final(self).dictionary() == old(self).dictionary(),
            available == 0 ==> ranked == Err::<(usize, Vec<(String, ScoreTerms)>), SolverError>(
                SolverError::EmptyWeightConfiguration,
            ) && final(self).candidates() == old(self).candidates(),
            available > 0 ==> ranked is Ok && ({
                let (index, scored) = ranked.unwrap();
                &&& index == if old(self).game().lines@.len() < available {
                    old(self).game().lines@.len() as usize
                } else {
                    (available - 1) as usize
                }
                &&& final(self).candidates() == survivors(
                    old(self).game()@,
                    old(self).candidates(),
                )
                &&& scored_views(scored@) == scores(stats, string_views(final(self).candidates()))
            }),
    {
        match self.weight_index(available) {
            Err(e) => Err(e),
            Ok(index) => {
                self.narrow();
                let scored = score_candidates(&self.current_words, stats);
                Ok((index, scored))
            },
        }
    }

    /// Whether every position of the target is known.
    pub fn is_game_won(&self) -> (won: bool)
        ensures
            won == self.game()@.is_solved(),
    {
        self.game.is_solved()
    }

    /// The target, once every position is known.
    pub fn get_solved_word(&self) -> (word: Option<String>)
        ensures
            word is Some <==> self.game()@.is_solved(),
            word is Some ==> word.unwrap()@ == self.game()@.solved_word(),
    {
        self.game.solved_word()
    }
}

} // verus!
