//! Playing the game against a secret target word.

use crate::error::SolverError;
use crate::filter::{five_letter_words, survives};
use crate::game::{
    is_pattern, lemma_round_keeps_positions_known, pattern_feedback, CellData, Feedback, GameData,
    Knowledge, LineData, Round,
};
use crate::letters::{chars_of, is_listed, letter_at, lists, same_text, string_of};
use crate::soundness::{
    honest, lemma_guessing_the_target_solves, lemma_honest_rounds_stay_true,
    lemma_truth_admits_target, true_of,
};
use crate::text::{guess_form, guess_of};
use std::collections::HashMap;
use vstd::prelude::*;
use vstd::slice::slice_subrange;

verus! {

broadcast use vstd::std_specs::hash::group_hash_axioms;

/// At how many of the first `n` positions `target` has `c` and `guess` another letter.
pub open spec fn unmatched_in_target(target: Seq<char>, guess: Seq<char>, c: char, n: int) -> nat
    decreases n,
{
    if n <= 0 {
        0
    } else {
        unmatched_in_target(target, guess, c, n - 1) + if target[n - 1] == c && guess[n - 1] != c {
            1nat
        } else {
            0nat
        }
    }
}

/// At how many of the first `n` positions `guess` has `c` and `target` another letter.
pub open spec fn loose_in_guess(target: Seq<char>, guess: Seq<char>, c: char, n: int) -> nat
    decreases n,
{
    if n <= 0 {
        0
    } else {
        loose_in_guess(target, guess, c, n - 1) + if guess[n - 1] == c && target[n - 1] != c {
            1nat
        } else {
            0nat
        }
    }
}

/// How many occurrences of `c` in the target the guess does not hit exactly.
pub open spec fn spare_in_target(target: Seq<char>, guess: Seq<char>, c: char) -> nat {
    unmatched_in_target(target, guess, c, 5)
}

/// The verdict on letter `i` of `guess` against `target`.
///
/// A letter at its place is correct. Any other letter is misplaced as long as the target
/// has an occurrence of it that neither an exact hit nor an earlier misplaced letter of
/// the guess has used up, and absent after that.
pub open spec fn verdict(target: Seq<char>, guess: Seq<char>, i: int) -> Feedback {
    if guess[i] == target[i] {
        Feedback::Correct
    } else if loose_in_guess(target, guess, guess[i], i) < spare_in_target(target, guess, guess[i]) {
        Feedback::Misplaced
    } else {
        Feedback::Absent
    }
}

/// The verdicts on the five letters of `guess` against `target`.
pub open spec fn verdicts(target: Seq<char>, guess: Seq<char>) -> Seq<Feedback> {
    Seq::new(5, |i: int| verdict(target, guess, i))
}

/// Where the target has spare occurrences of `c`, it has `c` at a position where the
/// guess has another letter; and the other way round.
pub proof fn lemma_spare_occurrence(target: Seq<char>, guess: Seq<char>, c: char, n: int)
    ensures
        unmatched_in_target(target, guess, c, n) > 0 <==> exists|k: int|
            0 <= k < n && #[trigger] target[k] == c && guess[k] != c,
    decreases n,
{
    if n > 0 {
        lemma_spare_occurrence(target, guess, c, n - 1);
        if unmatched_in_target(target, guess, c, n - 1) > 0 {
            let k = choose|k: int| 0 <= k < n - 1 && #[trigger] target[k] == c && guess[k] != c;
            assert(0 <= k < n && target[k] == c && guess[k] != c);
        }
        if target[n - 1] == c && guess[n - 1] != c {
            assert(0 <= n - 1 < n && target[n - 1] == c && guess[n - 1] != c);
        }
        if exists|k: int| 0 <= k < n && #[trigger] target[k] == c && guess[k] != c {
            let k = choose|k: int| 0 <= k < n && #[trigger] target[k] == c && guess[k] != c;
            if k < n - 1 {
                assert(0 <= k < n - 1 && target[k] == c && guess[k] != c);
            }
        }
    }
}

/// Where the guess has loose occurrences of `c` among its first `n` letters, the first
/// of them has none before it.
pub proof fn lemma_first_loose(target: Seq<char>, guess: Seq<char>, c: char, n: int)
    requires
        loose_in_guess(target, guess, c, n) > 0,
    ensures
        exists|j: int|
            0 <= j < n && #[trigger] guess[j] == c && target[j] != c && loose_in_guess(
                target,
                guess,
                c,
                j,
            ) == 0,
    decreases n,
{
    if loose_in_guess(target, guess, c, n - 1) > 0 {
        lemma_first_loose(target, guess, c, n - 1);
        let j = choose|j: int|
            0 <= j < n - 1 && #[trigger] guess[j] == c && target[j] != c && loose_in_guess(
                target,
                guess,
                c,
                j,
            ) == 0;
        assert(0 <= j < n && guess[j] == c && target[j] != c);
    } else {
        assert(guess[n - 1] == c && target[n - 1] != c);
    }
}

/// How many of the first `n` letters of `target` are `c`.
spec fn count_in(target: Seq<char>, c: char, n: int) -> nat
    decreases n,
{
    if n <= 0 {
        0
    } else {
        count_in(target, c, n - 1) + if target[n - 1] == c {
            1nat
        } else {
            0nat
        }
    }
}

/// At how many of the first `n` positions `guess` and `target` both have `c`.
spec fn exact_matches(target: Seq<char>, guess: Seq<char>, c: char, n: int) -> nat
    decreases n,
{
    if n <= 0 {
        0
    } else {
        exact_matches(target, guess, c, n - 1) + if guess[n - 1] == c && target[n - 1] == c {
            1nat
        } else {
            0nat
        }
    }
}

/// The count over more positions is no smaller.
proof fn lemma_count_in_grows(target: Seq<char>, c: char, m: int, n: int)
    requires
        m <= n,
    ensures
        count_in(target, c, m) <= count_in(target, c, n),
    decreases n - m,
{
    if m < n {
        lemma_count_in_grows(target, c, m, n - 1);
    }
}

/// No letter is counted more often than there are positions.
proof fn lemma_count_bounded(target: Seq<char>, c: char, n: int)
    requires
        0 <= n,
    ensures
        count_in(target, c, n) <= n,
    decreases n,
{
    if n > 0 {
        lemma_count_bounded(target, c, n - 1);
    }
}

/// Each occurrence of `c` in the target is hit exactly by the guess or it is not.
proof fn lemma_count_splits(target: Seq<char>, guess: Seq<char>, c: char, n: int)
    ensures
        count_in(target, c, n) == exact_matches(target, guess, c, n) + unmatched_in_target(
            target,
            guess,
            c,
            n,
        ),
    decreases n,
{
    if n > 0 {
        lemma_count_splits(target, guess, c, n - 1);
    }
}

/// How many occurrences of each letter are still to be accounted for.
struct Tally {
    /// The number kept for each letter, under the letter's code point.
    left: HashMap<u32, usize>,
}

impl Tally {
    /// The number kept for `c`; 0 where none is kept.
    closed spec fn of(&self, c: char) -> nat {
        if self.left@.contains_key(c as u32) {
            self.left@[c as u32] as nat
        } else {
            0
        }
    }

    /// A tally that keeps 0 for every letter.
    fn new() -> (tally: Tally)
        ensures
            forall|c: char| #[trigger] tally.of(c) == 0,
    {
        Tally { left: HashMap::new() }
    }

    /// The number kept for `c`.
    fn get(&self, c: char) -> (n: usize)
        ensures
            n == self.of(c),
    {
        match self.left.get(&(c as u32)) {
            Some(n) => *n,
            None => 0,
        }
    }

    /// Keeps `n` for `c` from now on.
    fn set(&mut self, c: char, n: usize)
        ensures
            final(self).of(c) == n,
            forall|d: char| d != c ==> #[trigger] final(self).of(d) == old(self).of(d),
    {
        self.left.insert(c as u32, n);
        assert forall|d: char| d != c implies #[trigger] self.of(d) == old(self).of(d) by {
            vstd::utf8::char_u32_cast(d, d as u32);
            vstd::utf8::char_u32_cast(c, c as u32);
        }
    }
}

/// The word list's entries before this index are words that may be guessed but are never
/// the target.
pub const TARGET_POOL_START: usize = 10657;

/// The number of guesses that a player has.
pub const GUESSES: usize = 6;

/// `rand::seq::IndexedRandom::choose` on a slice, with the generator that `rand::rng`
/// hands out: for an empty slice the result is `None`, otherwise it is one of the
/// slice's elements. Which one is not said, and two calls may differ.
#[verifier::external_body]
fn pick(pool: &[String]) -> (picked: Option<&String>)
    ensures
        pool@.len() == 0 ==> picked is None,
        pool@.len() > 0 ==> picked is Some && pool@.contains(*picked.unwrap()),
{
    rand::seq::IndexedRandom::choose(pool, &mut rand::rng())
}

/// How a game stands.
#[derive(Clone, Copy, Debug, PartialEq, Eq, Structural)]
pub enum GameResult {
    /// The secret word was guessed.
    Win,
    /// The guesses ran out.
    Lose,
    /// Neither yet.
    Ongoing,
}

/// One game against a secret target word.
#[derive(Debug)]
pub struct Play {
    word: String,
    num_guesses: usize,
    game_data: GameData,
    wordlist: Vec<String>,
    result: GameResult,
}

impl Play {
    /// The letters of the secret word.
    pub closed spec fn target(&self) -> Seq<char> {
        self.word@
    }

    /// What the guesses have revealed so far.
    pub closed spec fn game(&self) -> GameData {
        self.game_data
    }

    /// The words that may be guessed.
    pub closed spec fn words(&self) -> Seq<String> {
        self.wordlist@
    }

    /// How the game stands.
    pub closed spec fn outcome(&self) -> GameResult {
        self.result
    }

    /// How many guesses the player has in all.
    pub closed spec fn allowed_guesses(&self) -> nat {
        self.num_guesses as nat
    }

    /// The secret word has five letters, the recorded lines hold the verdicts that it
    /// gives, and what is known is what they reveal.
    pub open spec fn wf(&self) -> bool {
        &&& self.target().len() == 5
        &&& self.game().faithful()
        &&& honest(self.target(), self.game().history())
        &&& self.outcome() == GameResult::Win ==> self.solved()
    }

    /// Every position is known, and the known letters spell the secret word.
    pub open spec fn solved(&self) -> bool {
        self.game()@.is_solved() && self.game()@.solved_word() == self.target()
    }

    /// In a well-formed game everything known is true of the secret word, and the secret
    /// word agrees with it: no filter by this game's knowledge removes it.
    pub proof fn lemma_target_is_possible(&self)
        requires
            self.wf(),
        ensures
            true_of(self.game()@, self.target()),
            survives(self.game()@, self.target()),
            self.game()@.consistent(),
    {
        lemma_honest_rounds_stay_true(self.target(), self.game().history());
        lemma_truth_admits_target(self.game()@, self.target());
    }

    /// The state that a new game with the given secret word starts in.
    pub open spec fn starts_with(&self, words: Seq<String>, target: Seq<char>) -> bool {
        &&& self.target() == target
        &&& self.words() == words
        &&& self.allowed_guesses() == GUESSES
        &&& self.outcome() == GameResult::Ongoing
        &&& self.game()@ == Knowledge::empty()
        &&& self.game().lines@.len() == 0
        &&& self.game().faithful()
    }

    /// A new game over `words`, whose secret word is drawn at random from the entries of
    /// `words` from [`TARGET_POOL_START`] on.
    pub fn new(words: Vec<String>) -> (play: Play)
        requires
            words@.len() > TARGET_POOL_START,
            five_letter_words(words@),
        ensures
            play.wf(),
            exists|i: int|
                TARGET_POOL_START <= i < words@.len() && play.starts_with(
                    words@,
                    (#[trigger] words@[i])@,
                ),
    {
        let pool = slice_subrange(words.as_slice(), TARGET_POOL_START, words.len());
        let target = match pick(pool) {
            Some(word) => word.clone(),
            None => String::new(),
        };
        proof {
            let i = choose|i: int| 0 <= i < pool@.len() && pool@[i] == target;
            assert(words@[TARGET_POOL_START + i] == target);
        }
        Play::with_target(words, target)
    }

    /// A new game over `words` with the secret word `target`.
    pub fn with_target(words: Vec<String>, target: String) -> (play: Play)
        requires
            target@.len() == 5,
        ensures
            play.wf(),
            play.starts_with(words@, target@),
    {
        Play {
            word: target,
            num_guesses: GUESSES,
            game_data: GameData::new(),
            wordlist: words,
            result: GameResult::Ongoing,
        }
    }

    /// What the guesses have revealed so far.
    pub fn game_data(&self) -> (game: &GameData)
        ensures
            *game == self.game(),
    {
        &self.game_data
    }

    /// The secret word.
    pub fn word(&self) -> (word: &String)
        ensures
            word@ == self.target(),
    {
        &self.word
    }

    /// How the game stands.
    pub fn result(&self) -> (result: GameResult)
        ensures
            result == self.outcome(),
    {
        self.result
    }

    /// Whether the player may guess again: the game is undecided and guesses are left.
    pub fn can_continue(&self) -> (open: bool)
        ensures
            open == (self.outcome() == GameResult::Ongoing && self.game().lines@.len()
                < self.allowed_guesses()),
    {
        self.result == GameResult::Ongoing && self.game_data.lines.len() < self.num_guesses
    }

    /// The pattern that spells the verdicts of `line`.
    pub fn get_pattern(&self, line: &LineData) -> (pattern: String)
        ensures
            is_pattern(pattern@),
            pattern_feedback(pattern@) == line.round().marks,
    {
        let mut symbols: Vec<char> = Vec::new();
        let mut i: usize = 0;
        while i < 5
            invariant
                i <= 5,
                symbols@.len() == i,
                forall|j: int|
                    0 <= j < i ==> Feedback::of_code(#[trigger] symbols@[j]) == Some(
                        line.cells@[j].state,
                    ),
            decreases 5 - i,
        {
            symbols.push(line.cells[i].state.to_char());
            i += 1;
        }
        string_of(&symbols)
    }

    /// Takes a line typed by the player as the next guess: its first five characters,
    /// once white space is taken out and the rest is made lowercase. The guess must have
    /// five letters and be in the word list; then it is judged against the secret word and
    /// recorded. Otherwise nothing changes.
    pub fn add_line(&mut self, input: &str) -> (done: Result<(), SolverError>)
        requires
            old(self).wf(),
        ensures
            final(self).wf(),
            final(self).target() == old(self).target(),
            final(self).words() == old(self).words(),
            final(self).allowed_guesses() == old(self).allowed_guesses(),
            final(self).outcome() == old(self).outcome(),
            done == if guess_form(input@).len() != 5 {
                Err::<(), SolverError>(SolverError::InvalidWordLength)
            } else if !lists(old(self).words(), guess_form(input@)) {
                Err::<(), SolverError>(SolverError::UnknownWord)
            } else {
                Ok::<(), SolverError>(())
            },
            done is Err ==> final(self).game() == old(self).game(),
            done is Ok ==> ({
                let word = guess_form(input@);
                let marks = verdicts(old(self).target(), word);
                &&& final(self).game()@ == old(self).game()@.record_round(word, marks)
                &&& final(self).game().lines@.len() == old(self).game().lines@.len() + 1
                &&& final(self).game().lines@.drop_last() == old(self).game().lines@
                &&& final(self).game().lines@.last().records(word, marks)
                &&& old(self).game().faithful() ==> final(self).game().faithful()
            }),
    {
        let word = guess_of(input);
        if word.as_str().unicode_len() != 5 {
            return Err(SolverError::InvalidWordLength);
        }
        if !is_listed(&self.wordlist, word.as_str()) {
            return Err(SolverError::UnknownWord);
        }
        let line = self.evaluate_word(word.as_str());
        let pattern = self.get_pattern(&line);
        assert(pattern_feedback(pattern@) =~= verdicts(self.target(), word@));
        let ghost before = self.game().history();
        self.game_data.add_line(word.as_str(), pattern.as_str());
        proof {
            let round = Round { word: word@, marks: verdicts(self.target(), word@) };
            assert(self.game().lines@.last().round().marks =~= round.marks);
            assert(self.game().history() =~= before.push(round));
            if old(self).solved() {
                lemma_round_keeps_positions_known(old(self).game()@, round.word, round.marks);
                lemma_honest_rounds_stay_true(self.target(), self.game().history());
                assert(self.game()@.solved_word() =~= self.target());
            }
        }
        Ok(())
    }

    /// Settles how the game stands after a guess: it is won if the last guess is the
    /// secret word, lost if it is not and no guess is left, and as before otherwise.
    pub fn update_result(&mut self) -> (result: GameResult)
        ensures
            old(self).wf() ==> final(self).wf(),
            final(self).target() == old(self).target(),
            final(self).words() == old(self).words(),
            final(self).allowed_guesses() == old(self).allowed_guesses(),
            final(self).game() == old(self).game(),
            final(self).outcome() == result,
            result == if old(self).game().lines@.len() > 0 && old(self).game().lines@.last().word@
                == old(self).target() {
                GameResult::Win
            } else if old(self).game().lines@.len() >= old(self).allowed_guesses() {
                GameResult::Lose
            } else {
                old(self).outcome()
            },
    {
        let guessed = self.game_data.lines.len();
        if guessed > 0 && same_text(
            self.game_data.lines[guessed - 1].word.as_str(),
            self.word.as_str(),
        ) {
            proof {
                if self.wf() {
                    let history = self.game().history();
                    assert(history.last().word == self.target());
                    lemma_guessing_the_target_solves(
                        Knowledge::empty().after_rounds(history.drop_last()),
                        self.target(),
                    );
                }
            }
            self.result = GameResult::Win;
        } else if guessed >= self.num_guesses {
            self.result = GameResult::Lose;
        }
        self.result
    }

    /// Forgets the secret word and everything guessed.
    pub fn reset(&mut self)
        ensures
            final(self).target() == Seq::<char>::empty(),
            final(self).game()@ == Knowledge::empty(),
            final(self).game().lines@.len() == 0,
            final(self).words() == old(self).words(),
            final(self).allowed_guesses() == old(self).allowed_guesses(),
            final(self).outcome() == old(self).outcome(),
    {
        self.word = String::new();
        self.game_data = GameData::new();
    }

    /// Judges `guessed_word` against the secret word, letter by letter. The game itself
    /// is left as it was.
    pub fn evaluate_word(&mut self, guessed_word: &str) -> (line: LineData)
        requires
            old(self).target().len() == 5,
            guessed_word@.len() == 5,
        ensures
            *final(self) == *old(self),
            line.records(guessed_word@, verdicts(old(self).target(), guessed_word@)),
    {
        let guess = chars_of(guessed_word);
        let target = chars_of(self.word.as_str());
        let ghost g = guess@;
        let ghost t = target@;
        let blank = CellData { letter: ' ', state: Feedback::Absent };
        let mut cells: [CellData; 5] = [blank; 5];

        // The occurrences of each letter in the target.
        let mut remaining = Tally::new();
        let mut k: usize = 0;
        while k < 5
            invariant
                k <= 5,
                target@ == t,
                t.len() == 5,
                forall|c: char| #[trigger] remaining.of(c) == count_in(t, c, k as int),
            decreases 5 - k,
        {
            let letter = letter_at(&target, k);
            let n = remaining.get(letter);
            proof {
                lemma_count_in_grows(t, letter, k as int, 5);
                lemma_count_bounded(t, letter, 5);
            }
            remaining.set(letter, n + 1);
            k += 1;
        }

        // First the letters that stand at their place.
        let mut i: usize = 0;
        while i < 5
            invariant
                i <= 5,
                guess@ == g,
                target@ == t,
                g.len() == 5,
                t.len() == 5,
                forall|c: char| #[trigger]
                    remaining.of(c) + exact_matches(t, g, c, i as int) == count_in(t, c, 5),
                forall|j: int|
                    0 <= j < i ==> (#[trigger] cells@[j]).letter == g[j] && cells@[j].state == if g[j]
                        == t[j] {
                        Feedback::Correct
                    } else {
                        Feedback::Absent
                    },
            decreases 5 - i,
        {
            let letter = letter_at(&guess, i);
            if letter == letter_at(&target, i) {
                cells[i] = CellData { letter, state: Feedback::Correct };
                let n = remaining.get(letter);
                proof {
                    lemma_count_splits(t, g, letter, i as int);
                    lemma_count_in_grows(t, letter, i + 1, 5);
                }
                remaining.set(letter, n - 1);
            } else {
                cells[i] = CellData { letter, state: Feedback::Absent };
            }
            i += 1;
        }

        // Then the others, left to right, as far as the target has occurrences to spare.
        assert forall|c: char| #[trigger] remaining.of(c) == spare_in_target(t, g, c) by {
            lemma_count_splits(t, g, c, 5);
        }
        let mut i: usize = 0;
        while i < 5
            invariant
                i <= 5,
                guess@ == g,
                target@ == t,
                g.len() == 5,
                t.len() == 5,
                forall|c: char| #[trigger]
                    remaining.of(c) == if loose_in_guess(t, g, c, i as int) < spare_in_target(
                        t,
                        g,
                        c,
                    ) {
                        spare_in_target(t, g, c) - loose_in_guess(t, g, c, i as int)
                    } else {
                        0
                    },
                forall|j: int|
                    0 <= j < i ==> #[trigger] cells@[j] == (CellData {
                        letter: g[j],
                        state: verdict(t, g, j),
                    }),
                forall|j: int|
                    i <= j < 5 ==> (#[trigger] cells@[j]).letter == g[j] && cells@[j].state == if g[j]
                        == t[j] {
                        Feedback::Correct
                    } else {
                        Feedback::Absent
                    },
            decreases 5 - i,
        {
            if cells[i].state != Feedback::Correct {
                let letter = letter_at(&guess, i);
                let n = remaining.get(letter);
                if n > 0 {
                    cells[i] = CellData { letter, state: Feedback::Misplaced };
                    remaining.set(letter, n - 1);
                } else {
                    cells[i] = CellData { letter, state: Feedback::Absent };
                }
            }
            i += 1;
        }
        LineData { word: guessed_word.to_owned(), cells }
    }
}

} // verus!
