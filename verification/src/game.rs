//! What the guesses made so far have revealed about the target word.

use crate::letters::{chars_of, letter_at, string_of, LetterSet};
use vstd::prelude::*;

verus! {

/// The verdict on one letter of a guess.
#[derive(Clone, Copy, Debug, PartialEq, Eq, Structural)]
pub enum Feedback {
    /// The letter stands at this position in the target.
    Correct,
    /// The letter is in the target, but not at this position.
    Misplaced,
    /// The target has no further occurrence of the letter.
    Absent,
}

impl Feedback {
    /// The verdict that a pattern character stands for: `c`, `m` or `w`.
    pub open spec fn of_code(c: char) -> Option<Feedback> {
        if c == 'c' {
            Some(Feedback::Correct)
        } else if c == 'm' {
            Some(Feedback::Misplaced)
        } else if c == 'w' {
            Some(Feedback::Absent)
        } else {
            None
        }
    }

    /// The pattern character of a verdict.
    pub open spec fn code(self) -> char {
        match self {
            Feedback::Correct => 'c',
            Feedback::Misplaced => 'm',
            Feedback::Absent => 'w',
        }
    }

    /// Reads a pattern character.
    pub fn from_char(c: char) -> (f: Option<Feedback>)
        ensures
            f == Feedback::of_code(c),
    {
        if c == 'c' {
            Some(Feedback::Correct)
        } else if c == 'm' {
            Some(Feedback::Misplaced)
        } else if c == 'w' {
            Some(Feedback::Absent)
        } else {
            None
        }
    }

    /// Writes a verdict as its pattern character.
    pub fn to_char(self) -> (c: char)
        ensures
            c == self.code(),
            Feedback::of_code(c) == Some(self),
    {
        match self {
            Feedback::Correct => 'c',
            Feedback::Misplaced => 'm',
            Feedback::Absent => 'w',
        }
    }
}

/// Whether `pattern` is five pattern characters.
pub open spec fn is_pattern(pattern: Seq<char>) -> bool {
    &&& pattern.len() == 5
    &&& forall|i: int| 0 <= i < 5 ==> Feedback::of_code(#[trigger] pattern[i]) is Some
}

/// The verdicts that the characters of `pattern` stand for.
pub open spec fn pattern_feedback(pattern: Seq<char>) -> Seq<Feedback> {
    Seq::new(pattern.len(), |i: int| Feedback::of_code(pattern[i]).unwrap())
}

/// Reads a pattern such as `"wmcww"`; `None` unless it is five characters out of `c`, `m`, `w`.
pub fn parse_pattern(pattern: &str) -> (marks: Option<[Feedback; 5]>)
    ensures
        marks is Some <==> is_pattern(pattern@),
        marks is Some ==> marks.unwrap()@ == pattern_feedback(pattern@),
{
    let symbols = chars_of(pattern);
    if symbols.len() != 5 {
        return None;
    }
    let mut marks: [Feedback; 5] = [Feedback::Absent; 5];
    let mut i: usize = 0;
    while i < 5
        invariant
            i <= 5,
            symbols@ == pattern@,
            symbols@.len() == 5,
            forall|j: int| 0 <= j < i ==> Feedback::of_code(#[trigger] symbols@[j]) == Some(marks@[j]),
        decreases 5 - i,
    {
        match Feedback::from_char(symbols[i]) {
            Some(mark) => {
                marks[i] = mark;
            },
            None => {
                return None;
            },
        }
        i += 1;
    }
    Some(marks)
}

/// One letter of a guess with its verdict.
#[derive(Clone, Copy, Debug, PartialEq, Eq, Structural)]
pub struct CellData {
    /// The letter that was guessed.
    pub letter: char,
    /// The verdict on it.
    pub state: Feedback,
}

/// One guess with the verdict on each of its letters.
#[derive(Clone, Debug)]
pub struct LineData {
    /// The word that was guessed.
    pub word: String,
    /// Its letters in order, each with its verdict.
    pub cells: [CellData; 5],
}

impl LineData {
    /// The guess and its verdicts.
    pub open spec fn round(&self) -> Round {
        Round { word: self.word@, marks: Seq::new(5, |i: int| self.cells@[i].state) }
    }

    /// The line for `word`, whose letters are `letters`, with the verdicts `marks`.
    fn new(word: &str, letters: &Vec<char>, marks: &[Feedback; 5]) -> (line: LineData)
        requires
            letters@ == word@,
            letters@.len() == 5,
        ensures
            line.records(word@, marks@),
    {
        let mut cells: [CellData; 5] = [CellData { letter: ' ', state: Feedback::Absent }; 5];
        let mut i: usize = 0;
        while i < 5
            invariant
                i <= 5,
                letters@ == word@,
                letters@.len() == 5,
                forall|j: int|
                    0 <= j < i ==> #[trigger] cells@[j] == (CellData {
                        letter: word@[j],
                        state: marks@[j],
                    }),
            decreases 5 - i,
        {
            cells[i] = CellData { letter: letter_at(letters, i), state: marks[i] };
            i += 1;
        }
        LineData { word: word.to_owned(), cells }
    }

    /// Whether the line holds `word` with the verdicts `marks`.
    pub open spec fn records(&self, word: Seq<char>, marks: Seq<Feedback>) -> bool {
        &&& self.word@ == word
        &&& forall|i: int|
            0 <= i < 5 ==> #[trigger] self.cells@[i] == (CellData { letter: word[i], state: marks[i] })
    }
}

/// The knowledge about the target as plain mathematics: the view of [`GameData`].
pub struct Knowledge {
    /// For each position, the letter known to stand there.
    pub correct: Seq<Option<char>>,
    /// For each position, the letters known to be in the target but not there.
    pub misplaced: Seq<Set<char>>,
    /// The letters known not to be in the target.
    pub absent: Set<char>,
    /// The letters known to be in the target.
    pub required: Set<char>,
}

/// The letters of `word` whose verdict says that the target has them.
pub open spec fn marked_present(word: Seq<char>, marks: Seq<Feedback>) -> Set<char> {
    Set::new(|c: char| exists|i: int| 0 <= i < 5 && word[i] == c && marks[i] != Feedback::Absent)
}

/// The letters of `word` with the verdict `Absent`.
pub open spec fn marked_absent(word: Seq<char>, marks: Seq<Feedback>) -> Set<char> {
    Set::new(|c: char| exists|i: int| 0 <= i < 5 && word[i] == c && marks[i] == Feedback::Absent)
}

impl Knowledge {
    /// Nothing is known.
    pub open spec fn empty() -> Knowledge {
        Knowledge {
            correct: Seq::new(5, |i: int| None::<char>),
            misplaced: Seq::new(5, |i: int| Set::<char>::empty()),
            absent: Set::empty(),
            required: Set::empty(),
        }
    }

    /// Every position is known.
    pub open spec fn is_solved(self) -> bool {
        forall|i: int| 0 <= i < 5 ==> (#[trigger] self.correct[i]) is Some
    }

    /// The known letters in order; the target, once every position is known.
    pub open spec fn solved_word(self) -> Seq<char> {
        Seq::new(5, |i: int| self.correct[i].unwrap())
    }

    /// No letter is both known to be in the target and known not to be.
    pub open spec fn consistent(self) -> bool {
        self.absent.disjoint(self.required)
    }

    /// The knowledge after one more guess `word` with the verdicts `marks`.
    ///
    /// A correct letter is pinned to its position, a misplaced one is barred from its
    /// position, and both become required. A letter marked absent becomes absent
    /// unless it is required, by this guess or an earlier one.
    pub open spec fn record_round(self, word: Seq<char>, marks: Seq<Feedback>) -> Knowledge {
        let required = self.required.union(marked_present(word, marks));
        Knowledge {
            correct: Seq::new(
                5,
                |i: int|
                    if marks[i] == Feedback::Correct {
                        Some(word[i])
                    } else {
                        self.correct[i]
                    },
            ),
            misplaced: Seq::new(
                5,
                |i: int|
                    if marks[i] == Feedback::Misplaced {
                        self.misplaced[i].insert(word[i])
                    } else {
                        self.misplaced[i]
                    },
            ),
            absent: self.absent.union(marked_absent(word, marks).difference(required)),
            required,
        }
    }
}

/// One guess with its verdicts, as plain mathematics.
pub struct Round {
    /// The letters of the guess.
    pub word: Seq<char>,
    /// The verdict on each of them.
    pub marks: Seq<Feedback>,
}

/// Some round reports position `p` as correct.
pub open spec fn reported_correct(rounds: Seq<Round>, p: int) -> bool {
    exists|r: int| 0 <= r < rounds.len() && (#[trigger] rounds[r]).marks[p] == Feedback::Correct
}

/// The index of the last round that reports position `p` as correct, or -1 if none does.
pub open spec fn last_correct(rounds: Seq<Round>, p: int) -> int
    decreases rounds.len(),
{
    if rounds.len() == 0 {
        -1
    } else if rounds.last().marks[p] == Feedback::Correct {
        rounds.len() - 1
    } else {
        last_correct(rounds.drop_last(), p)
    }
}

impl Knowledge {
    /// The knowledge after the rounds have been recorded one after the other.
    pub open spec fn after_rounds(self, rounds: Seq<Round>) -> Knowledge
        decreases rounds.len(),
    {
        if rounds.len() == 0 {
            self
        } else {
            self.after_rounds(rounds.drop_last()).record_round(
                rounds.last().word,
                rounds.last().marks,
            )
        }
    }

    /// The guess `word` with the verdicts `marks` reports no known position as correct
    /// with another letter than the one known there.
    pub open spec fn confirmed_by(self, word: Seq<char>, marks: Seq<Feedback>) -> bool {
        forall|i: int|
            0 <= i < 5 && #[trigger] marks[i] == Feedback::Correct && self.correct[i] is Some
                ==> self.correct[i] == Some(word[i])
    }

    /// The letter `c` is pinned to position `i` or barred from it.
    pub open spec fn accounts_for(self, c: char, i: int) -> bool {
        self.correct[i] == Some(c) || self.misplaced[i].contains(c)
    }

    /// Every required letter is pinned to a position or barred from one.
    pub open spec fn explained(self) -> bool {
        forall|c: char| #[trigger]
            self.required.contains(c) ==> exists|i: int|
                0 <= i < 5 && #[trigger] self.accounts_for(c, i)
    }
}

/// What a position holds after a sequence of rounds: the letter of the last round that
/// reported it correct, or what it held before if no round did.
pub proof fn lemma_position_after_rounds(k: Knowledge, rounds: Seq<Round>, p: int)
    requires
        0 <= p < 5,
    ensures
        reported_correct(rounds, p) ==> 0 <= last_correct(rounds, p) < rounds.len()
            && rounds[last_correct(rounds, p)].marks[p] == Feedback::Correct
            && k.after_rounds(rounds).correct[p] == Some(
            rounds[last_correct(rounds, p)].word[p],
        ),
        !reported_correct(rounds, p) ==> k.after_rounds(rounds).correct[p] == k.correct[p],
    decreases rounds.len(),
{
    if rounds.len() > 0 {
        let earlier = rounds.drop_last();
        lemma_position_after_rounds(k, earlier, p);
        if rounds.last().marks[p] == Feedback::Correct {
            assert(rounds[rounds.len() - 1].marks[p] == Feedback::Correct);
        } else {
            if reported_correct(rounds, p) {
                let r = choose|r: int|
                    0 <= r < rounds.len() && (#[trigger] rounds[r]).marks[p] == Feedback::Correct;
                assert(earlier[r].marks[p] == Feedback::Correct);
            }
            if reported_correct(earlier, p) {
                let r = choose|r: int|
                    0 <= r < earlier.len() && (#[trigger] earlier[r]).marks[p]
                        == Feedback::Correct;
                assert(rounds[r].marks[p] == Feedback::Correct);
            }
        }
    }
}

/// Once the rounds have reported every position as correct, the game is solved, and the
/// solved word has at each position the letter of the last round that reported that
/// position correct.
pub proof fn lemma_solved_once_all_correct(k: Knowledge, rounds: Seq<Round>)
    requires
        forall|p: int| 0 <= p < 5 ==> reported_correct(rounds, p),
    ensures
        k.after_rounds(rounds).is_solved(),
        k.after_rounds(rounds).solved_word().len() == 5,
        forall|p: int|
            #![trigger last_correct(rounds, p)]
            0 <= p < 5 ==> 0 <= last_correct(rounds, p) < rounds.len() && k.after_rounds(
                rounds,
            ).solved_word()[p] == rounds[last_correct(rounds, p)].word[p],
{
    let after = k.after_rounds(rounds);
    assert forall|p: int| 0 <= p < 5 implies (#[trigger] after.correct[p]) is Some by {
        lemma_position_after_rounds(k, rounds, p);
    }
    assert forall|p: int| #![trigger last_correct(rounds, p)] 0 <= p < 5 implies 0 <= last_correct(
        rounds,
        p,
    ) < rounds.len() && after.solved_word()[p] == rounds[last_correct(rounds, p)].word[p] by {
        lemma_position_after_rounds(k, rounds, p);
    }
}

/// A known position stays known: no round makes a position unknown again.
pub proof fn lemma_round_keeps_positions_known(k: Knowledge, word: Seq<char>, marks: Seq<Feedback>)
    ensures
        forall|i: int|
            0 <= i < 5 && (#[trigger] k.correct[i]) is Some ==> k.record_round(
                word,
                marks,
            ).correct[i] is Some,
        k.is_solved() ==> k.record_round(word, marks).is_solved(),
{
    let after = k.record_round(word, marks);
    assert forall|i: int| 0 <= i < 5 && k.is_solved() implies (#[trigger] after.correct[i]) is Some by {
        assert(k.correct[i] is Some);
    }
}

/// Knowledge only grows: what was required stays required, what was absent stays absent,
/// and what was barred from a position stays barred.
pub proof fn lemma_round_only_adds(k: Knowledge, word: Seq<char>, marks: Seq<Feedback>)
    ensures
        k.required.subset_of(k.record_round(word, marks).required),
        k.absent.subset_of(k.record_round(word, marks).absent),
        forall|i: int|
            0 <= i < 5 ==> (#[trigger] k.misplaced[i]).subset_of(
                k.record_round(word, marks).misplaced[i],
            ),
{
}

/// A round makes no required letter absent: a letter that this guess or an earlier one
/// has shown to be in the target is absent afterwards only if it was before, whatever
/// the verdict on its other copies in the guess.
pub proof fn lemma_required_letter_not_made_absent(
    k: Knowledge,
    word: Seq<char>,
    marks: Seq<Feedback>,
    c: char,
)
    requires
        k.required.contains(c) || marked_present(word, marks).contains(c),
    ensures
        k.record_round(word, marks).required.contains(c),
        k.record_round(word, marks).absent.contains(c) <==> k.absent.contains(c),
{
}

/// After a round, no letter is both absent and required exactly if that held before and
/// the round marks no letter as present that was known to be absent.
pub proof fn lemma_round_consistency(k: Knowledge, word: Seq<char>, marks: Seq<Feedback>)
    ensures
        k.record_round(word, marks).consistent() <==> k.consistent() && k.absent.disjoint(
            marked_present(word, marks),
        ),
{
    let after = k.record_round(word, marks);
    if k.consistent() && k.absent.disjoint(marked_present(word, marks)) {
        assert(after.consistent());
    }
    if after.consistent() {
        assert forall|c: char| !(k.absent.contains(c) && k.required.contains(c)) by {
            if k.absent.contains(c) && k.required.contains(c) {
                assert(after.absent.contains(c) && after.required.contains(c));
            }
        }
        assert forall|c: char| !(k.absent.contains(c) && marked_present(word, marks).contains(c)) by {
            if k.absent.contains(c) && marked_present(word, marks).contains(c) {
                assert(after.absent.contains(c) && after.required.contains(c));
            }
        }
    }
}

/// A round that confirms the known positions leaves every required letter explained.
pub proof fn lemma_round_keeps_explained(k: Knowledge, word: Seq<char>, marks: Seq<Feedback>)
    requires
        k.explained(),
        k.confirmed_by(word, marks),
    ensures
        k.record_round(word, marks).explained(),
{
    let after = k.record_round(word, marks);
    assert forall|c: char| #[trigger] after.required.contains(c) implies exists|i: int|
        0 <= i < 5 && #[trigger] after.accounts_for(c, i) by {
        if k.required.contains(c) {
            let i = choose|i: int| 0 <= i < 5 && #[trigger] k.accounts_for(c, i);
            assert(after.accounts_for(c, i));
        } else {
            let i = choose|i: int| 0 <= i < 5 && word[i] == c && marks[i] != Feedback::Absent;
            assert(after.accounts_for(c, i));
        }
    }
}

/// Everything learned in one game: the guesses made and what they revealed.
#[derive(Clone, Debug)]
pub struct GameData {
    /// The guesses, oldest first.
    pub lines: Vec<LineData>,
    /// Letters that are not in the target.
    pub contains_not: LetterSet,
    /// The letter known at each position.
    pub correct_positions: [Option<char>; 5],
    /// For each position, letters of the target that do not stand there.
    pub misplaced_letters: [LetterSet; 5],
    /// Letters that are in the target.
    pub must_contain: LetterSet,
}

impl View for GameData {
    type V = Knowledge;

    open spec fn view(&self) -> Knowledge {
        Knowledge {
            correct: self.correct_positions@,
            misplaced: Seq::new(5, |i: int| self.misplaced_letters@[i]@),
            absent: self.contains_not@,
            required: self.must_contain@,
        }
    }
}

impl GameData {
    /// The rounds that the recorded lines stand for, oldest first.
    pub open spec fn history(&self) -> Seq<Round> {
        Seq::new(self.lines@.len(), |r: int| self.lines@[r].round())
    }

    /// The knowledge is exactly what the recorded lines reveal.
    pub open spec fn faithful(&self) -> bool {
        self@ == Knowledge::empty().after_rounds(self.history())
    }

    /// A game in which nothing has been guessed yet.
    pub fn new() -> (game: GameData)
        ensures
            game@ == Knowledge::empty(),
            game.lines@.len() == 0,
            game.faithful(),
    {
        let game = GameData {
            lines: Vec::new(),
            contains_not: LetterSet::new(),
            correct_positions: [None, None, None, None, None],
            misplaced_letters: [
                LetterSet::new(),
                LetterSet::new(),
                LetterSet::new(),
                LetterSet::new(),
                LetterSet::new(),
            ],
            must_contain: LetterSet::new(),
        };
        assert(game@.correct =~= Knowledge::empty().correct);
        assert(game@.misplaced =~= Knowledge::empty().misplaced);
        game
    }

    /// Whether every position of the target is known.
    pub fn is_solved(&self) -> (solved: bool)
        ensures
            solved == self@.is_solved(),
    {
        let mut i: usize = 0;
        while i < 5
            invariant
                i <= 5,
                forall|j: int| 0 <= j < i ==> (#[trigger] self.correct_positions@[j]) is Some,
            decreases 5 - i,
        {
            if self.correct_positions[i].is_none() {
                return false;
            }
            i += 1;
        }
        true
    }

    /// The target, once every position is known; `None` before that.
    pub fn solved_word(&self) -> (word: Option<String>)
        ensures
            word is Some <==> self@.is_solved(),
            word is Some ==> word.unwrap()@ == self@.solved_word(),
    {
        let mut letters: Vec<char> = Vec::new();
        let mut i: usize = 0;
        while i < 5
            invariant
                i <= 5,
                letters@.len() == i,
                forall|j: int|
                    0 <= j < i ==> (#[trigger] self.correct_positions@[j]) == Some(letters@[j]),
            decreases 5 - i,
        {
            match self.correct_positions[i] {
                Some(c) => {
                    letters.push(c);
                },
                None => {
                    return None;
                },
            }
            i += 1;
        }
        Some(string_of(&letters))
    }

    /// Pins each letter marked correct to its position and makes it required.
    fn note_correct(&mut self, letters: &Vec<char>, marks: &[Feedback; 5])
        requires
            letters@.len() == 5,
        ensures
            final(self).lines == old(self).lines,
            final(self).contains_not == old(self).contains_not,
            final(self).misplaced_letters == old(self).misplaced_letters,
            final(self)@.correct == old(self)@.record_round(letters@, marks@).correct,
            final(self)@.required == old(self)@.required.union(
                Set::new(
                    |c: char|
                        exists|j: int|
                            0 <= j < 5 && letters@[j] == c && marks@[j] == Feedback::Correct,
                ),
            ),
    {
        let ghost before = self@;
        let mut i: usize = 0;
        while i < 5
            invariant
                i <= 5,
                letters@.len() == 5,
                self.lines == old(self).lines,
                self.contains_not == old(self).contains_not,
                self.misplaced_letters == old(self).misplaced_letters,
                forall|j: int|
                    0 <= j < 5 ==> #[trigger] self.correct_positions@[j] == if j < i && marks@[j]
                        == Feedback::Correct {
                        Some(letters@[j])
                    } else {
                        before.correct[j]
                    },
                self.must_contain@ == before.required.union(
                    Set::new(
                        |c: char|
                            exists|j: int|
                                0 <= j < i && letters@[j] == c && marks@[j] == Feedback::Correct,
                    ),
                ),
            decreases 5 - i,
        {
            if marks[i] == Feedback::Correct {
                self.correct_positions[i] = Some(letters[i]);
                self.must_contain.insert(letters[i]);
            }
            i += 1;
        }
    }

    /// Bars each letter marked misplaced from its position and makes it required.
    fn note_misplaced(&mut self, letters: &Vec<char>, marks: &[Feedback; 5])
        requires
            letters@.len() == 5,
        ensures
            final(self).lines == old(self).lines,
            final(self).contains_not == old(self).contains_not,
            final(self).correct_positions == old(self).correct_positions,
            final(self)@.misplaced == old(self)@.record_round(letters@, marks@).misplaced,
            final(self)@.required == old(self)@.required.union(
                Set::new(
                    |c: char|
                        exists|j: int|
                            0 <= j < 5 && letters@[j] == c && marks@[j] == Feedback::Misplaced,
                ),
            ),
    {
        let ghost before = self@;
        let mut i: usize = 0;
        while i < 5
            invariant
                i <= 5,
                letters@.len() == 5,
                self.lines == old(self).lines,
                self.contains_not == old(self).contains_not,
                self.correct_positions == old(self).correct_positions,
                forall|j: int|
                    0 <= j < 5 ==> (#[trigger] self.misplaced_letters@[j])@ == if j < i
                        && marks@[j] == Feedback::Misplaced {
                        before.misplaced[j].insert(letters@[j])
                    } else {
                        before.misplaced[j]
                    },
                self.must_contain@ == before.required.union(
                    Set::new(
                        |c: char|
                            exists|j: int|
                                0 <= j < i && letters@[j] == c && marks@[j]
                                    == Feedback::Misplaced,
                    ),
                ),
            decreases 5 - i,
        {
            if marks[i] == Feedback::Misplaced {
                self.misplaced_letters[i].insert(letters[i]);
                self.must_contain.insert(letters[i]);
            }
            i += 1;
        }
    }

    /// Makes each letter marked absent known as absent, unless it is required.
    fn note_absent(&mut self, letters: &Vec<char>, marks: &[Feedback; 5])
        requires
            letters@.len() == 5,
        ensures
            final(self).lines == old(self).lines,
            final(self).correct_positions == old(self).correct_positions,
            final(self).misplaced_letters == old(self).misplaced_letters,
            final(self).must_contain == old(self).must_contain,
            final(self)@.absent == old(self)@.absent.union(
                marked_absent(letters@, marks@).difference(old(self)@.required),
            ),
    {
        let ghost before = self@;
        let mut i: usize = 0;
        while i < 5
            invariant
                i <= 5,
                letters@.len() == 5,
                self.lines == old(self).lines,
                self.correct_positions == old(self).correct_positions,
                self.misplaced_letters == old(self).misplaced_letters,
                self.must_contain == old(self).must_contain,
                before == old(self)@,
                self.contains_not@ == before.absent.union(
                    Set::new(
                        |c: char|
                            !before.required.contains(c) && exists|j: int|
                                0 <= j < i && letters@[j] == c && marks@[j] == Feedback::Absent,
                    ),
                ),
            decreases 5 - i,
        {
            if marks[i] == Feedback::Absent && !self.must_contain.contains(letters[i]) {
                self.contains_not.insert(letters[i]);
            }
            i += 1;
        }
        assert(self@.absent =~= before.absent.union(
            marked_absent(letters@, marks@).difference(before.required),
        ));
    }

    /// Records the guess `word` with the verdicts `marks`: first the correct letters,
    /// then the misplaced ones, then the absent ones, so that a letter that the guess
    /// shows to be in the target is never made absent by another copy of it.
    pub fn record_round(&mut self, word: &str, marks: &[Feedback; 5])
        requires
            word@.len() == 5,
        ensures
            final(self)@ == old(self)@.record_round(word@, marks@),
            final(self).lines@.len() == old(self).lines@.len() + 1,
            final(self).lines@.drop_last() == old(self).lines@,
            final(self).lines@.last().records(word@, marks@),
            old(self).faithful() ==> final(self).faithful(),
    {
        let letters = chars_of(word);
        let ghost after = old(self)@.record_round(letters@, marks@);
        self.note_correct(&letters, marks);
        self.note_misplaced(&letters, marks);
        assert(self@.required =~= after.required);
        self.note_absent(&letters, marks);
        let line = LineData::new(word, &letters, marks);
        self.lines.push(line);
        assert(line.round().marks =~= marks@);
        assert(self.history().drop_last() =~= old(self).history());
    }

    /// Records the guess `word` with the verdicts that `pattern` spells.
    pub fn add_line(&mut self, word: &str, pattern: &str)
        requires
            word@.len() == 5,
            is_pattern(pattern@),
        ensures
            final(self)@ == old(self)@.record_round(word@, pattern_feedback(pattern@)),
            final(self).lines@.len() == old(self).lines@.len() + 1,
            final(self).lines@.drop_last() == old(self).lines@,
            final(self).lines@.last().records(word@, pattern_feedback(pattern@)),
            old(self).faithful() ==> final(self).faithful(),
    {
        match parse_pattern(pattern) {
            Some(marks) => self.record_round(word, &marks),
            None => {},
        }
    }
}

} // verus!
