//! Which candidate words agree with everything known about the target.

use crate::game::{Feedback, GameData, Knowledge};
use crate::letters::{chars_of, occurs};
use vstd::prelude::*;

verus! {

/// No letter of `w` is known to be absent from the target.
pub open spec fn avoids_absent(k: Knowledge, w: Seq<char>) -> bool {
    forall|i: int| 0 <= i < 5 ==> !k.absent.contains(#[trigger] w[i])
}

/// `w` has the known letter at every known position.
pub open spec fn matches_correct(k: Knowledge, w: Seq<char>) -> bool {
    forall|i: int| 0 <= i < 5 && (#[trigger] k.correct[i]) is Some ==> k.correct[i] == Some(w[i])
}

/// `w` has the letter `m` at a position other than `i` that is not pinned to another letter.
pub open spec fn occurs_elsewhere(k: Knowledge, w: Seq<char>, m: char, i: int) -> bool {
    exists|j: int|
        0 <= j < 5 && j != i && #[trigger] w[j] == m && !(k.correct[j] is Some && k.correct[j]
            != Some(m))
}

/// `w` keeps every misplaced letter away from the positions it is barred from, and has it
/// somewhere else.
pub open spec fn respects_misplaced(k: Knowledge, w: Seq<char>) -> bool {
    forall|i: int, m: char|
        0 <= i < 5 && #[trigger] k.misplaced[i].contains(m) ==> w[i] != m && occurs_elsewhere(
            k,
            w,
            m,
            i,
        )
}

/// `w` has every letter that is known to be in the target.
pub open spec fn contains_required(k: Knowledge, w: Seq<char>) -> bool {
    forall|c: char| #[trigger] k.required.contains(c) ==> occurs(w, c)
}

/// The five-letter word `w` agrees with the knowledge `k`.
pub open spec fn survives(k: Knowledge, w: Seq<char>) -> bool {
    &&& avoids_absent(k, w)
    &&& matches_correct(k, w)
    &&& respects_misplaced(k, w)
}

/// The test that [`survivors`] applies to each candidate.
pub open spec fn keeps(k: Knowledge) -> spec_fn(String) -> bool {
    |w: String| survives(k, w@)
}

/// The candidates that agree with `k`, in the order of the list.
pub open spec fn survivors(k: Knowledge, words: Seq<String>) -> Seq<String> {
    words.filter(keeps(k))
}

/// Every word has five letters.
pub open spec fn five_letter_words(words: Seq<String>) -> bool {
    forall|i: int| 0 <= i < words.len() ==> (#[trigger] words[i])@.len() == 5
}

/// Whether every word of `words` has five letters.
pub fn all_five_letters(words: &[String]) -> (ok: bool)
    ensures
        ok == five_letter_words(words@),
{
    let mut i: usize = 0;
    while i < words.len()
        invariant
            i <= words.len(),
            forall|j: int| 0 <= j < i ==> (#[trigger] words@[j])@.len() == 5,
        decreases words.len() - i,
    {
        if words[i].as_str().unicode_len() != 5 {
            return false;
        }
        i += 1;
    }
    true
}

/// Filtering one more candidate: it is appended to the survivors or left out.
pub proof fn lemma_survivors_push(k: Knowledge, words: Seq<String>, w: String)
    ensures
        survivors(k, words.push(w)) == if survives(k, w@) {
            survivors(k, words).push(w)
        } else {
            survivors(k, words)
        },
{
    reveal(Seq::filter);
    assert(words.push(w).drop_last() =~= words);
}

/// A stricter test keeps no more elements than a weaker one.
proof fn lemma_filter_stricter<A>(s: Seq<A>, p: spec_fn(A) -> bool, q: spec_fn(A) -> bool)
    requires
        forall|x: A| #[trigger] p(x) ==> q(x),
    ensures
        s.filter(p).len() <= s.filter(q).len(),
    decreases s.len(),
{
    reveal(Seq::filter);
    if s.len() > 0 {
        lemma_filter_stricter(s.drop_last(), p, q);
    }
}

/// Filtering with a stricter test after a weaker one is filtering with the stricter one.
proof fn lemma_filter_after_weaker<A>(s: Seq<A>, p: spec_fn(A) -> bool, q: spec_fn(A) -> bool)
    requires
        forall|x: A| #[trigger] p(x) ==> q(x),
    ensures
        s.filter(q).filter(p) == s.filter(p),
    decreases s.len(),
{
    reveal(Seq::filter);
    if s.len() > 0 {
        lemma_filter_after_weaker(s.drop_last(), p, q);
        if q(s.last()) {
            let kept = s.drop_last().filter(q);
            assert(kept.push(s.last()).drop_last() =~= kept);
        }
    }
}

/// Filtering is idempotent: the survivors of the survivors are the survivors.
pub proof fn lemma_filter_idempotent(k: Knowledge, words: Seq<String>)
    ensures
        survivors(k, survivors(k, words)) == survivors(k, words),
{
    lemma_filter_after_weaker(words, keeps(k), keeps(k));
}

/// Filtering only removes: there are no more survivors than candidates, each survivor is
/// one of the candidates, and each agrees with the knowledge.
pub proof fn lemma_filter_only_removes(k: Knowledge, words: Seq<String>)
    ensures
        survivors(k, words).len() <= words.len(),
        forall|i: int|
            0 <= i < survivors(k, words).len() ==> words.contains(#[trigger] survivors(k, words)[i])
                && survives(k, survivors(k, words)[i]@),
{
    broadcast use Seq::lemma_filter_len, Seq::lemma_filter_pred, Seq::lemma_filter_contains_rev;

    assert forall|i: int| 0 <= i < survivors(k, words).len() implies words.contains(
        #[trigger] survivors(k, words)[i],
    ) && survives(k, survivors(k, words)[i]@) by {
        let w = survivors(k, words)[i];
        assert(words.filter(keeps(k)).contains(w));
        assert(keeps(k)(w));
    }
}

/// A word that agrees with the knowledge after a round agreed with it before, provided
/// the round confirms the positions that were known.
pub proof fn lemma_round_keeps_no_new_word(
    k: Knowledge,
    word: Seq<char>,
    marks: Seq<Feedback>,
    w: Seq<char>,
)
    requires
        k.confirmed_by(word, marks),
        survives(k.record_round(word, marks), w),
    ensures
        survives(k, w),
{
    let after = k.record_round(word, marks);
    assert forall|i: int| 0 <= i < 5 implies !k.absent.contains(#[trigger] w[i]) by {
        assert(!after.absent.contains(w[i]));
    }
    assert forall|i: int| 0 <= i < 5 && (#[trigger] k.correct[i]) is Some implies k.correct[i]
        == Some(w[i]) by {
        assert(after.correct[i] is Some);
        assert(marks[i] == Feedback::Correct ==> k.correct[i] == Some(word[i]));
    }
    assert forall|i: int, m: char| 0 <= i < 5 && #[trigger] k.misplaced[i].contains(m) implies w[i]
        != m && occurs_elsewhere(k, w, m, i) by {
        assert(after.misplaced[i].contains(m));
        assert(occurs_elsewhere(after, w, m, i));
        let j = choose|j: int|
            0 <= j < 5 && j != i && #[trigger] w[j] == m && !(after.correct[j] is Some
                && after.correct[j] != Some(m));
        assert(marks[j] == Feedback::Correct && k.correct[j] is Some ==> k.correct[j] == Some(
            word[j],
        ));
        assert(!(k.correct[j] is Some && k.correct[j] != Some(m)));
    }
}

/// No word at all agrees with the knowledge `k`.
pub open spec fn admits_no_word(k: Knowledge) -> bool {
    forall|w: Seq<char>| !survives(k, w)
}

/// Recording a round never lets more candidates through. Left out is only the round that
/// reports a known position as correct with another letter and still leaves a word
/// possible: such a word was not possible before.
pub proof fn lemma_round_never_widens(
    k: Knowledge,
    word: Seq<char>,
    marks: Seq<Feedback>,
    words: Seq<String>,
)
    requires
        k.confirmed_by(word, marks) || admits_no_word(k.record_round(word, marks)),
    ensures
        survivors(k.record_round(word, marks), words).len() <= survivors(k, words).len(),
{
    let after = k.record_round(word, marks);
    assert forall|x: String| #[trigger] keeps(after)(x) implies keeps(k)(x) by {
        if k.confirmed_by(word, marks) {
            lemma_round_keeps_no_new_word(k, word, marks, x@);
        } else {
            assert(!survives(after, x@));
        }
    }
    lemma_filter_stricter(words, keeps(after), keeps(k));
}

/// Narrowing round by round loses nothing: filtering what an earlier filtering has left
/// gives what filtering the whole list gives. The round left out is the same as above.
pub proof fn lemma_narrowing_in_steps(
    k: Knowledge,
    word: Seq<char>,
    marks: Seq<Feedback>,
    words: Seq<String>,
)
    requires
        k.confirmed_by(word, marks) || admits_no_word(k.record_round(word, marks)),
    ensures
        survivors(k.record_round(word, marks), survivors(k, words)) == survivors(
            k.record_round(word, marks),
            words,
        ),
{
    let after = k.record_round(word, marks);
    assert forall|x: String| #[trigger] keeps(after)(x) implies keeps(k)(x) by {
        if k.confirmed_by(word, marks) {
            lemma_round_keeps_no_new_word(k, word, marks, x@);
        } else {
            assert(!survives(after, x@));
        }
    }
    lemma_filter_after_weaker(words, keeps(after), keeps(k));
}

/// The round left out above does let more candidates through: a word that agrees with
/// the knowledge after it did not agree before.
pub proof fn lemma_round_over_known_position_widens(
    k: Knowledge,
    word: Seq<char>,
    marks: Seq<Feedback>,
    w: String,
)
    requires
        !k.confirmed_by(word, marks),
        survives(k.record_round(word, marks), w@),
    ensures
        !survives(k, w@),
        survivors(k.record_round(word, marks), seq![w]).len() > survivors(k, seq![w]).len(),
{
    let after = k.record_round(word, marks);
    let i = choose|i: int|
        0 <= i < 5 && #[trigger] marks[i] == Feedback::Correct && k.correct[i] is Some
            && k.correct[i] != Some(word[i]);
    assert(after.correct[i] == Some(word[i]));
    assert(w@[i] == word[i]);
    assert(!matches_correct(k, w@));
    reveal_with_fuel(Seq::filter, 2);
    assert(seq![w].drop_last() =~= Seq::<String>::empty());
    assert(survivors(after, seq![w]) =~= seq![w]);
    assert(survivors(k, seq![w]) =~= Seq::<String>::empty());
}

/// Where every required letter is explained, a word that agrees with the knowledge has
/// every required letter.
pub proof fn lemma_survivor_has_required(k: Knowledge, w: Seq<char>)
    requires
        k.explained(),
        w.len() == 5,
        survives(k, w),
    ensures
        contains_required(k, w),
{
    assert forall|c: char| #[trigger] k.required.contains(c) implies occurs(w, c) by {
        let i = choose|i: int| 0 <= i < 5 && #[trigger] k.accounts_for(c, i);
        if k.correct[i] == Some(c) {
            assert(w[i] == c);
        } else {
            assert(occurs_elsewhere(k, w, c, i));
            let j = choose|j: int|
                0 <= j < 5 && j != i && #[trigger] w[j] == c && !(k.correct[j] is Some
                    && k.correct[j] != Some(c));
            assert(w[j] == c);
        }
    }
}

/// A view of a candidate list through the knowledge of a game.
pub struct Filter<'a> {
    game: &'a GameData,
    words: &'a [String],
}

impl<'a> Filter<'a> {
    /// The game whose knowledge decides.
    pub closed spec fn game(&self) -> GameData {
        *self.game
    }

    /// The candidates.
    pub closed spec fn words(&self) -> Seq<String> {
        self.words@
    }

    /// A filter for the candidates `words` by what `game` knows.
    pub fn new(game: &'a GameData, words: &'a [String]) -> (filter: Self)
        ensures
            filter.game() == *game,
            filter.words() == words@,
    {
        Self { game, words }
    }

    /// The candidates that agree with the game's knowledge, in the order of the list.
    pub fn filter_words(&self) -> (kept: Vec<String>)
        requires
            five_letter_words(self.words()),
        ensures
            kept@ == survivors(self.game()@, self.words()),
            kept@.len() <= self.words().len(),
    {
        let ghost k = self.game()@;
        let mut kept: Vec<String> = Vec::new();
        let mut i: usize = 0;
        while i < self.words.len()
            invariant
                i <= self.words.len(),
                k == self.game()@,
                five_letter_words(self.words()),
                kept@ == survivors(k, self.words@.take(i as int)),
            decreases self.words.len() - i,
        {
            let word = &self.words[i];
            let chars = chars_of(word.as_str());
            proof {
                lemma_survivors_push(k, self.words@.take(i as int), *word);
                assert(self.words@.take(i + 1) =~= self.words@.take(i as int).push(*word));
            }
            if self.not_strictly_forbidden(&chars) && self.matches_correct_positions(&chars)
                && self.respects_misplaced_constraints(&chars) {
                kept.push(word.clone());
            }
            i += 1;
        }
        assert(self.words@.take(i as int) =~= self.words@);
        proof {
            lemma_filter_only_removes(k, self.words@);
        }
        kept
    }

    /// Whether no letter of the word is known to be absent.
    pub fn not_strictly_forbidden(&self, chars: &Vec<char>) -> (ok: bool)
        requires
            chars@.len() == 5,
        ensures
            ok == avoids_absent(self.game()@, chars@),
    {
        let mut i: usize = 0;
        while i < 5
            invariant
                i <= 5,
                chars@.len() == 5,
                forall|j: int| 0 <= j < i ==> !self.game()@.absent.contains(#[trigger] chars@[j]),
            decreases 5 - i,
        {
            if self.game.contains_not.contains(chars[i]) {
                return false;
            }
            i += 1;
        }
        true
    }

    /// Whether the word has the known letter at every known position.
    pub fn matches_correct_positions(&self, chars: &Vec<char>) -> (ok: bool)
        requires
            chars@.len() == 5,
        ensures
            ok == matches_correct(self.game()@, chars@),
    {
        let mut i: usize = 0;
        while i < 5
            invariant
                i <= 5,
                chars@.len() == 5,
                forall|j: int|
                    0 <= j < i && (#[trigger] self.game()@.correct[j]) is Some
                        ==> self.game()@.correct[j] == Some(chars@[j]),
            decreases 5 - i,
        {
            match self.game.correct_positions[i] {
                Some(expected) => {
                    if chars[i] != expected {
                        return false;
                    }
                },
                None => {},
            }
            i += 1;
        }
        true
    }

    /// Whether the word has `letter` at a position other than `pos` that is not pinned to
    /// another letter.
    fn found_elsewhere(&self, chars: &Vec<char>, letter: char, pos: usize) -> (found: bool)
        requires
            chars@.len() == 5,
            pos < 5,
        ensures
            found == occurs_elsewhere(self.game()@, chars@, letter, pos as int),
    {
        let mut j: usize = 0;
        while j < 5
            invariant
                j <= 5,
                chars@.len() == 5,
                forall|t: int|
                    0 <= t < j ==> !(t != pos && #[trigger] chars@[t] == letter && !(
                    self.game()@.correct[t] is Some && self.game()@.correct[t] != Some(letter))),
            decreases 5 - j,
        {
            if j != pos && chars[j] == letter {
                let pinned_to_other = match self.game.correct_positions[j] {
                    Some(c) => c != letter,
                    None => false,
                };
                if !pinned_to_other {
                    return true;
                }
            }
            j += 1;
        }
        false
    }

    /// Whether the word keeps every misplaced letter away from the positions it is barred
    /// from and has it somewhere else.
    pub fn respects_misplaced_constraints(&self, chars: &Vec<char>) -> (ok: bool)
        requires
            chars@.len() == 5,
        ensures
            ok == respects_misplaced(self.game()@, chars@),
    {
        let mut pos: usize = 0;
        while pos < 5
            invariant
                pos <= 5,
                chars@.len() == 5,
                forall|i: int, m: char|
                    0 <= i < pos && #[trigger] self.game()@.misplaced[i].contains(m) ==> chars@[i]
                        != m && occurs_elsewhere(self.game()@, chars@, m, i),
            decreases 5 - pos,
        {
            let barred = &self.game.misplaced_letters[pos];
            let n = barred.len();
            let mut t: usize = 0;
            while t < n
                invariant
                    t <= n,
                    n == barred.order().len(),
                    pos < 5,
                    chars@.len() == 5,
                    barred@ == self.game()@.misplaced[pos as int],
                    forall|u: int|
                        0 <= u < t ==> chars@[pos as int] != #[trigger] barred.order()[u]
                            && occurs_elsewhere(
                            self.game()@,
                            chars@,
                            barred.order()[u],
                            pos as int,
                        ),
                decreases n - t,
            {
                let letter = barred.letter(t);
                if chars[pos] == letter {
                    return false;
                }
                if !self.found_elsewhere(chars, letter, pos) {
                    return false;
                }
                t += 1;
            }
            pos += 1;
        }
        true
    }

    /// Whether the word has every letter that is known to be in the target.
    pub fn contains_required_letters(&self, chars: &Vec<char>) -> (ok: bool)
        ensures
            ok == contains_required(self.game()@, chars@),
    {
        let required = &self.game.must_contain;
        let n = required.len();
        let mut t: usize = 0;
        while t < n
            invariant
                t <= n,
                n == required.order().len(),
                required@ == self.game()@.required,
                forall|u: int| 0 <= u < t ==> occurs(chars@, #[trigger] required.order()[u]),
            decreases n - t,
        {
            if !crate::letters::has_letter(chars, required.letter(t)) {
                return false;
            }
            t += 1;
        }
        true
    }
}

} // verus!
