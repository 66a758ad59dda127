//! Honest verdicts never mislead: whatever is recorded from them is true of the target,
//! and the target agrees with it.

use crate::filter::{contains_required, keeps, occurs_elsewhere, survives, survivors};
use crate::game::{marked_present, Feedback, Knowledge, Round};
use crate::letters::occurs;
use crate::play::{lemma_first_loose, lemma_spare_occurrence, loose_in_guess, verdict, verdicts};
use vstd::prelude::*;

verus! {

/// Every round reports the verdicts on its guess against `target`.
pub open spec fn honest(target: Seq<char>, rounds: Seq<Round>) -> bool {
    forall|r: int|
        0 <= r < rounds.len() ==> (#[trigger] rounds[r]).marks == verdicts(target, rounds[r].word)
}

/// Everything that `k` says holds of the five-letter word `target`: the pinned letters
/// stand where they are pinned, the barred letters stand elsewhere, the absent letters
/// do not occur, and the required letters do.
pub open spec fn true_of(k: Knowledge, target: Seq<char>) -> bool {
    &&& forall|i: int|
        0 <= i < 5 && (#[trigger] k.correct[i]) is Some ==> k.correct[i] == Some(target[i])
    &&& forall|i: int, m: char|
        0 <= i < 5 && #[trigger] k.misplaced[i].contains(m) ==> target[i] != m && occurs(target, m)
    &&& forall|c: char| #[trigger] k.absent.contains(c) ==> !occurs(target, c)
    &&& forall|c: char| #[trigger] k.required.contains(c) ==> occurs(target, c)
}

/// A letter that gets the verdict `Misplaced` is in the target, at another position.
pub proof fn lemma_misplaced_letter_occurs(target: Seq<char>, guess: Seq<char>, i: int)
    requires
        target.len() == 5,
        0 <= i < 5,
        verdict(target, guess, i) == Feedback::Misplaced,
    ensures
        target[i] != guess[i],
        occurs(target, guess[i]),
{
    lemma_spare_occurrence(target, guess, guess[i], 5);
    let k = choose|k: int| 0 <= k < 5 && #[trigger] target[k] == guess[i] && guess[k] != guess[i];
    assert(0 <= k < target.len() && target[k] == guess[i]);
}

/// A letter of the target gets the verdict `Correct` or `Misplaced` at one position of
/// the guess at least, if the guess has it at all.
pub proof fn lemma_present_letter_is_marked(target: Seq<char>, guess: Seq<char>, i: int)
    requires
        target.len() == 5,
        0 <= i < 5,
        occurs(target, guess[i]),
    ensures
        marked_present(guess, verdicts(target, guess)).contains(guess[i]),
{
    let c = guess[i];
    let marks = verdicts(target, guess);
    if exists|k: int| 0 <= k < 5 && #[trigger] target[k] == c && guess[k] == c {
        let k = choose|k: int| 0 <= k < 5 && #[trigger] target[k] == c && guess[k] == c;
        assert(guess[k] == c && marks[k] != Feedback::Absent);
    } else {
        // No copy of the letter is at its place, so position `i` is a loose one.
        let at = choose|k: int| 0 <= k < target.len() && target[k] == c;
        assert(target[at] == c && guess[at] != c);
        lemma_spare_occurrence(target, guess, c, 5);
        assert(target[i] != c) by {
            if target[i] == c {
                assert(target[i] == c && guess[i] == c);
            }
        }
        assert(loose_in_guess(target, guess, c, i + 1) > 0);
        lemma_first_loose(target, guess, c, i + 1);
        let j = choose|j: int|
            0 <= j < i + 1 && #[trigger] guess[j] == c && target[j] != c && loose_in_guess(
                target,
                guess,
                c,
                j,
            ) == 0;
        assert(verdict(target, guess, j) == Feedback::Misplaced);
        assert(guess[j] == c && marks[j] != Feedback::Absent);
    }
}

/// Recording an honest round keeps the knowledge true of the target.
pub proof fn lemma_honest_round_stays_true(k: Knowledge, target: Seq<char>, guess: Seq<char>)
    requires
        target.len() == 5,
        true_of(k, target),
    ensures
        true_of(k.record_round(guess, verdicts(target, guess)), target),
        k.confirmed_by(guess, verdicts(target, guess)),
{
    let marks = verdicts(target, guess);
    let after = k.record_round(guess, marks);
    assert forall|i: int, m: char| 0 <= i < 5 && #[trigger] after.misplaced[i].contains(
        m,
    ) implies target[i] != m && occurs(target, m) by {
        if !k.misplaced[i].contains(m) {
            lemma_misplaced_letter_occurs(target, guess, i);
        }
    }
    assert forall|c: char| #[trigger] after.required.contains(c) implies occurs(target, c) by {
        if !k.required.contains(c) {
            let i = choose|i: int| 0 <= i < 5 && guess[i] == c && marks[i] != Feedback::Absent;
            if marks[i] == Feedback::Correct {
                assert(target[i] == c);
            } else {
                lemma_misplaced_letter_occurs(target, guess, i);
            }
        }
    }
    assert forall|c: char| #[trigger] after.absent.contains(c) implies !occurs(target, c) by {
        if !k.absent.contains(c) {
            let i = choose|i: int| 0 <= i < 5 && guess[i] == c && marks[i] == Feedback::Absent;
            if occurs(target, c) {
                lemma_present_letter_is_marked(target, guess, i);
            }
        }
    }
}

/// Whatever honest rounds have been recorded from nothing, the knowledge is true of the
/// target.
pub proof fn lemma_honest_rounds_stay_true(target: Seq<char>, rounds: Seq<Round>)
    requires
        target.len() == 5,
        honest(target, rounds),
    ensures
        true_of(Knowledge::empty().after_rounds(rounds), target),
    decreases rounds.len(),
{
    if rounds.len() > 0 {
        let earlier = rounds.drop_last();
        assert forall|r: int| 0 <= r < earlier.len() implies (#[trigger] earlier[r]).marks
            == verdicts(target, earlier[r].word) by {
            assert(earlier[r] == rounds[r]);
        }
        lemma_honest_rounds_stay_true(target, earlier);
        lemma_honest_round_stays_true(
            Knowledge::empty().after_rounds(earlier),
            target,
            rounds.last().word,
        );
    }
}

/// A word of which the knowledge is true agrees with it: it passes the filter, it has
/// every required letter, and no letter is both required and absent.
pub proof fn lemma_truth_admits_target(k: Knowledge, target: Seq<char>)
    requires
        target.len() == 5,
        true_of(k, target),
    ensures
        survives(k, target),
        contains_required(k, target),
        k.consistent(),
{
    assert forall|i: int| 0 <= i < 5 implies !k.absent.contains(#[trigger] target[i]) by {
        if k.absent.contains(target[i]) {
            assert(0 <= i < target.len() && target[i] == target[i]);
        }
    }
    assert forall|i: int, m: char| 0 <= i < 5 && #[trigger] k.misplaced[i].contains(
        m,
    ) implies target[i] != m && occurs_elsewhere(k, target, m, i) by {
        let j = choose|j: int| 0 <= j < target.len() && target[j] == m;
        assert(j != i && target[j] == m);
        assert(k.correct[j] is Some ==> k.correct[j] == Some(target[j]));
    }
}

/// A guess that is the target gets the verdict `Correct` at every position, and once it
/// is recorded the game is solved with the target as the solved word.
pub proof fn lemma_guessing_the_target_solves(k: Knowledge, target: Seq<char>)
    requires
        target.len() == 5,
    ensures
        forall|i: int| 0 <= i < 5 ==> #[trigger] verdicts(target, target)[i] == Feedback::Correct,
        k.record_round(target, verdicts(target, target)).is_solved(),
        k.record_round(target, verdicts(target, target)).solved_word() == target,
{
    let after = k.record_round(target, verdicts(target, target));
    assert forall|i: int| 0 <= i < 5 implies (#[trigger] after.correct[i]) == Some(target[i]) by {
        assert(verdicts(target, target)[i] == Feedback::Correct);
    }
    assert(after.solved_word() =~= target);
}

/// Once every position is known, the one five-letter word that agrees with the knowledge
/// is the solved word.
pub proof fn lemma_solved_admits_one_word(k: Knowledge, w: Seq<char>)
    requires
        k.is_solved(),
        w.len() == 5,
        survives(k, w),
    ensures
        w == k.solved_word(),
{
    assert forall|i: int| 0 <= i < 5 implies w[i] == k.solved_word()[i] by {
        assert(k.correct[i] is Some);
    }
    assert(w =~= k.solved_word());
}

/// The target is never filtered out: after any number of honest rounds it agrees with
/// what is known, and so it is among the survivors of every candidate list that holds it.
pub proof fn lemma_target_always_survives(target: String, rounds: Seq<Round>, words: Seq<String>)
    requires
        target@.len() == 5,
        honest(target@, rounds),
        words.contains(target),
    ensures
        survives(Knowledge::empty().after_rounds(rounds), target@),
        Knowledge::empty().after_rounds(rounds).consistent(),
        survivors(Knowledge::empty().after_rounds(rounds), words).contains(target),
{
    let k = Knowledge::empty().after_rounds(rounds);
    lemma_honest_rounds_stay_true(target@, rounds);
    lemma_truth_admits_target(k, target@);
    let i = choose|i: int| 0 <= i < words.len() && words[i] == target;
    words.lemma_filter_contains(keeps(k), i);
}

} // verus!
