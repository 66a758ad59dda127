//! The whole-number parts of a candidate's score.
//!
//! A candidate is scored by three quantities: how often its letters stand at their
//! positions in the reference word list, how often they occur there at all, and how many
//! different letters it has. Each of the first two is a mean of five fractions. This
//! module computes the fractions exactly, as numerator and denominator; blending them
//! with real-valued weights is left to the caller.

use crate::analysis::{alphabet_index, is_letter, letter_slot, word_views, LetterStats};
use crate::error::SolverError;
use crate::letters::{chars_of, letter_at, LetterSet};
use vstd::prelude::*;

verus! {

/// A fraction of two whole numbers. Those that this module hands out have a denominator
/// other than 0.
#[derive(Clone, Copy, Debug, PartialEq, Eq, Structural)]
pub struct Ratio {
    /// The numerator.
    pub num: u64,
    /// The denominator.
    pub den: u64,
}

impl Ratio {
    /// `num / den`, and 0 where `den` is 0.
    pub open spec fn guarded(num: nat, den: nat) -> Ratio {
        if den == 0 {
            Ratio { num: 0, den: 1 }
        } else {
            Ratio { num: num as u64, den: den as u64 }
        }
    }

    /// `num / den`, and 0 where `den` is 0.
    pub fn new(num: u64, den: u64) -> (r: Ratio)
        ensures
            r == Ratio::guarded(num as nat, den as nat),
            r.den > 0,
            den == 0 ==> r.num == 0,
    {
        if den == 0 {
            Ratio { num: 0, den: 1 }
        } else {
            Ratio { num, den }
        }
    }
}

impl LetterStats {
    /// The counts of the first `n` letters of the alphabet at position `p`, added up.
    pub open spec fn column_sum(&self, p: int, n: int) -> nat
        decreases n,
    {
        if n <= 0 {
            0
        } else {
            self.column_sum(p, n - 1) + self.counts@[n - 1]@[p] as nat
        }
    }

    /// How many letters the word list has at position `p`.
    pub open spec fn position_total(&self, p: int) -> nat {
        self.column_sum(p, 26)
    }

    /// The counts of letter number `l` at the first `n` positions, added up.
    pub open spec fn row_sum(&self, l: int, n: int) -> nat
        decreases n,
    {
        if n <= 0 {
            0
        } else {
            self.row_sum(l, n - 1) + self.counts@[l]@[n - 1] as nat
        }
    }

    /// How often the letter `c` occurs in the word list; 0 for any other character.
    pub open spec fn letter_total(&self, c: char) -> nat {
        if is_letter(c) {
            self.row_sum(alphabet_index(c), 5)
        } else {
            0
        }
    }

    /// The occurrences of the first `n` letters of the alphabet, added up.
    pub open spec fn rows_sum(&self, n: int) -> nat
        decreases n,
    {
        if n <= 0 {
            0
        } else {
            self.rows_sum(n - 1) + self.row_sum(n - 1, 5)
        }
    }

    /// How many letters the word list has in all.
    pub open spec fn grand_total(&self) -> nat {
        self.rows_sum(26)
    }

    /// A sum of `n` counts is at most `n` times the largest count there can be.
    proof fn lemma_column_sum_bounded(&self, p: int, n: int)
        requires
            0 <= n <= 26,
            0 <= p < 5,
        ensures
            self.column_sum(p, n) <= n * 0xffff_ffff,
        decreases n,
    {
        if n > 0 {
            self.lemma_column_sum_bounded(p, n - 1);
        }
    }

    /// A sum of `n` counts is at most `n` times the largest count there can be.
    proof fn lemma_row_sum_bounded(&self, l: int, n: int)
        requires
            0 <= l < 26,
            0 <= n <= 5,
        ensures
            self.row_sum(l, n) <= n * 0xffff_ffff,
        decreases n,
    {
        if n > 0 {
            self.lemma_row_sum_bounded(l, n - 1);
        }
    }

    /// The occurrences of `n` letters are at most `5 * n` times the largest count.
    proof fn lemma_rows_sum_bounded(&self, n: int)
        requires
            0 <= n <= 26,
        ensures
            self.rows_sum(n) <= n * 5 * 0xffff_ffff,
        decreases n,
    {
        if n > 0 {
            self.lemma_rows_sum_bounded(n - 1);
            self.lemma_row_sum_bounded(n - 1, 5);
        }
    }

    /// How many letters the word list has at position `p`.
    pub fn total_at(&self, p: usize) -> (total: u64)
        requires
            p < 5,
        ensures
            total == self.position_total(p as int),
    {
        let mut total: u64 = 0;
        let mut l: usize = 0;
        while l < 26
            invariant
                l <= 26,
                p < 5,
                total == self.column_sum(p as int, l as int),
                total <= l * 0xffff_ffff,
            decreases 26 - l,
        {
            total = total + self.counts[l][p] as u64;
            l += 1;
        }
        total
    }

    /// How often letter number `l` of the alphabet occurs in the word list.
    fn row_total(&self, l: usize) -> (total: u64)
        requires
            l < 26,
        ensures
            total == self.row_sum(l as int, 5),
            total <= 5 * 0xffff_ffff,
    {
        let mut total: u64 = 0;
        let mut p: usize = 0;
        while p < 5
            invariant
                p <= 5,
                l < 26,
                total == self.row_sum(l as int, p as int),
                total <= p * 0xffff_ffff,
            decreases 5 - p,
        {
            total = total + self.counts[l][p] as u64;
            p += 1;
        }
        total
    }

    /// How often the letter `c` occurs in the word list; 0 for any other character.
    pub fn occurrences_of(&self, c: char) -> (total: u64)
        ensures
            total == self.letter_total(c),
    {
        match letter_slot(c) {
            Some(l) => self.row_total(l),
            None => 0,
        }
    }

    /// How many letters the word list has in all.
    pub fn total(&self) -> (total: u64)
        ensures
            total == self.grand_total(),
    {
        let mut total: u64 = 0;
        let mut l: usize = 0;
        while l < 26
            invariant
                l <= 26,
                total == self.rows_sum(l as int),
                total <= l * 5 * 0xffff_ffff,
            decreases 26 - l,
        {
            total = total + self.row_total(l);
            l += 1;
        }
        total
    }
}

/// The sums that every candidate's score is measured against.
#[derive(Clone, Copy, Debug)]
pub struct Totals {
    /// For each position, how many letters the word list has there.
    pub by_position: [u64; 5],
    /// How many letters the word list has in all.
    pub grand: u64,
}

impl Totals {
    /// Whether these are the sums of `stats`.
    pub open spec fn sums_up(&self, stats: &LetterStats) -> bool {
        &&& forall|p: int| 0 <= p < 5 ==> #[trigger] self.by_position@[p] == stats.position_total(p)
        &&& self.grand == stats.grand_total()
    }

    /// The sums of `stats`.
    pub fn of(stats: &LetterStats) -> (totals: Totals)
        ensures
            totals.sums_up(stats),
    {
        let mut by_position: [u64; 5] = [0u64; 5];
        let mut p: usize = 0;
        while p < 5
            invariant
                p <= 5,
                forall|q: int| 0 <= q < p ==> #[trigger] by_position@[q] == stats.position_total(q),
            decreases 5 - p,
        {
            by_position[p] = stats.total_at(p);
            p += 1;
        }
        Totals { by_position, grand: stats.total() }
    }
}

/// The parts of a candidate's score, before weighting.
#[derive(Clone, Copy, Debug)]
pub struct ScoreTerms {
    /// For each letter, its count at its position over the total of that position.
    pub positional: [Ratio; 5],
    /// For each letter, its count at all positions over the grand total.
    pub overall: [Ratio; 5],
    /// How many different letters the word has.
    pub distinct: usize,
}

/// The parts of a score as plain mathematics: the view of [`ScoreTerms`].
pub struct ScoreView {
    /// For each letter, its share among the letters at its position.
    pub positional: Seq<Ratio>,
    /// For each letter, its share among all letters.
    pub overall: Seq<Ratio>,
    /// How many different letters the word has.
    pub distinct: nat,
}

impl View for ScoreTerms {
    type V = ScoreView;

    open spec fn view(&self) -> ScoreView {
        ScoreView {
            positional: self.positional@,
            overall: self.overall@,
            distinct: self.distinct as nat,
        }
    }
}

/// The share of letter `i` of `w` among the letters at position `i`; 0 where the word list
/// has no letter there.
pub open spec fn positional_term(stats: &LetterStats, w: Seq<char>, i: int) -> Ratio {
    Ratio::guarded(stats.count(w[i], i), stats.position_total(i))
}

/// The share of letter `i` of `w` among all letters; 0 where the word list has no letter.
pub open spec fn overall_term(stats: &LetterStats, w: Seq<char>, i: int) -> Ratio {
    Ratio::guarded(stats.letter_total(w[i]), stats.grand_total())
}

/// The parts of the score of the five-letter word `w`.
pub open spec fn score_view(stats: &LetterStats, w: Seq<char>) -> ScoreView {
    ScoreView {
        positional: Seq::new(5, |i: int| positional_term(stats, w, i)),
        overall: Seq::new(5, |i: int| overall_term(stats, w, i)),
        distinct: w.to_set().len(),
    }
}

/// The total of a position is at least the count of any one letter there.
proof fn lemma_column_sum_holds(stats: &LetterStats, p: int, l: int, n: int)
    requires
        0 <= l < n,
    ensures
        stats.counts@[l]@[p] <= stats.column_sum(p, n),
    decreases n,
{
    if l < n - 1 {
        lemma_column_sum_holds(stats, p, l, n - 1);
    }
}

/// The grand total is at least the occurrences of any one letter.
proof fn lemma_rows_sum_holds(stats: &LetterStats, l: int, n: int)
    requires
        0 <= l < n,
    ensures
        stats.row_sum(l, 5) <= stats.rows_sum(n),
    decreases n,
{
    if l < n - 1 {
        lemma_rows_sum_holds(stats, l, n - 1);
    }
}

/// A letter that stands nowhere occurs 0 times.
proof fn lemma_empty_row(stats: &LetterStats, l: int, n: int)
    requires
        0 <= n <= 5,
        forall|p: int| 0 <= p < 5 ==> stats.counts@[l]@[p] == 0,
    ensures
        stats.row_sum(l, n) == 0,
    decreases n,
{
    if n > 0 {
        lemma_empty_row(stats, l, n - 1);
    }
}

/// Each part of a score is a share: its denominator is not 0, and its numerator is no
/// larger than its denominator. No part calls for a division by 0.
pub proof fn lemma_terms_are_shares(stats: &LetterStats, w: Seq<char>, i: int)
    requires
        0 <= i < 5,
    ensures
        0 < positional_term(stats, w, i).den,
        positional_term(stats, w, i).num <= positional_term(stats, w, i).den,
        0 < overall_term(stats, w, i).den,
        overall_term(stats, w, i).num <= overall_term(stats, w, i).den,
        stats.position_total(i) == 0 ==> positional_term(stats, w, i) == (Ratio { num: 0, den: 1 }),
        stats.grand_total() == 0 ==> overall_term(stats, w, i) == (Ratio { num: 0, den: 1 }),
{
    stats.lemma_column_sum_bounded(i, 26);
    stats.lemma_rows_sum_bounded(26);
    if is_letter(w[i]) {
        lemma_column_sum_holds(stats, i, alphabet_index(w[i]), 26);
        lemma_rows_sum_holds(stats, alphabet_index(w[i]), 26);
    }
}

/// A letter that the word list has at no position adds exactly 0 to both sums of a score.
pub proof fn lemma_unseen_letter_adds_nothing(stats: &LetterStats, w: Seq<char>, i: int)
    requires
        0 <= i < 5,
        forall|p: int| 0 <= p < 5 ==> stats.count(w[i], p) == 0,
    ensures
        positional_term(stats, w, i).num == 0,
        positional_term(stats, w, i).den > 0,
        overall_term(stats, w, i).num == 0,
        overall_term(stats, w, i).den > 0,
{
    lemma_terms_are_shares(stats, w, i);
    assert(stats.count(w[i], i) == 0);
    if is_letter(w[i]) {
        assert forall|p: int| 0 <= p < 5 implies stats.counts@[alphabet_index(w[i])]@[p] == 0 by {
            assert(stats.count(w[i], p) == 0);
        }
        lemma_empty_row(stats, alphabet_index(w[i]), 5);
    }
}

/// Scoring is repeatable: two results for the same candidates and statistics hold the
/// same words with the same score parts in the same order.
pub proof fn lemma_scoring_repeatable(
    stats: &LetterStats,
    words: Seq<Seq<char>>,
    first: Seq<(String, ScoreTerms)>,
    second: Seq<(String, ScoreTerms)>,
)
    requires
        scored_views(first) == scores(stats, words),
        scored_views(second) == scores(stats, words),
    ensures
        scored_views(first) == scored_views(second),
        first.len() == second.len(),
        forall|i: int|
            0 <= i < first.len() ==> (#[trigger] first[i]).0@ == second[i].0@ && first[i].1@
                == second[i].1@,
{
    assert(scored_views(first).len() == first.len());
    assert(scored_views(second).len() == second.len());
    assert forall|i: int| 0 <= i < first.len() implies (#[trigger] first[i]).0@ == second[i].0@
        && first[i].1@ == second[i].1@ by {
        assert(scored_views(first)[i] == (first[i].0@, first[i].1@));
        assert(scored_views(second)[i] == (second[i].0@, second[i].1@));
    }
}

/// Whether `w` is five letters `a` to `z`.
pub open spec fn is_rankable(w: Seq<char>) -> bool {
    &&& w.len() == 5
    &&& forall|i: int| 0 <= i < 5 ==> is_letter(#[trigger] w[i])
}

/// Whether `chars` is five letters `a` to `z`.
pub fn rankable(chars: &Vec<char>) -> (ok: bool)
    ensures
        ok == is_rankable(chars@),
{
    if chars.len() != 5 {
        return false;
    }
    let mut i: usize = 0;
    while i < 5
        invariant
            i <= 5,
            chars@.len() == 5,
            forall|j: int| 0 <= j < i ==> is_letter(#[trigger] chars@[j]),
        decreases 5 - i,
    {
        if letter_slot(chars[i]).is_none() {
            return false;
        }
        i += 1;
    }
    true
}

/// How many different letters `chars` has.
pub fn distinct_letters(chars: &Vec<char>) -> (n: usize)
    ensures
        n == chars@.to_set().len(),
{
    let mut seen = LetterSet::new();
    let mut i: usize = 0;
    while i < chars.len()
        invariant
            i <= chars.len(),
            seen@ == chars@.take(i as int).to_set(),
        decreases chars.len() - i,
    {
        seen.insert(chars[i]);
        proof {
            let before = chars@.take(i as int);
            let after = chars@.take(i + 1);
            assert(after =~= before.push(chars@[i as int]));
            assert(after.to_set() =~= before.to_set().insert(chars@[i as int])) by {
                assert forall|c: char| after.to_set().contains(c) <==> before.to_set().insert(
                    chars@[i as int],
                ).contains(c) by {
                    if before.contains(c) {
                        let j = choose|j: int| 0 <= j < before.len() && before[j] == c;
                        assert(after[j] == c);
                    }
                    if c == chars@[i as int] {
                        assert(after[i as int] == c);
                    }
                }
            }
        }
        i += 1;
    }
    assert(chars@.take(i as int) =~= chars@);
    seen.len()
}

/// The parts of the score of `word`; `None` unless it is five letters `a` to `z`.
pub fn score_word(stats: &LetterStats, word: &str) -> (terms: Option<ScoreTerms>)
    ensures
        terms is Some <==> is_rankable(word@),
        terms is Some ==> terms.unwrap()@ == score_view(stats, word@),
{
    let chars = chars_of(word);
    if rankable(&chars) {
        Some(score_terms(stats, &Totals::of(stats), &chars))
    } else {
        None
    }
}

/// The parts of the score of a five-letter word, measured against `totals`.
fn score_terms(stats: &LetterStats, totals: &Totals, chars: &Vec<char>) -> (terms: ScoreTerms)
    requires
        chars@.len() == 5,
        totals.sums_up(stats),
    ensures
        terms@ == score_view(stats, chars@),
{
    let zero = Ratio { num: 0, den: 1 };
    let mut positional: [Ratio; 5] = [zero; 5];
    let mut overall: [Ratio; 5] = [zero; 5];
    let mut i: usize = 0;
    while i < 5
        invariant
            i <= 5,
            chars@.len() == 5,
            totals.sums_up(stats),
            forall|j: int| 0 <= j < i ==> #[trigger] positional@[j] == positional_term(stats, chars@, j),
            forall|j: int| 0 <= j < i ==> #[trigger] overall@[j] == overall_term(stats, chars@, j),
        decreases 5 - i,
    {
        let c = letter_at(chars, i);
        let here: u64 = match letter_slot(c) {
            Some(l) => stats.counts[l][i] as u64,
            None => 0,
        };
        positional[i] = Ratio::new(here, totals.by_position[i]);
        overall[i] = Ratio::new(stats.occurrences_of(c), totals.grand);
        i += 1;
    }
    let terms = ScoreTerms { positional, overall, distinct: distinct_letters(chars) };
    assert(terms@.positional =~= score_view(stats, chars@).positional);
    assert(terms@.overall =~= score_view(stats, chars@).overall);
    terms
}

/// The candidates that can be scored, each with the parts of its score, in their
/// order. A candidate that is not five letters `a` to `z` is left out.
pub open spec fn scores(stats: &LetterStats, words: Seq<Seq<char>>) -> Seq<(Seq<char>, ScoreView)> {
    words.filter(|w: Seq<char>| is_rankable(w)).map_values(
        |w: Seq<char>| (w, score_view(stats, w)),
    )
}

/// The letters and the score parts of each entry.
pub open spec fn scored_views(scored: Seq<(String, ScoreTerms)>) -> Seq<(Seq<char>, ScoreView)> {
    scored.map_values(|e: (String, ScoreTerms)| (e.0@, e.1@))
}

/// Scoring one more candidate: it is appended with its score parts, or left out.
pub proof fn lemma_scores_push(stats: &LetterStats, words: Seq<Seq<char>>, w: Seq<char>)
    ensures
        scores(stats, words.push(w)) == if is_rankable(w) {
            scores(stats, words).push((w, score_view(stats, w)))
        } else {
            scores(stats, words)
        },
{
    reveal(Seq::filter);
    assert(words.push(w).drop_last() =~= words);
    if is_rankable(w) {
        assert(scores(stats, words.push(w)) =~= scores(stats, words).push(
            (w, score_view(stats, w)),
        ));
    }
}

/// Scores every candidate of `words` that is five letters `a` to `z`, keeping the order.
pub fn score_words(words: &[&str], stats: &LetterStats) -> (scored: Vec<(String, ScoreTerms)>)
    ensures
        scored_views(scored@) == scores(stats, word_views(words@)),
{
    let totals = Totals::of(stats);
    let ghost all = word_views(words@);
    let mut scored: Vec<(String, ScoreTerms)> = Vec::new();
    let mut i: usize = 0;
    assert(scored_views(scored@) =~= scores(stats, all.take(0))) by {
        reveal(Seq::filter);
    }
    while i < words.len()
        invariant
            i <= words.len(),
            all == word_views(words@),
            totals.sums_up(stats),
            scored_views(scored@) == scores(stats, all.take(i as int)),
        decreases words.len() - i,
    {
        let word = words[i];
        let chars = chars_of(word);
        proof {
            lemma_scores_push(stats, all.take(i as int), chars@);
            assert(all.take(i + 1) =~= all.take(i as int).push(chars@));
        }
        if rankable(&chars) {
            let terms = score_terms(stats, &totals, &chars);
            scored.push((word.to_owned(), terms));
        }
        i += 1;
    }
    assert(all.take(i as int) =~= all);
    scored
}

/// The letters of each word.
pub open spec fn string_views(words: Seq<String>) -> Seq<Seq<char>> {
    Seq::new(words.len(), |i: int| words[i]@)
}

/// Scores every candidate of `words` that is five letters `a` to `z`, keeping the order.
pub fn score_candidates(words: &Vec<String>, stats: &LetterStats) -> (scored: Vec<
    (String, ScoreTerms),
>)
    ensures
        scored_views(scored@) == scores(stats, string_views(words@)),
{
    let mut refs: Vec<&str> = Vec::new();
    let mut i: usize = 0;
    while i < words.len()
        invariant
            i <= words.len(),
            refs@.len() == i,
            forall|j: int| 0 <= j < i ==> (#[trigger] refs@[j])@ == words@[j]@,
        decreases words.len() - i,
    {
        refs.push(words[i].as_str());
        i += 1;
    }
    assert(word_views(refs@) =~= string_views(words@));
    score_words(refs.as_slice(), stats)
}

/// Which entry of a list of `available` weight settings applies after `completed`
/// guesses: the entry of that number, and the last one once the guesses outnumber the
/// entries. An empty list is an error.
pub fn weight_index(completed: usize, available: usize) -> (index: Result<usize, SolverError>)
    ensures
        available == 0 ==> index == Err::<usize, SolverError>(
            SolverError::EmptyWeightConfiguration,
        ),
        available > 0 ==> index == Ok::<usize, SolverError>(
            if completed < available {
                completed
            } else {
                (available - 1) as usize
            },
        ),
{
    if available == 0 {
        Err(SolverError::EmptyWeightConfiguration)
    } else if completed < available {
        Ok(completed)
    } else {
        Ok(available - 1)
    }
}

} // verus!
