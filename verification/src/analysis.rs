//! How often each letter stands at each position of a word list.

use crate::letters::chars_of;
use vstd::prelude::*;

verus! {

/// Whether `c` is one of the 26 letters `a` to `z`.
pub open spec fn is_letter(c: char) -> bool {
    'a' <= c && c <= 'z'
}

/// The place of the letter `c` in the alphabet, counted from 0.
pub open spec fn alphabet_index(c: char) -> int {
    c as int - 'a' as int
}

/// The place of `c` in the alphabet, if it is one of the letters `a` to `z`.
pub fn letter_slot(c: char) -> (slot: Option<usize>)
    ensures
        slot is Some <==> is_letter(c),
        slot is Some ==> slot.unwrap() == alphabet_index(c) && slot.unwrap() < 26,
{
    if 'a' <= c && c <= 'z' {
        Some((c as u32 - 'a' as u32) as usize)
    } else {
        None
    }
}

/// The test for a five-letter word with the letter `c` at position `p`.
pub open spec fn has_at(c: char, p: int) -> spec_fn(Seq<char>) -> bool {
    |w: Seq<char>| w.len() == 5 && w[p] == c
}

/// The number of five-letter words among `words` that have the letter `c` at position `p`.
pub open spec fn occurrences(words: Seq<Seq<char>>, c: char, p: int) -> nat {
    words.filter(has_at(c, p)).len()
}

/// One more word counts once where it is a five-letter word with `c` at position `p`.
pub proof fn lemma_occurrences_push(words: Seq<Seq<char>>, w: Seq<char>, c: char, p: int)
    ensures
        occurrences(words.push(w), c, p) == occurrences(words, c, p) + if w.len() == 5 && w[p]
            == c {
            1nat
        } else {
            0nat
        },
{
    reveal(Seq::filter);
    assert(words.push(w).drop_last() =~= words);
}

/// No letter is counted more often than there are words.
pub proof fn lemma_occurrences_bounded(words: Seq<Seq<char>>, c: char, p: int)
    ensures
        occurrences(words, c, p) <= words.len(),
{
    words.lemma_filter_len(has_at(c, p));
}

/// For each letter `a` to `z`, how many of the words have it at each of the five
/// positions.
pub open spec fn letter_counts(words: Seq<Seq<char>>) -> Map<char, Seq<nat>> {
    Map::new(|c: char| is_letter(c), |c: char| Seq::new(5, |p: int| occurrences(words, c, p)))
}

/// The letters of each word.
pub open spec fn word_views(words: Seq<&str>) -> Seq<Seq<char>> {
    Seq::new(words.len(), |i: int| words[i]@)
}

/// For each letter `a` to `z`, how many words have it at each of the five positions.
#[derive(Debug)]
pub struct LetterStats {
    /// One row per letter, `a` first; one count per position.
    pub counts: [[u32; 5]; 26],
}

impl View for LetterStats {
    type V = Map<char, Seq<nat>>;

    /// The five counts of each letter `a` to `z`.
    open spec fn view(&self) -> Map<char, Seq<nat>> {
        Map::new(|c: char| is_letter(c), |c: char| Seq::new(5, |p: int| self.count(c, p)))
    }
}

impl LetterStats {
    /// How often the letter `c` stands at position `p`; 0 for any other character.
    pub open spec fn count(&self, c: char, p: int) -> nat {
        if is_letter(c) {
            self.counts@[alphabet_index(c)]@[p] as nat
        } else {
            0
        }
    }

    /// Statistics in which every count is 0.
    pub fn new() -> (stats: LetterStats)
        ensures
            forall|c: char, p: int| 0 <= p < 5 ==> #[trigger] stats.count(c, p) == 0,
            stats@ == letter_counts(Seq::<Seq<char>>::empty()),
    {
        let stats = LetterStats { counts: [[0u32; 5]; 26] };
        assert(stats@ =~= letter_counts(Seq::<Seq<char>>::empty())) by {
            assert forall|c: char| is_letter(c) implies #[trigger] stats@[c] == letter_counts(
                Seq::<Seq<char>>::empty(),
            )[c] by {
                assert(stats@[c] =~= letter_counts(Seq::<Seq<char>>::empty())[c]);
            }
        }
        stats
    }

    /// Counts, over the five-letter words of `words`, how often each letter `a` to `z`
    /// stands at each position. Other words and other characters are passed over.
    pub fn from_words(words: &[&str]) -> (stats: LetterStats)
        requires
            words@.len() <= u32::MAX,
        ensures
            stats@ == letter_counts(word_views(words@)),
            forall|c: char, p: int|
                is_letter(c) && 0 <= p < 5 ==> #[trigger] stats.count(c, p) == occurrences(
                    word_views(words@),
                    c,
                    p,
                ),
    {
        let ghost all = word_views(words@);
        let mut stats = Self::new();
        let mut i: usize = 0;
        while i < words.len()
            invariant
                i <= words.len(),
                words@.len() <= u32::MAX,
                all == word_views(words@),
                forall|c: char, p: int|
                    is_letter(c) && 0 <= p < 5 ==> #[trigger] stats.count(c, p) == occurrences(
                        all.take(i as int),
                        c,
                        p,
                    ),
            decreases words.len() - i,
        {
            let letters = chars_of(words[i]);
            let ghost seen = all.take(i as int);
            proof {
                assert(all.take(i + 1) =~= seen.push(letters@));
                assert forall|c: char, p: int| is_letter(c) && 0 <= p < 5 implies occurrences(
                    all.take(i + 1),
                    c,
                    p,
                ) == occurrences(seen, c, p) + if letters@.len() == 5 && letters@[p] == c {
                    1nat
                } else {
                    0nat
                } by {
                    lemma_occurrences_push(seen, letters@, c, p);
                }
            }
            if letters.len() == 5 {
                let mut p: usize = 0;
                while p < 5
                    invariant
                        p <= 5,
                        i < words.len(),
                        words@.len() <= u32::MAX,
                        letters@.len() == 5,
                        seen.len() == i,
                        forall|c: char, q: int|
                            is_letter(c) && 0 <= q < 5 ==> #[trigger] stats.count(c, q)
                                == occurrences(seen, c, q) + if q < p && letters@[q] == c {
                                1nat
                            } else {
                                0nat
                            },
                    decreases 5 - p,
                {
                    let c = letters[p];
                    match letter_slot(c) {
                        Some(slot) => {
                            proof {
                                lemma_occurrences_bounded(seen, c, p as int);
                                assert(stats.count(c, p as int) == occurrences(seen, c, p as int));
                            }
                            let ghost before = stats;
                            let mut row = stats.counts[slot];
                            row[p] = row[p] + 1;
                            stats.counts[slot] = row;
                            assert forall|d: char, q: int| is_letter(d) && 0 <= q < 5 implies
                                #[trigger] stats.count(d, q) == before.count(d, q) + if d == c && q
                                == p {
                                1nat
                            } else {
                                0nat
                            } by {
                                if alphabet_index(d) == slot {
                                    assert(d == c);
                                }
                            }
                        },
                        None => {},
                    }
                    p += 1;
                }
            }
            i += 1;
        }
        assert(all.take(i as int) =~= all);
        assert(stats@ =~= letter_counts(all)) by {
            assert forall|c: char| is_letter(c) implies #[trigger] stats@[c] == letter_counts(
                all,
            )[c] by {
                assert(stats@[c] =~= letter_counts(all)[c]);
            }
        }
        stats
    }
}

} // verus!
