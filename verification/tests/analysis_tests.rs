use wordle_bot::analysis::{letter_slot, LetterStats};

fn row(stats: &LetterStats, c: char) -> [u32; 5] {
    stats.counts[letter_slot(c).unwrap()]
}

#[test]
fn letter_slot_numbers_the_alphabet() {
    assert_eq!(letter_slot('a'), Some(0));
    assert_eq!(letter_slot('m'), Some(12));
    assert_eq!(letter_slot('z'), Some(25));
    assert_eq!(letter_slot('A'), None);
    assert_eq!(letter_slot('`'), None);
    assert_eq!(letter_slot('{'), None);
    assert_eq!(letter_slot('é'), None);
}

#[test]
fn new_statistics_are_all_zero() {
    let stats = LetterStats::new();
    assert_eq!(stats.counts, [[0u32; 5]; 26]);
}

#[test]
fn from_words_tallies_each_letter_by_position() {
    let stats = LetterStats::from_words(&["crane", "slate", "trace"]);
    assert_eq!(row(&stats, 'a'), [0, 0, 3, 0, 0]);
    assert_eq!(row(&stats, 'c'), [1, 0, 0, 1, 0]);
    assert_eq!(row(&stats, 'e'), [0, 0, 0, 0, 3]);
    assert_eq!(row(&stats, 'l'), [0, 1, 0, 0, 0]);
    assert_eq!(row(&stats, 'n'), [0, 0, 0, 1, 0]);
    assert_eq!(row(&stats, 'r'), [0, 2, 0, 0, 0]);
    assert_eq!(row(&stats, 's'), [1, 0, 0, 0, 0]);
    assert_eq!(row(&stats, 't'), [1, 0, 0, 1, 0]);
    assert_eq!(row(&stats, 'z'), [0, 0, 0, 0, 0]);
    let all: u32 = stats.counts.iter().map(|r| r.iter().sum::<u32>()).sum();
    assert_eq!(all, 15);
}

#[test]
fn from_words_counts_repeated_letters_and_words() {
    let stats = LetterStats::from_words(&["eerie", "eerie", "geese"]);
    assert_eq!(row(&stats, 'e'), [2, 3, 1, 0, 3]);
    assert_eq!(row(&stats, 'r'), [0, 0, 2, 0, 0]);
    assert_eq!(row(&stats, 'i'), [0, 0, 0, 2, 0]);
    assert_eq!(row(&stats, 'g'), [1, 0, 0, 0, 0]);
    assert_eq!(row(&stats, 's'), [0, 0, 0, 1, 0]);
}

#[test]
fn from_words_skips_words_of_other_lengths() {
    let stats = LetterStats::from_words(&["", "abcd", "abcdef", "crane", "a"]);
    assert_eq!(row(&stats, 'a'), [0, 0, 1, 0, 0]);
    assert_eq!(row(&stats, 'b'), [0, 0, 0, 0, 0]);
    assert_eq!(row(&stats, 'c'), [1, 0, 0, 0, 0]);
}

#[test]
fn from_words_passes_over_other_characters() {
    let stats = LetterStats::from_words(&["Crane", "sl-te", "élan!"]);
    assert_eq!(row(&stats, 'c'), [0, 0, 0, 0, 0]);
    assert_eq!(row(&stats, 'r'), [0, 1, 0, 0, 0]);
    assert_eq!(row(&stats, 'a'), [0, 0, 2, 0, 0]);
    assert_eq!(row(&stats, 'n'), [0, 0, 0, 2, 0]);
    assert_eq!(row(&stats, 'e'), [0, 0, 0, 0, 2]);
    assert_eq!(row(&stats, 's'), [1, 0, 0, 0, 0]);
    assert_eq!(row(&stats, 'l'), [0, 2, 0, 0, 0]);
    assert_eq!(row(&stats, 't'), [0, 0, 0, 1, 0]);
}

#[test]
fn from_words_of_nothing_is_all_zero() {
    let stats = LetterStats::from_words(&[]);
    assert_eq!(stats.counts, [[0u32; 5]; 26]);
}
