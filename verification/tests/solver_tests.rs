use wordle_bot::analysis::LetterStats;
use wordle_bot::error::SolverError;
use wordle_bot::ranking::Ratio;
use wordle_bot::solver::{GuessCheck, Solver};

fn words(list: &[&str]) -> Vec<String> {
    list.iter().map(|w| w.to_string()).collect()
}

fn solver() -> Solver {
    Solver::new(words(&["crane", "slate", "trace", "grate", "irate", "stare", "exits"])).unwrap()
}

#[test]
fn solver_needs_a_word_list() {
    assert_eq!(Solver::new(Vec::new()).err(), Some(SolverError::EmptyWordList));
}

#[test]
fn solver_wants_five_letter_words() {
    assert_eq!(
        Solver::new(words(&["crane", "cranes"])).err(),
        Some(SolverError::InvalidWordLength)
    );
    assert_eq!(Solver::new(words(&[""])).err(), Some(SolverError::InvalidWordLength));
}

#[test]
fn new_solver_starts_with_the_whole_list() {
    let solver = solver();
    assert_eq!(solver.all_words().len(), 7);
    assert_eq!(solver.current_words(), solver.all_words());
    assert!(solver.game_data().lines.is_empty());
    assert!(!solver.is_game_won());
    assert_eq!(solver.get_solved_word(), None);
}

#[test]
fn check_guess_sorts_typed_lines() {
    let solver = solver();
    assert_eq!(solver.check_guess("exit"), Ok(GuessCheck::Exit));
    assert_eq!(solver.check_guess("crane"), Ok(GuessCheck::Accepted));
    assert_eq!(solver.check_guess("exits"), Ok(GuessCheck::Accepted));
    assert_eq!(solver.check_guess("cran"), Err(SolverError::InvalidWordLength));
    assert_eq!(solver.check_guess(""), Err(SolverError::InvalidWordLength));
    assert_eq!(solver.check_guess("cranes"), Err(SolverError::InvalidWordLength));
    assert_eq!(solver.check_guess("zzzzz"), Err(SolverError::UnknownWord));
    assert_eq!(solver.check_guess("CRANE"), Err(SolverError::UnknownWord));
}

#[test]
fn add_round_turns_down_malformed_input() {
    let mut solver = solver();
    assert_eq!(solver.add_round("cran", "wwwww"), Err(SolverError::InvalidWordLength));
    assert_eq!(solver.add_round("crane", "wwww"), Err(SolverError::InvalidWordLength));
    assert_eq!(solver.add_round("crane", "wwwwww"), Err(SolverError::InvalidWordLength));
    assert_eq!(solver.add_round("crane", "wwxww"), Err(SolverError::InvalidPattern));
    assert_eq!(solver.add_round("crane", "WWWWW"), Err(SolverError::InvalidPattern));
    assert!(solver.game_data().lines.is_empty());
    assert!(solver.game_data().contains_not.is_empty());
}

#[test]
fn add_round_records_and_narrow_filters() {
    let mut solver = solver();
    assert_eq!(solver.add_round("slate", "wwccc"), Ok(()));
    assert_eq!(solver.game_data().lines.len(), 1);
    // Recording alone leaves the candidates as they were.
    assert_eq!(solver.current_words().len(), 7);
    assert_eq!(solver.update_wordlist(), words(&["grate", "irate"]));
    solver.narrow();
    assert_eq!(solver.current_words(), &words(&["grate", "irate"]));
    assert_eq!(solver.all_words().len(), 7);
    assert_eq!(solver.add_round("grate", "wcccc"), Ok(()));
    solver.narrow();
    assert_eq!(solver.current_words(), &words(&["irate"]));
}

#[test]
fn narrowing_to_nothing_is_no_error() {
    let mut solver = solver();
    assert_eq!(solver.add_round("crane", "wwwww"), Ok(()));
    assert_eq!(solver.add_round("slate", "wwwww"), Ok(()));
    solver.narrow();
    assert!(solver.current_words().is_empty());
    solver.narrow();
    assert!(solver.current_words().is_empty());
}

#[test]
fn solved_game_is_won() {
    let mut solver = solver();
    assert_eq!(solver.add_round("crate", "wcccc"), Ok(()));
    assert!(!solver.is_game_won());
    assert_eq!(solver.get_solved_word(), None);
    assert_eq!(solver.add_round("irate", "ccccc"), Ok(()));
    assert!(solver.is_game_won());
    assert_eq!(solver.get_solved_word(), Some(String::from("irate")));
}

#[test]
fn weight_index_counts_the_rounds() {
    let mut solver = solver();
    assert_eq!(solver.weight_index(3), Ok(0));
    assert_eq!(solver.weight_index(0), Err(SolverError::EmptyWeightConfiguration));
    for _ in 0..2 {
        assert_eq!(solver.add_round("crane", "wwwwc"), Ok(()));
    }
    assert_eq!(solver.weight_index(3), Ok(2));
    for _ in 0..8 {
        assert_eq!(solver.add_round("crane", "wwwwc"), Ok(()));
    }
    assert_eq!(solver.game_data().lines.len(), 10);
    assert_eq!(solver.weight_index(3), Ok(2));
    assert_eq!(solver.weight_index(11), Ok(10));
}

#[test]
fn rank_words_without_weights_changes_nothing() {
    let mut solver = solver();
    assert_eq!(solver.add_round("slate", "wwccc"), Ok(()));
    let stats = LetterStats::from_words(&["crane", "slate", "trace"]);
    assert_eq!(solver.rank_words(&stats, 0).err(), Some(SolverError::EmptyWeightConfiguration));
    assert_eq!(solver.current_words().len(), 7);
}

#[test]
fn rank_words_narrows_and_scores() {
    let mut solver = solver();
    assert_eq!(solver.add_round("slate", "wwccc"), Ok(()));
    let stats = LetterStats::from_words(&["crane", "slate", "trace"]);
    let (index, scored) = solver.rank_words(&stats, 3).unwrap();
    assert_eq!(index, 1);
    assert_eq!(solver.current_words(), &words(&["grate", "irate"]));
    let names: Vec<&str> = scored.iter().map(|e| e.0.as_str()).collect();
    assert_eq!(names, vec!["grate", "irate"]);
    assert_eq!(scored[0].1.positional[1], Ratio { num: 2, den: 3 });
    assert_eq!(scored[1].1.positional[1], Ratio { num: 2, den: 3 });
    assert_eq!(scored[0].1.positional[0], Ratio { num: 0, den: 3 });
    assert_eq!(scored[0].1.overall[4], Ratio { num: 3, den: 15 });
    assert_eq!(scored[0].1.distinct, 5);
}
