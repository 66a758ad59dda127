use wordle_bot::error::SolverError;
use wordle_bot::game::Feedback;
use wordle_bot::play::{GameResult, Play, GUESSES, TARGET_POOL_START};

fn words(list: &[&str]) -> Vec<String> {
    list.iter().map(|w| w.to_string()).collect()
}

fn pattern(target: &str, guess: &str) -> String {
    let mut play = Play::with_target(words(&[target, guess]), target.to_string());
    let line = play.evaluate_word(guess);
    assert_eq!(line.word, guess);
    let guessed: Vec<char> = guess.chars().collect();
    for i in 0..5 {
        assert_eq!(line.cells[i].letter, guessed[i]);
    }
    play.get_pattern(&line)
}

#[test]
fn exact_guess_is_all_correct() {
    assert_eq!(pattern("crane", "crane"), "ccccc");
}

#[test]
fn disjoint_guess_is_all_absent() {
    assert_eq!(pattern("crane", "moist"), "wwwww");
}

#[test]
fn plain_mix_of_verdicts() {
    assert_eq!(pattern("crane", "trace"), "wccmc");
    assert_eq!(pattern("crane", "nacre"), "mmmmc");
}

#[test]
fn robot_against_arrow() {
    assert_eq!(pattern("arrow", "robot"), "mwwcw");
}

#[test]
fn exact_hits_are_served_before_misplaced_ones() {
    assert_eq!(pattern("abbey", "babes"), "mmccw");
    assert_eq!(pattern("crane", "eerie"), "wwmwc");
}

#[test]
fn more_copies_than_the_target_has() {
    assert_eq!(pattern("sheep", "eeeee"), "wwccw");
    assert_eq!(pattern("crane", "eeeex"), "mwwww");
    assert_eq!(pattern("level", "hello"), "wcmmw");
    assert_eq!(pattern("hello", "level"), "mcwwm");
}

#[test]
fn evaluate_word_leaves_the_game_alone() {
    let mut play = Play::with_target(words(&["arrow", "robot"]), String::from("arrow"));
    let line = play.evaluate_word("robot");
    assert_eq!(line.cells[0].state, Feedback::Misplaced);
    assert_eq!(line.cells[3].state, Feedback::Correct);
    assert!(play.game_data().lines.is_empty());
    assert_eq!(play.result(), GameResult::Ongoing);
    assert_eq!(play.word(), "arrow");
}

#[test]
fn new_game_with_a_target() {
    let play = Play::with_target(words(&["arrow", "robot"]), String::from("arrow"));
    assert_eq!(play.word(), "arrow");
    assert_eq!(play.result(), GameResult::Ongoing);
    assert!(play.can_continue());
    assert!(play.game_data().lines.is_empty());
    assert_eq!(GUESSES, 6);
}

#[test]
fn new_draws_the_target_from_the_pool() {
    let mut list = vec![String::from("aaaaa"); TARGET_POOL_START];
    list.push(String::from("arrow"));
    list.push(String::from("robot"));
    for _ in 0..20 {
        let play = Play::new(list.clone());
        assert!(play.word() == "arrow" || play.word() == "robot");
        assert_eq!(play.result(), GameResult::Ongoing);
        assert!(play.game_data().lines.is_empty());
    }
}

#[test]
fn add_line_cleans_judges_and_records() {
    let mut play = Play::with_target(words(&["arrow", "robot"]), String::from("arrow"));
    assert_eq!(play.add_line(" R o b o t\n"), Ok(()));
    let game = play.game_data();
    assert_eq!(game.lines.len(), 1);
    assert_eq!(game.lines[0].word, "robot");
    assert_eq!(play.get_pattern(&game.lines[0]), "mwwcw");
    assert_eq!(game.correct_positions, [None, None, None, Some('o'), None]);
    assert!(game.misplaced_letters[0].contains('r'));
    assert!(game.must_contain.contains('o'));
    assert!(game.must_contain.contains('r'));
    assert!(!game.contains_not.contains('o'));
    assert!(game.contains_not.contains('b'));
    assert!(game.contains_not.contains('t'));
    assert_eq!(game.contains_not.len(), 2);
}

#[test]
fn add_line_takes_the_first_five_letters() {
    let mut play = Play::with_target(words(&["arrow", "robot"]), String::from("arrow"));
    assert_eq!(play.add_line("robotics"), Ok(()));
    assert_eq!(play.game_data().lines[0].word, "robot");
}

#[test]
fn add_line_turns_down_short_and_unknown_words() {
    let mut play = Play::with_target(words(&["arrow", "robot"]), String::from("arrow"));
    assert_eq!(play.add_line("abc"), Err(SolverError::InvalidWordLength));
    assert_eq!(play.add_line(""), Err(SolverError::InvalidWordLength));
    assert_eq!(play.add_line("crane"), Err(SolverError::UnknownWord));
    assert!(play.game_data().lines.is_empty());
    assert!(play.can_continue());
}

#[test]
fn guessing_the_target_wins() {
    let mut play = Play::with_target(words(&["arrow", "robot"]), String::from("arrow"));
    assert_eq!(play.add_line("robot"), Ok(()));
    assert_eq!(play.update_result(), GameResult::Ongoing);
    assert!(play.can_continue());
    assert_eq!(play.add_line("arrow"), Ok(()));
    assert_eq!(play.update_result(), GameResult::Win);
    assert_eq!(play.result(), GameResult::Win);
    assert!(!play.can_continue());
    assert!(play.game_data().is_solved());
}

#[test]
fn running_out_of_guesses_loses() {
    let mut play = Play::with_target(words(&["arrow", "robot"]), String::from("arrow"));
    for turn in 1..=6 {
        assert!(play.can_continue());
        assert_eq!(play.add_line("robot"), Ok(()));
        let result = play.update_result();
        if turn < 6 {
            assert_eq!(result, GameResult::Ongoing);
        } else {
            assert_eq!(result, GameResult::Lose);
        }
    }
    assert!(!play.can_continue());
    assert_eq!(play.game_data().lines.len(), 6);
}

#[test]
fn winning_with_the_last_guess_is_a_win() {
    let mut play = Play::with_target(words(&["arrow", "robot"]), String::from("arrow"));
    for _ in 0..5 {
        assert_eq!(play.add_line("robot"), Ok(()));
        assert_eq!(play.update_result(), GameResult::Ongoing);
    }
    assert_eq!(play.add_line("arrow"), Ok(()));
    assert_eq!(play.update_result(), GameResult::Win);
}

#[test]
fn update_result_before_any_guess_changes_nothing() {
    let mut play = Play::with_target(words(&["arrow"]), String::from("arrow"));
    assert_eq!(play.update_result(), GameResult::Ongoing);
}

#[test]
fn reset_forgets_word_and_guesses() {
    let mut play = Play::with_target(words(&["arrow", "robot"]), String::from("arrow"));
    assert_eq!(play.add_line("robot"), Ok(()));
    play.reset();
    assert_eq!(play.word(), "");
    assert!(play.game_data().lines.is_empty());
    assert!(play.game_data().must_contain.is_empty());
    assert_eq!(play.game_data().correct_positions, [None, None, None, None, None]);
}
