use wordle_bot::filter::{all_five_letters, Filter};
use wordle_bot::game::GameData;
use wordle_bot::letters::chars_of;
use wordle_bot::play::Play;

fn words(list: &[&str]) -> Vec<String> {
    list.iter().map(|w| w.to_string()).collect()
}

fn filtered(game: &GameData, list: &[&str]) -> Vec<String> {
    let candidates = words(list);
    Filter::new(game, &candidates).filter_words()
}

#[test]
fn empty_model_keeps_every_word() {
    let game = GameData::new();
    assert_eq!(filtered(&game, &["crane", "slate", "trace"]), words(&["crane", "slate", "trace"]));
}

#[test]
fn all_absent_round_removes_the_guess() {
    let mut game = GameData::new();
    game.add_line("abcde", "wwwww");
    assert_eq!(filtered(&game, &["abcde", "fghij", "klmno"]), words(&["fghij", "klmno"]));
}

#[test]
fn absent_letter_anywhere_removes_the_word() {
    let mut game = GameData::new();
    game.add_line("zzzzq", "wwwww");
    assert_eq!(filtered(&game, &["quiet", "pique", "crane", "jazzy"]), words(&["crane"]));
}

#[test]
fn correct_letter_must_stand_at_its_position() {
    let mut game = GameData::new();
    game.add_line("crown", "cwwww");
    assert_eq!(filtered(&game, &["cable", "scale", "cease", "eclat"]), words(&["cable", "cease"]));
}

#[test]
fn misplaced_letter_must_move() {
    let mut game = GameData::new();
    game.add_line("axxxx", "mwwww");
    // `a` may not stand first, and it must stand somewhere.
    assert_eq!(
        filtered(&game, &["abide", "beach", "botch", "llama", "octal"]),
        words(&["beach", "llama", "octal"])
    );
}

#[test]
fn duplicate_letters_after_robot_against_arrow() {
    let mut game = GameData::new();
    game.add_line("robot", "mwwcw");
    // `o` is correct at position 3, so the absent `o` at position 1 forbids nothing.
    assert_eq!(
        filtered(&game, &["arrow", "error", "robot", "prior", "furor", "decor", "motor"]),
        words(&["arrow", "error", "prior", "furor", "decor"])
    );
}

#[test]
fn filtering_keeps_the_order_of_the_list() {
    let mut game = GameData::new();
    game.add_line("xxxxs", "wwwwc");
    assert_eq!(
        filtered(&game, &["zebus", "apple", "yards", "crane", "beets", "acids"]),
        words(&["zebus", "yards", "beets", "acids"])
    );
}

#[test]
fn contradictory_knowledge_leaves_no_word() {
    let mut game = GameData::new();
    game.add_line("crane", "cwwww");
    game.add_line("slate", "cwwww");
    game.add_line("crimp", "wwwww");
    let kept = filtered(&game, &["crane", "slate", "trace", "story"]);
    assert!(kept.is_empty());
}

#[test]
fn empty_candidate_list_stays_empty() {
    let mut game = GameData::new();
    game.add_line("crane", "cmwwc");
    assert!(filtered(&game, &[]).is_empty());
}

#[test]
fn filtering_twice_changes_nothing() {
    let mut game = GameData::new();
    game.add_line("crane", "wmwwc");
    game.add_line("route", "mwwwc");
    let list = ["purse", "horse", "rinse", "crane", "verse", "sabre", "forge", "merge"];
    let once = filtered(&game, &list);
    let refs: Vec<&str> = once.iter().map(|w| w.as_str()).collect();
    let twice = filtered(&game, &refs);
    assert_eq!(once, twice);
    assert_eq!(once, words(&["verse", "merge"]));
}

#[test]
fn filtering_never_adds_and_rounds_never_widen() {
    let list = ["crane", "slate", "trace", "grate", "irate", "stare", "store", "those"];
    let mut game = GameData::new();
    let mut before = filtered(&game, &list).len();
    assert_eq!(before, list.len());
    let rounds = [("slate", "mwwmc"), ("those", "cwmcc")];
    for (word, pattern) in rounds.iter() {
        game.add_line(word, pattern);
        let now = filtered(&game, &list).len();
        assert!(now <= before);
        before = now;
    }
    assert_eq!(filtered(&game, &list), Vec::<String>::new());
}

#[test]
fn round_over_a_known_position_can_widen() {
    // The one case in which a round lets more words through: it reports a known
    // position as correct with another letter.
    let mut game = GameData::new();
    game.add_line("axxxx", "cwwww");
    assert!(filtered(&game, &["booby"]).is_empty());
    game.add_line("bzzzz", "cwwww");
    assert_eq!(filtered(&game, &["booby"]), words(&["booby"]));
}

#[test]
fn helper_checks_agree_with_the_filter() {
    let mut game = GameData::new();
    game.add_line("crane", "cmwwc");
    let candidates = words(&["curse"]);
    let filter = Filter::new(&game, &candidates);
    let curse = chars_of("curse");
    assert!(filter.not_strictly_forbidden(&curse));
    assert!(filter.matches_correct_positions(&curse));
    assert!(filter.respects_misplaced_constraints(&curse));
    assert!(filter.contains_required_letters(&curse));
    let crane = chars_of("crane");
    assert!(!filter.not_strictly_forbidden(&crane));
    assert!(filter.matches_correct_positions(&crane));
    assert!(!filter.respects_misplaced_constraints(&crane));
    let chute = chars_of("chute");
    assert!(!filter.respects_misplaced_constraints(&chute));
    assert!(!filter.contains_required_letters(&chute));
    let purse = chars_of("purse");
    assert!(!filter.matches_correct_positions(&purse));
}

#[test]
fn narrowing_in_steps_equals_filtering_at_once() {
    let list = ["crane", "slate", "trace", "grate", "irate", "stare", "store", "those", "crate"];
    let mut game = GameData::new();
    let mut stepwise = words(&list);
    for (word, pattern) in [("slate", "wwccc"), ("trace", "mccwc")].iter() {
        game.add_line(word, pattern);
        stepwise = Filter::new(&game, &stepwise).filter_words();
        assert_eq!(stepwise, filtered(&game, &list));
    }
    assert_eq!(stepwise, words(&["grate", "irate"]));
}

#[test]
fn target_survives_every_honest_round() {
    let list = ["arrow", "robot", "error", "motor", "abbey", "babes", "eerie", "crane", "level"];
    for target in list.iter() {
        let mut play = Play::with_target(words(&list), target.to_string());
        for guess in list.iter() {
            assert_eq!(play.add_line(guess), Ok(()));
            let kept = filtered(play.game_data(), &list);
            assert!(kept.contains(&target.to_string()));
            for c in play.game_data().must_contain.to_vec() {
                assert!(!play.game_data().contains_not.contains(c));
                assert!(target.contains(c));
            }
        }
        assert!(play.game_data().is_solved());
        assert_eq!(play.game_data().solved_word(), Some(target.to_string()));
        assert_eq!(filtered(play.game_data(), &list), words(&[target]));
    }
}

#[test]
fn all_five_letters_counts_characters() {
    assert!(all_five_letters(&words(&["crane", "slate"])));
    assert!(all_five_letters(&words(&["crâne"])));
    assert!(all_five_letters(&[]));
    assert!(!all_five_letters(&words(&["crane", "cranes"])));
    assert!(!all_five_letters(&words(&["", "crane"])));
    assert!(!all_five_letters(&words(&["café"])));
}
