use std::collections::{HashMap, HashSet};
use wordle_bot::filter::Filter;
use wordle_bot::game::GameData;
use wordle_bot::play::Play;

// Every word of five letters over a small alphabet.
fn all_words(alphabet: &[char]) -> Vec<String> {
    let mut words = vec![String::new()];
    for _ in 0..5 {
        let mut longer = Vec::new();
        for word in &words {
            for c in alphabet {
                let mut w = word.clone();
                w.push(*c);
                longer.push(w);
            }
        }
        words = longer;
    }
    words
}

// The verdicts by two passes over a table of letter counts.
fn counted_pattern(target: &str, guess: &str) -> String {
    let g: Vec<char> = guess.chars().collect();
    let t: Vec<char> = target.chars().collect();
    let mut states = ['w'; 5];
    let mut remaining: HashMap<char, usize> = HashMap::new();
    for c in &t {
        *remaining.entry(*c).or_insert(0) += 1;
    }
    for i in 0..5 {
        if g[i] == t[i] {
            states[i] = 'c';
            *remaining.get_mut(&g[i]).unwrap() -= 1;
        }
    }
    for i in 0..5 {
        if states[i] == 'c' {
            continue;
        }
        if let Some(count) = remaining.get_mut(&g[i]) {
            if *count > 0 {
                states[i] = 'm';
                *count -= 1;
            }
        }
    }
    states.iter().collect()
}

// A filter that works on plain sets and also asks for every required letter.
fn plain_filter(game: &GameData, words: &[String]) -> Vec<String> {
    let absent: HashSet<char> = game.contains_not.to_vec().into_iter().collect();
    let required: HashSet<char> = game.must_contain.to_vec().into_iter().collect();
    words
        .iter()
        .filter(|word| {
            let chars: Vec<char> = word.chars().collect();
            chars.iter().all(|c| !(absent.contains(c) && !required.contains(c)))
                && (0..5).all(|i| match game.correct_positions[i] {
                    Some(c) => chars[i] == c,
                    None => true,
                })
                && (0..5).all(|i| {
                    game.misplaced_letters[i]
                        .to_vec()
                        .iter()
                        .all(|m| chars[i] != *m && chars.contains(m))
                })
                && required.iter().all(|c| chars.contains(c))
        })
        .cloned()
        .collect()
}

#[test]
fn verdicts_agree_with_counting_over_two_letters() {
    let words = all_words(&['a', 'b']);
    for target in &words {
        let mut play = Play::with_target(words.clone(), target.clone());
        for guess in &words {
            let line = play.evaluate_word(guess);
            assert_eq!(play.get_pattern(&line), counted_pattern(target, guess));
        }
    }
}

#[test]
fn verdicts_agree_with_counting_over_three_letters() {
    let words = all_words(&['x', 'y', 'z']);
    for target in words.iter().step_by(7) {
        let mut play = Play::with_target(Vec::new(), target.clone());
        for guess in &words {
            let line = play.evaluate_word(guess);
            assert_eq!(play.get_pattern(&line), counted_pattern(target, guess));
        }
    }
}

#[test]
fn honest_games_filter_alike_with_or_without_required_letters() {
    let words = all_words(&['a', 'b', 'c']);
    for (n, target) in words.iter().enumerate().step_by(5) {
        let mut game = GameData::new();
        let mut before = words.len();
        for round in 0..4 {
            let guess = &words[(n * 31 + round * 97 + 13) % words.len()];
            game.add_line(guess, &counted_pattern(target, guess));
            let kept = Filter::new(&game, &words).filter_words();
            assert_eq!(kept, plain_filter(&game, &words));
            assert!(kept.contains(target));
            assert!(kept.len() <= before);
            before = kept.len();
            let again = Filter::new(&game, &kept).filter_words();
            assert_eq!(again, kept);
        }
    }
}
