use wordle_bot::letters::{chars_of, has_letter, is_listed, same_text, string_of};
use wordle_bot::text::{guess_of, normalized, text_lines, word_list};

fn lines(list: &[&str]) -> Vec<String> {
    list.iter().map(|w| w.to_string()).collect()
}

#[test]
fn chars_and_strings_convert_both_ways() {
    assert_eq!(chars_of("crâne"), vec!['c', 'r', 'â', 'n', 'e']);
    assert_eq!(chars_of(""), Vec::<char>::new());
    assert_eq!(string_of(&vec!['c', 'r', 'â', 'n', 'e']), "crâne");
    assert_eq!(string_of(&vec![]), "");
}

#[test]
fn same_text_compares_character_by_character() {
    assert!(same_text("crane", "crane"));
    assert!(same_text("", ""));
    assert!(!same_text("crane", "crank"));
    assert!(!same_text("crane", "cran"));
    assert!(!same_text("crane", "Crane"));
}

#[test]
fn has_letter_and_is_listed_search() {
    assert!(has_letter(&chars_of("crane"), 'n'));
    assert!(!has_letter(&chars_of("crane"), 'x'));
    let list = lines(&["crane", "slate"]);
    assert!(is_listed(&list, "slate"));
    assert!(!is_listed(&list, "trace"));
    assert!(!is_listed(&Vec::new(), "trace"));
}

#[test]
fn normalized_trims_and_lowers() {
    assert_eq!(normalized("  CRANE \n"), "crane");
    assert_eq!(normalized("\tSlate"), "slate");
    assert_eq!(normalized("crane"), "crane");
    assert_eq!(normalized("c r a n e"), "c r a n e");
    assert_eq!(normalized("   "), "");
    assert_eq!(normalized(""), "");
}

#[test]
fn guess_of_drops_white_space_and_keeps_five() {
    assert_eq!(guess_of(" C r A n E \n"), "crane");
    assert_eq!(guess_of("cranes"), "crane");
    assert_eq!(guess_of("ROBOTICS\r\n"), "robot");
    assert_eq!(guess_of("ab c"), "abc");
    assert_eq!(guess_of(" \t\n"), "");
    assert_eq!(guess_of(""), "");
}

#[test]
fn word_list_keeps_the_five_letter_entries() {
    let read = word_list(&lines(&["crane", " Slate ", "", "toolong", "abc", "TRACE\r", "  "]));
    assert_eq!(read, lines(&["crane", "slate", "trace"]));
}

#[test]
fn word_list_of_nothing_is_empty() {
    assert!(word_list(&Vec::new()).is_empty());
    assert!(word_list(&lines(&["", "ab", "abcdefg"])).is_empty());
}

#[test]
fn word_list_counts_characters_not_bytes() {
    let read = word_list(&lines(&["crâne", "café", "naïve"]));
    assert_eq!(read, lines(&["crâne", "naïve"]));
}

fn std_lines(text: &str) -> Vec<String> {
    text.lines().map(String::from).collect()
}

#[test]
fn text_lines_splits_at_line_endings() {
    assert_eq!(text_lines("crane\nslate\ntrace\n"), lines(&["crane", "slate", "trace"]));
    assert_eq!(text_lines("crane\r\nslate\r\ntrace"), lines(&["crane", "slate", "trace"]));
    assert_eq!(text_lines("a\n\nb"), lines(&["a", "", "b"]));
    assert_eq!(text_lines("\n"), lines(&[""]));
    assert_eq!(text_lines("\r\n"), lines(&[""]));
    assert_eq!(text_lines("a\rb"), lines(&["a\rb"]));
    assert_eq!(text_lines("a\r"), lines(&["a\r"]));
    assert_eq!(text_lines("a\r\r\n"), lines(&["a\r"]));
    assert_eq!(text_lines("no line ending"), lines(&["no line ending"]));
    assert!(text_lines("").is_empty());
}

#[test]
fn text_lines_agrees_with_the_standard_library() {
    let alphabet = ['a', '\n', '\r', ' '];
    let mut texts = vec![String::new()];
    let mut from = 0;
    for _ in 0..6 {
        let upto = texts.len();
        for k in from..upto {
            for c in alphabet.iter() {
                let mut longer = texts[k].clone();
                longer.push(*c);
                texts.push(longer);
            }
        }
        from = upto;
    }
    assert_eq!(texts.len(), 1 + 4 + 16 + 64 + 256 + 1024 + 4096);
    for text in &texts {
        assert_eq!(text_lines(text), std_lines(text));
    }
}

#[test]
fn word_list_of_a_text() {
    let read = word_list(&text_lines("crane\r\n Slate \nab\n\nTRACE"));
    assert_eq!(read, lines(&["crane", "slate", "trace"]));
}

// Strips white space from both ends, one character at a time.
fn stripped(text: &str) -> String {
    let mut chars: Vec<char> = text.chars().collect();
    while !chars.is_empty() && chars[0].is_whitespace() {
        chars.remove(0);
    }
    while !chars.is_empty() && chars[chars.len() - 1].is_whitespace() {
        chars.pop();
    }
    chars.into_iter().collect()
}

#[test]
fn normalized_strips_exactly_the_white_space_at_both_ends() {
    let alphabet = [' ', '\t', '\n', 'A', 'b', '\u{a0}', '\u{200b}', '\u{3000}'];
    let mut texts = vec![String::new()];
    let mut from = 0;
    for _ in 0..4 {
        let upto = texts.len();
        for k in from..upto {
            for c in alphabet.iter() {
                let mut longer = texts[k].clone();
                longer.push(*c);
                texts.push(longer);
            }
        }
        from = upto;
    }
    for text in &texts {
        assert_eq!(normalized(text), stripped(text).to_lowercase());
    }
}

#[test]
fn guess_of_drops_every_kind_of_white_space() {
    assert_eq!(guess_of("c\u{a0}r\u{3000}a\tn\ne"), "crane");
    // A zero-width space is no white space.
    assert_eq!(guess_of("c\u{200b}rane"), "c\u{200b}ran");
}
