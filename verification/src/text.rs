//! Bringing typed lines and word-list entries into the form the game works with.

use crate::letters::{chars_of, letter_at, string_of};
use crate::ranking::string_views;
use vstd::prelude::*;

verus! {

/// The lowercase form of a string, as `str::to_lowercase` of the standard library gives
/// it: the same string always has the same lowercase form. Nothing else is known of it.
pub uninterp spec fn lowercase_of(s: Seq<char>) -> Seq<char>;

/// Whether a character is white space, as `char::is_whitespace` of the standard library
/// decides it: the answer depends on the character alone. Nothing else is known of it.
pub uninterp spec fn is_white_space(c: char) -> bool;

/// `s` without the white space at its start and at its end.
pub open spec fn trimmed(s: Seq<char>) -> Seq<char>
    decreases s.len(),
{
    if s.len() > 0 && is_white_space(s.first()) {
        trimmed(s.drop_first())
    } else if s.len() > 0 && is_white_space(s.last()) {
        trimmed(s.drop_last())
    } else {
        s
    }
}

/// `char::is_whitespace` of the standard library. The contract only gives the result its
/// name, [`is_white_space`].
#[verifier::external_body]
pub(crate) fn white_space(c: char) -> (white: bool)
    ensures
        white == is_white_space(c),
{
    c.is_whitespace()
}

/// `str::to_lowercase` of the standard library. The contract only gives the result its
/// name, [`lowercase_of`].
#[verifier::external_body]
fn lowercase(s: &str) -> (lower: String)
    ensures
        lower@ == lowercase_of(s@),
{
    s.to_lowercase()
}

/// `str::trim` of the standard library: the result is the string without its leading and
/// trailing characters that `char::is_whitespace` accepts.
#[verifier::external_body]
fn trim(s: &str) -> (inner: &str)
    ensures
        inner@ == trimmed(s@),
{
    s.trim()
}

/// The form in which a typed line is read: without white space around it, in lowercase.
pub open spec fn normal_form(line: Seq<char>) -> Seq<char> {
    lowercase_of(trimmed(line))
}

/// Strips the white space around `line` and makes it lowercase.
pub fn normalized(line: &str) -> (word: String)
    ensures
        word@ == normal_form(line@),
{
    lowercase(trim(line))
}

/// `s` without its white-space characters.
pub open spec fn without_white_space(s: Seq<char>) -> Seq<char> {
    s.filter(|c: char| !is_white_space(c))
}

/// The guess that a typed line stands for: its first five characters, once white space
/// is taken out and the rest is made lowercase.
pub open spec fn guess_form(line: Seq<char>) -> Seq<char> {
    let word = lowercase_of(without_white_space(line));
    if word.len() <= 5 {
        word
    } else {
        word.take(5)
    }
}

/// Takes the white space out of `line`, makes the rest lowercase and keeps its first
/// five characters.
pub fn guess_of(line: &str) -> (word: String)
    ensures
        word@ == guess_form(line@),
{
    let typed = chars_of(line);
    let mut kept: Vec<char> = Vec::new();
    let mut i: usize = 0;
    assert(kept@ == without_white_space(typed@.take(0))) by {
        reveal(Seq::filter);
    }
    while i < typed.len()
        invariant
            i <= typed.len(),
            kept@ == without_white_space(typed@.take(i as int)),
        decreases typed.len() - i,
    {
        let c = letter_at(&typed, i);
        proof {
            reveal(Seq::filter);
            assert(typed@.take(i + 1).drop_last() =~= typed@.take(i as int));
        }
        if !white_space(c) {
            kept.push(c);
        }
        i += 1;
    }
    assert(typed@.take(i as int) =~= typed@);
    let lower = lowercase(string_of(&kept).as_str());
    let letters = chars_of(lower.as_str());
    if letters.len() <= 5 {
        lower
    } else {
        let mut first: Vec<char> = Vec::new();
        let mut j: usize = 0;
        while j < 5
            invariant
                j <= 5,
                letters@.len() > 5,
                first@ == letters@.take(j as int),
            decreases 5 - j,
        {
            first.push(letter_at(&letters, j));
            j += 1;
        }
        string_of(&first)
    }
}

/// The number of characters of `s` before its first line feed; the length of `s` where it
/// has none.
pub open spec fn line_end(s: Seq<char>) -> int
    decreases s.len(),
{
    if s.len() == 0 || s.first() == '\n' {
        0
    } else {
        1 + line_end(s.drop_first())
    }
}

/// `line` without the carriage return at its end, if it has one there.
pub open spec fn without_return(line: Seq<char>) -> Seq<char> {
    if line.len() > 0 && line.last() == '\r' {
        line.drop_last()
    } else {
        line
    }
}

/// The lines of a text. A line ends with a line feed, or with a carriage return and a
/// line feed, which are not part of it; the last line may do without.
pub open spec fn lines_of(s: Seq<char>) -> Seq<Seq<char>>
    decreases s.len(),
{
    if s.len() == 0 {
        Seq::empty()
    } else if 0 <= line_end(s) < s.len() {
        seq![without_return(s.take(line_end(s)))] + lines_of(s.skip(line_end(s) + 1))
    } else {
        seq![s]
    }
}

/// Where the first line feed of `s` stands.
proof fn lemma_line_end(s: Seq<char>, k: int)
    requires
        0 <= k <= s.len(),
        forall|j: int| 0 <= j < k ==> s[j] != '\n',
        k < s.len() ==> s[k] == '\n',
    ensures
        line_end(s) == k,
    decreases s.len(),
{
    if k > 0 {
        let rest = s.drop_first();
        assert forall|j: int| 0 <= j < k - 1 implies rest[j] != '\n' by {
            assert(rest[j] == s[j + 1]);
        }
        lemma_line_end(rest, k - 1);
    }
}

/// Splits a text into its lines.
pub fn text_lines(content: &str) -> (lines: Vec<String>)
    ensures
        string_views(lines@) == lines_of(content@),
{
    let text = chars_of(content);
    let n = text.len();
    let mut lines: Vec<String> = Vec::new();
    let mut line: Vec<char> = Vec::new();
    let mut start: usize = 0;
    let mut i: usize = 0;
    assert(text@.skip(0) =~= text@);
    assert(string_views(lines@) + lines_of(text@.skip(0)) =~= lines_of(text@));
    while i < n
        invariant
            start <= i <= n,
            n == text@.len(),
            text@ == content@,
            line@ == text@.subrange(start as int, i as int),
            forall|j: int| start <= j < i ==> text@[j] != '\n',
            string_views(lines@) + lines_of(text@.skip(start as int)) == lines_of(text@),
        decreases n - i,
    {
        let c = letter_at(&text, i);
        if c == '\n' {
            let ghost rest = text@.skip(start as int);
            proof {
                assert forall|j: int| 0 <= j < i - start implies rest[j] != '\n' by {
                    assert(rest[j] == text@[start + j]);
                }
                lemma_line_end(rest, i - start);
                assert(rest.take(i - start) =~= line@);
                assert(rest.skip(i - start + 1) =~= text@.skip(i + 1));
            }
            let m = line.len();
            if m > 0 && line[m - 1] == '\r' {
                line.pop();
            }
            assert(line@ =~= without_return(rest.take(i - start)));
            let ghost before = lines@;
            lines.push(string_of(&line));
            proof {
                assert(string_views(lines@) =~= string_views(before).push(line@));
                assert(string_views(lines@) + lines_of(text@.skip(i + 1)) =~= string_views(before)
                    + lines_of(rest));
            }
            line = Vec::new();
            start = i + 1;
        } else {
            line.push(c);
        }
        i += 1;
    }
    proof {
        let rest = text@.skip(start as int);
        assert(rest =~= line@);
        if rest.len() > 0 {
            assert forall|j: int| 0 <= j < rest.len() implies rest[j] != '\n' by {
                assert(rest[j] == text@[start + j]);
            }
            lemma_line_end(rest, rest.len() as int);
        }
    }
    if line.len() > 0 {
        let ghost before = lines@;
        lines.push(string_of(&line));
        assert(string_views(lines@) =~= string_views(before).push(line@));
    }
    lines
}

/// The words that the lines of a word list stand for: each line in its normal form, and
/// of those the ones with five characters, in their order.
pub open spec fn listed_words(lines: Seq<Seq<char>>) -> Seq<Seq<char>> {
    lines.map_values(|line: Seq<char>| normal_form(line)).filter(|w: Seq<char>| w.len() == 5)
}

/// One more line: its normal form is appended if it has five characters.
pub proof fn lemma_listed_words_push(lines: Seq<Seq<char>>, line: Seq<char>)
    ensures
        listed_words(lines.push(line)) == if normal_form(line).len() == 5 {
            listed_words(lines).push(normal_form(line))
        } else {
            listed_words(lines)
        },
{
    reveal(Seq::filter);
    let f = |line: Seq<char>| normal_form(line);
    assert(lines.push(line).map_values(f).drop_last() =~= lines.map_values(f));
}

/// Reads a word list from its lines: strips the white space around each line, makes it
/// lowercase, and keeps the results that have five characters.
pub fn word_list(lines: &Vec<String>) -> (words: Vec<String>)
    ensures
        string_views(words@) == listed_words(string_views(lines@)),
        forall|i: int| 0 <= i < words@.len() ==> (#[trigger] words@[i])@.len() == 5,
{
    let ghost all = string_views(lines@);
    let mut words: Vec<String> = Vec::new();
    let mut i: usize = 0;
    assert(string_views(words@) =~= listed_words(all.take(0))) by {
        reveal(Seq::filter);
    }
    while i < lines.len()
        invariant
            i <= lines.len(),
            all == string_views(lines@),
            string_views(words@) == listed_words(all.take(i as int)),
            forall|j: int| 0 <= j < words@.len() ==> (#[trigger] words@[j])@.len() == 5,
        decreases lines.len() - i,
    {
        let word = normalized(lines[i].as_str());
        proof {
            lemma_listed_words_push(all.take(i as int), lines@[i as int]@);
            assert(all.take(i + 1) =~= all.take(i as int).push(lines@[i as int]@));
        }
        if word.as_str().unicode_len() == 5 {
            words.push(word);
        }
        i += 1;
    }
    assert(all.take(i as int) =~= all);
    words
}

} // verus!
