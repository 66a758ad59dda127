//! Laying out the text of the letter statistics: every list of numbers on one line.

use crate::error::SolverError;
use crate::letters::{chars_of, letter_at, string_of};
use crate::text::{is_white_space, white_space};
use vstd::prelude::*;

verus! {

/// The regular expression for a list of whole numbers in square brackets, with any white
/// space around the numbers.
pub const LIST_PATTERN: &'static str = r"\[\s*((?:\d+,\s*)*\d+)\s*\]";

/// The words of `s`, that is its runs of characters other than white space, with one
/// space between each two.
pub open spec fn single_spaced(s: Seq<char>) -> Seq<char>
    decreases s.len(),
{
    if s.len() == 0 {
        s
    } else if is_white_space(s.last()) {
        single_spaced(s.drop_last())
    } else if s.len() > 1 && is_white_space(s[s.len() - 2]) && single_spaced(s.drop_last()).len()
        > 0 {
        single_spaced(s.drop_last()).push(' ').push(s.last())
    } else {
        single_spaced(s.drop_last()).push(s.last())
    }
}

/// A text in square brackets with its inside single-spaced; any other text as it is.
pub open spec fn list_on_one_line(found: Seq<char>) -> Seq<char> {
    if found.len() >= 2 && found.first() == '[' && found.last() == ']' {
        seq!['['] + single_spaced(found.subrange(1, found.len() - 1)) + seq![']']
    } else {
        found
    }
}

/// Writes a bracketed list on one line: the brackets stay, and what stands between them
/// is single-spaced. A text that is not in square brackets is handed back as it is.
pub fn join_list(found: &str) -> (joined: String)
    ensures
        joined@ == list_on_one_line(found@),
{
    let chars = chars_of(found);
    let n = chars.len();
    if n < 2 || chars[0] != '[' || chars[n - 1] != ']' {
        return found.to_owned();
    }
    let ghost inner = chars@.subrange(1, n - 1);
    let mut out: Vec<char> = Vec::new();
    out.push('[');
    let mut after_gap = false;
    let mut i: usize = 1;
    while i < n - 1
        invariant
            1 <= i <= n - 1,
            n == chars@.len(),
            inner == chars@.subrange(1, n - 1),
            out@ == seq!['['] + single_spaced(inner.take(i - 1)),
            after_gap == (i > 1 && is_white_space(chars@[i - 1])),
        decreases n - i,
    {
        let c = letter_at(&chars, i);
        assert(inner.take(i as int).drop_last() =~= inner.take(i - 1));
        let white = white_space(c);
        if !white {
            if after_gap && out.len() > 1 {
                out.push(' ');
            }
            out.push(c);
        }
        after_gap = white;
        i += 1;
    }
    assert(inner.take(n - 2) =~= inner);
    out.push(']');
    string_of(&out)
}

/// The text in which every match of the regular expression `pattern` stands on one
/// line, as `regex::Regex::replace_all` gives it when each match is replaced by
/// [`list_on_one_line`] of the match. The same pattern and text always give the same
/// result; nothing else is known of it.
pub uninterp spec fn with_matches_joined(pattern: Seq<char>, text: Seq<char>) -> Seq<char>;

/// `regex::Error`, the error of `regex::Regex::new`. Nothing is known of its values.
#[verifier::external_type_specification]
#[verifier::external_body]
pub struct ExRegexError(regex::Error);

/// `regex::Regex::new` on `pattern`, and `regex::Regex::replace_all` of the expression it
/// gives on `text`, with [`join_list`] of the whole match as the replacement. Where the
/// pattern is not accepted, the error of `Regex::new` comes back. Otherwise the contract
/// only gives the result its name, [`with_matches_joined`].
#[verifier::external_body]
fn join_matches(pattern: &str, text: &str) -> (out: Result<String, regex::Error>)
    ensures
        out is Ok ==> out.unwrap()@ == with_matches_joined(pattern@, text@),
{
    let expression = regex::Regex::new(pattern)?;
    Ok(expression.replace_all(text, |found: &regex::Captures| join_list(&found[0])).into_owned())
}

/// What is handed on of a rewriting: the text where there is one, and otherwise the one
/// error that the library has for an expression that was not accepted.
pub fn rewritten_or_error(outcome: Result<String, regex::Error>) -> (out: Result<
    String,
    SolverError,
>)
    ensures
        outcome is Ok ==> out is Ok && out.unwrap() == outcome.unwrap(),
        outcome is Err ==> out == Err::<String, SolverError>(SolverError::InvalidExpression),
{
    match outcome {
        Ok(text) => Ok(text),
        Err(_) => Err(SolverError::InvalidExpression),
    }
}

/// Rewrites `text` so that every list of numbers in it stands on one line, its numbers
/// separated by a comma and one space.
pub fn compact_lists(text: &str) -> (out: Result<String, SolverError>)
    ensures
        out is Ok ==> out.unwrap()@ == with_matches_joined(LIST_PATTERN@, text@),
        out is Err ==> out == Err::<String, SolverError>(SolverError::InvalidExpression),
{
    rewritten_or_error(join_matches(LIST_PATTERN, text))
}

} // verus!
