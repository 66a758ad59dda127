//! Letters, words and small sets of letters.

use vstd::prelude::*;

verus! {

/// A finite set of letters, kept in the order in which they were first inserted.
#[derive(Debug)]
pub struct LetterSet {
    items: Vec<char>,
}

impl View for LetterSet {
    type V = Set<char>;

    open spec fn view(&self) -> Set<char> {
        self.order().to_set()
    }
}

impl LetterSet {
    /// No letter is kept twice.
    #[verifier::type_invariant]
    spec fn no_letter_twice(self) -> bool {
        self.items@.no_duplicates()
    }

    /// The letters in insertion order.
    pub closed spec fn order(&self) -> Seq<char> {
        self.items@
    }

    /// The empty set.
    pub fn new() -> (s: LetterSet)
        ensures
            s.order() == Seq::<char>::empty(),
            s@ == Set::<char>::empty(),
    {
        LetterSet { items: Vec::new() }
    }

    /// Number of letters in the set.
    pub fn len(&self) -> (n: usize)
        ensures
            n == self.order().len(),
            n == self@.len(),
            self.order().no_duplicates(),
    {
        proof {
            use_type_invariant(self);
            self.items@.unique_seq_to_set();
        }
        self.items.len()
    }

    /// Whether the set has no letter.
    pub fn is_empty(&self) -> (empty: bool)
        ensures
            empty == (self@ == Set::<char>::empty()),
            empty == (self.order().len() == 0),
    {
        let empty = self.items.len() == 0;
        proof {
            if empty {
                assert(self@ =~= Set::<char>::empty());
            } else {
                assert(self@.contains(self.items@[0]));
            }
        }
        empty
    }

    /// The letter that was inserted as the `i`-th new one.
    pub fn letter(&self, i: usize) -> (c: char)
        requires
            i < self.order().len(),
        ensures
            c == self.order()[i as int],
            self@.contains(c),
    {
        self.items[i]
    }

    /// Whether `c` is in the set.
    pub fn contains(&self, c: char) -> (found: bool)
        ensures
            found == self@.contains(c),
    {
        let mut i: usize = 0;
        while i < self.items.len()
            invariant
                i <= self.items.len(),
                forall|j: int| 0 <= j < i ==> self.items@[j] != c,
            decreases self.items.len() - i,
        {
            if self.items[i] == c {
                return true;
            }
            i += 1;
        }
        false
    }

    /// Adds `c`; the result says whether it was new.
    pub fn insert(&mut self, c: char) -> (added: bool)
        ensures
            final(self)@ == old(self)@.insert(c),
            added == !old(self)@.contains(c),
            final(self).order() == if added {
                old(self).order().push(c)
            } else {
                old(self).order()
            },
    {
        proof {
            use_type_invariant(&*self);
        }
        if self.contains(c) {
            false
        } else {
            let ghost before = self.items@;
            let mut items: Vec<char> = Vec::new();
            core::mem::swap(&mut self.items, &mut items);
            items.push(c);
            self.items = items;
            assert(self.items@.to_set() =~= before.to_set().insert(c)) by {
                assert forall|x: char|
                    self.items@.to_set().contains(x) <==> before.to_set().insert(c).contains(
                        x,
                    ) by {
                    if before.contains(x) {
                        let j = choose|j: int| 0 <= j < before.len() && before[j] == x;
                        assert(self.items@[j] == x);
                    }
                    if x == c {
                        assert(self.items@[before.len() as int] == c);
                    }
                }
            }
            true
        }
    }

    /// The letters as a vector, in insertion order.
    pub fn to_vec(&self) -> (v: Vec<char>)
        ensures
            v@ == self.order(),
    {
        self.items.clone()
    }
}

impl Clone for LetterSet {
    fn clone(&self) -> (copy: LetterSet)
        ensures
            copy.order() == self.order(),
            copy@ == self@,
    {
        proof {
            use_type_invariant(self);
        }
        LetterSet { items: self.items.clone() }
    }
}

/// The letters of `s`, one element per character.
pub fn chars_of(s: &str) -> (v: Vec<char>)
    ensures
        v@ == s@,
{
    let mut v: Vec<char> = Vec::new();
    for c in it: s.chars()
        invariant
            it.seq() == s@,
            v@ == it.seq().take(it.index() as int),
    {
        v.push(c);
    }
    v
}

/// `String::push` of the standard library: the string afterwards is the string before with
/// the character `c` appended to it. Nothing else is claimed.
pub assume_specification[ String::push ](s: &mut String, c: char)
    ensures
        final(s)@ == old(s)@.push(c),
;

/// The string made of `letters` in order.
pub fn string_of(letters: &Vec<char>) -> (s: String)
    ensures
        s@ == letters@,
{
    let mut s = String::new();
    let mut i: usize = 0;
    while i < letters.len()
        invariant
            i <= letters.len(),
            s@ == letters@.take(i as int),
        decreases letters.len() - i,
    {
        s.push(letter_at(letters, i));
        i += 1;
    }
    s
}

/// The letter of `word` at position `i`.
pub fn letter_at(word: &Vec<char>, i: usize) -> (c: char)
    requires
        i < word@.len(),
    ensures
        c == word@[i as int],
{
    word[i]
}

/// Whether two strings have the same characters.
pub fn same_text(a: &str, b: &str) -> (same: bool)
    ensures
        same == (a@ == b@),
{
    let x = chars_of(a);
    let y = chars_of(b);
    if x.len() != y.len() {
        return false;
    }
    let mut i: usize = 0;
    while i < x.len()
        invariant
            i <= x.len(),
            x@.len() == y@.len(),
            x@ == a@,
            y@ == b@,
            forall|j: int| 0 <= j < i ==> x@[j] == y@[j],
        decreases x.len() - i,
    {
        if x[i] != y[i] {
            return false;
        }
        i += 1;
    }
    assert(x@ =~= y@);
    true
}

/// Whether some word of `words` has the characters `word`.
pub open spec fn lists(words: Seq<String>, word: Seq<char>) -> bool {
    exists|i: int| 0 <= i < words.len() && (#[trigger] words[i])@ == word
}

/// Whether `word` is one of `words`.
pub fn is_listed(words: &Vec<String>, word: &str) -> (found: bool)
    ensures
        found == lists(words@, word@),
{
    let mut i: usize = 0;
    while i < words.len()
        invariant
            i <= words.len(),
            forall|j: int| 0 <= j < i ==> (#[trigger] words@[j])@ != word@,
        decreases words.len() - i,
    {
        if same_text(words[i].as_str(), word) {
            return true;
        }
        i += 1;
    }
    false
}

/// Whether `c` occurs among the letters `w`.
pub open spec fn occurs(w: Seq<char>, c: char) -> bool {
    exists|j: int| 0 <= j < w.len() && w[j] == c
}

/// Whether `c` occurs among the letters of `word`.
pub fn has_letter(word: &Vec<char>, c: char) -> (found: bool)
    ensures
        found == occurs(word@, c),
{
    let mut i: usize = 0;
    while i < word.len()
        invariant
            i <= word.len(),
            forall|j: int| 0 <= j < i ==> word@[j] != c,
        decreases word.len() - i,
    {
        if word[i] == c {
            return true;
        }
        i += 1;
    }
    false
}

} // verus!
