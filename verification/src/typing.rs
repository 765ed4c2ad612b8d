//! Judging a typing test: whether the text was typed as given, and how many
//! words it holds.

use vstd::prelude::*;
use crate::text::{char_is_space, chars_of, is_space, trim, trimmed};

verus! {

/// Whether a word starts at position `i` of `s`: a character that is no
/// white space, at the start or after white space.
pub open spec fn word_starts_at(s: Seq<char>, i: int) -> bool {
    0 <= i < s.len() && !is_space(s[i]) && (i == 0 || is_space(s[i - 1]))
}

/// How many words start among the first `n` characters of `s`.
pub open spec fn words_before(s: Seq<char>, n: int) -> nat
    decreases n,
{
    if n <= 0 {
        0
    } else if word_starts_at(s, n - 1) {
        words_before(s, n - 1) + 1
    } else {
        words_before(s, n - 1)
    }
}

/// How many words `s` holds: its runs of characters that are no white space.
pub open spec fn word_count(s: Seq<char>) -> nat {
    words_before(s, s.len() as int)
}

/// No more words start than there are characters.
pub proof fn lemma_words_before(s: Seq<char>, n: int)
    requires
        0 <= n <= s.len(),
    ensures
        words_before(s, n) <= n,
    decreases n,
{
    if n > 0 {
        lemma_words_before(s, n - 1);
    }
}

/// Counts the words of `text`.
pub fn count_words(text: &str) -> (r: usize)
    ensures
        r == word_count(text@),
{
    let chars = chars_of(text);
    let mut count: usize = 0;
    let mut after_space = true;
    let mut i: usize = 0;
    while i < chars.len()
        invariant
            i <= chars.len(),
            count == words_before(chars@, i as int),
            after_space == (i == 0 || is_space(chars@[i - 1])),
        decreases chars.len() - i,
    {
        proof {
            lemma_words_before(chars@, i as int);
        }
        let space = char_is_space(chars[i]);
        if !space && after_space {
            count = count + 1;
        }
        after_space = space;
        i = i + 1;
    }
    count
}

/// Whether `typed`, once trimmed, is `expected` to the letter.
pub fn typed_correctly(typed: &str, expected: &str) -> (r: bool)
    ensures
        r == (trimmed(typed@) == expected@),
{
    let typed_chars = chars_of(typed);
    let given = trim(typed_chars.as_slice());
    let wanted = chars_of(expected);
    if given.len() != wanted.len() {
        return false;
    }
    let mut i: usize = 0;
    while i < given.len()
        invariant
            i <= given.len(),
            given.len() == wanted.len(),
            given@ == trimmed(typed@),
            wanted@ == expected@,
            forall|k: int| 0 <= k < i ==> given@[k] == wanted@[k],
        decreases given.len() - i,
    {
        if given[i] != wanted[i] {
            assert(given@[i as int] != wanted@[i as int]);
            return false;
        }
        i = i + 1;
    }
    assert(given@ =~= wanted@);
    true
}

} // verus!
