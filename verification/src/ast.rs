//! Text helpers the rules share: word-bounded search and line access.

use vstd::prelude::*;
use crate::source::{line_at, SourceText};
use crate::text::{chars_of, occurs_at, occurs_at_exec};
use crate::unicode::{alphanumeric, is_alphanumeric, string_of};

verus! {

pub open spec fn is_word_char(c: char) -> bool {
    alphanumeric(c) || c == '_'
}

/// `w` occurs in `t` at `i` as a whole word: no word character right before
/// or right after it.
pub open spec fn word_at(t: Seq<char>, w: Seq<char>, i: int) -> bool {
    &&& occurs_at(t, w, i)
    &&& (i == 0 || !is_word_char(t[i - 1]))
    &&& (i + w.len() == t.len() || !is_word_char(t[i + w.len()]))
}

/// `w` occurs in `t` as a whole word.
pub open spec fn has_word(t: Seq<char>, w: Seq<char>) -> bool {
    exists|i: int| word_at(t, w, i)
}

pub fn is_word_char_exec(c: char) -> (r: bool)
    ensures
        r == is_word_char(c),
{
    is_alphanumeric(c) || c == '_'
}

/// Whether `w` occurs in `t` as a whole word.
pub fn has_word_exec(t: &Vec<char>, w: &Vec<char>) -> (r: bool)
    ensures
        r == has_word(t@, w@),
{
    if w.len() > t.len() {
        assert forall|i: int| !word_at(t@, w@, i) by {}
        return false;
    }
    let last = t.len() - w.len();
    let mut i: usize = 0;
    while i <= last
        invariant
            w@.len() <= t@.len(),
            last == t@.len() - w@.len(),
            forall|j: int| 0 <= j < i ==> !word_at(t@, w@, j),
        decreases last + 1 - i,
    {
        if occurs_at_exec(t, w, i) {
            let before_ok = i == 0 || !is_word_char_exec(t[i - 1]);
            let end = t.len() - (last - i);
            let after_ok = end == t.len() || !is_word_char_exec(t[end]);
            if before_ok && after_ok {
                assert(word_at(t@, w@, i as int));
                return true;
            }
        }
        if i == last {
            assert forall|j: int| !word_at(t@, w@, j) by {
                if 0 <= j && j < i {
                } else if j > last as int {
                    assert(!occurs_at(t@, w@, j));
                }
            }
            return false;
        }
        i += 1;
    }
    false
}

/// Word-bounded containment: `word` occurs in `text` with no word character
/// (alphanumeric or `_`) right before or after it.
pub fn contains_word(text: &str, word: &str) -> (r: bool)
    ensures
        r == has_word(text@, word@),
{
    let t = chars_of(text);
    let w = chars_of(word);
    has_word_exec(&t, &w)
}

/// Line `row` (0-based) of the source, or empty past the end.
pub fn line_of(source: &SourceText, row: usize) -> (r: String)
    requires
        source.wf(),
    ensures
        r@ == line_at(source.chars@, row as int),
{
    let l = source.line(row);
    string_of(&l)
}

} // verus!
