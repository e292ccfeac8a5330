//! Source text: its characters, the byte offset of each character (the unit in
//! which the parser reports positions) and its lines.

use vstd::prelude::*;
use crate::text::{chars_of, find_from, find_from_exec, lemma_find_from, slice_of, trim_end};
use crate::text::trim_end_exec;
use crate::unicode::{lemma_utf8_len_bounds, lemma_utf8_len_take, utf8_len, utf8_width, utf8_width_exec};

verus! {

/// Byte offset at which character `k` of `s` starts in its UTF-8 encoding.
pub open spec fn byte_offset(s: Seq<char>, k: int) -> int {
    utf8_len(s.take(k)) as int
}

/// Byte position `b` starts a character or ends the text.
pub open spec fn is_boundary(s: Seq<char>, b: int) -> bool {
    exists|k: int| 0 <= k <= s.len() && byte_offset(s, k) == b
}

/// The character index at byte position `b` (meaningful when it is a boundary).
pub open spec fn char_at_byte(s: Seq<char>, b: int) -> int {
    choose|k: int| 0 <= k <= s.len() && byte_offset(s, k) == b
}

/// The text between byte positions `b1` and `b2`, as `str::get(b1..b2).unwrap_or("")`
/// gives it: empty unless both are character boundaries and `b1 <= b2`.
pub open spec fn byte_slice(s: Seq<char>, b1: int, b2: int) -> Seq<char> {
    if b1 <= b2 && is_boundary(s, b1) && is_boundary(s, b2) {
        s.subrange(char_at_byte(s, b1), char_at_byte(s, b2))
    } else {
        seq![]
    }
}

/// A slice of the text is no longer than the text.
pub proof fn lemma_byte_slice_len(s: Seq<char>, b1: int, b2: int)
    ensures
        byte_slice(s, b1, b2).len() <= s.len(),
{
    if b1 <= b2 && is_boundary(s, b1) && is_boundary(s, b2) {
        let k1 = char_at_byte(s, b1);
        let k2 = char_at_byte(s, b2);
        assert(0 <= k1 <= s.len() && byte_offset(s, k1) == b1);
        assert(0 <= k2 <= s.len() && byte_offset(s, k2) == b2);
        if k1 > k2 {
            lemma_offset_strict(s, k2, k1);
        }
    }
}

/// A line with a carriage return before its newline loses it.
pub open spec fn strip_cr(l: Seq<char>) -> Seq<char> {
    if l.len() > 0 && l.last() == '\r' {
        l.drop_last()
    } else {
        l
    }
}

/// The lines of `s` from position `i`, as `str::lines` yields them.
pub open spec fn lines_from(s: Seq<char>, i: int) -> Seq<Seq<char>>
    decreases s.len() - i,
{
    if i < 0 || i >= s.len() {
        seq![]
    } else {
        match find_from(s, seq!['\n'], i) {
            Some(j) => if i <= j < s.len() {
                seq![strip_cr(s.subrange(i, j))] + lines_from(s, j + 1)
            } else {
                seq![s.skip(i)]
            },
            None => seq![s.skip(i)],
        }
    }
}

pub open spec fn lines(s: Seq<char>) -> Seq<Seq<char>> {
    lines_from(s, 0)
}

/// Line `row` (0-based), or empty past the end (`lines().nth(row).unwrap_or("")`).
pub open spec fn line_at(s: Seq<char>, row: int) -> Seq<char> {
    if 0 <= row < lines(s).len() {
        lines(s)[row]
    } else {
        seq![]
    }
}

pub proof fn lemma_offset_step(s: Seq<char>, k: int)
    requires
        0 <= k < s.len(),
    ensures
        byte_offset(s, k + 1) == byte_offset(s, k) + utf8_width(s[k]),
{
    lemma_utf8_len_take(s, k);
}

/// Byte offsets grow strictly with the character index.
pub proof fn lemma_offset_strict(s: Seq<char>, a: int, b: int)
    requires
        0 <= a < b <= s.len(),
    ensures
        byte_offset(s, a) < byte_offset(s, b),
    decreases b - a,
{
    lemma_offset_step(s, b - 1);
    if a < b - 1 {
        lemma_offset_strict(s, a, b - 1);
    }
}

pub proof fn lemma_offset_unique(s: Seq<char>, a: int, b: int)
    requires
        0 <= a <= s.len(),
        0 <= b <= s.len(),
        byte_offset(s, a) == byte_offset(s, b),
    ensures
        a == b,
{
    if a < b {
        lemma_offset_strict(s, a, b);
    } else if b < a {
        lemma_offset_strict(s, b, a);
    }
}

/// A source file held as characters, with a table from byte offsets to
/// character indices and the file's lines.
pub struct SourceText {
    pub chars: Vec<char>,
    pub byte_index: Vec<Option<usize>>,
    pub lines: Vec<Vec<char>>,
}

impl SourceText {
    pub open spec fn wf(&self) -> bool {
        &&& 4 * self.chars@.len() + 1 <= usize::MAX
        &&& self.byte_index@.len() == utf8_len(self.chars@) + 1
        &&& forall|b: int|
            0 <= b < self.byte_index@.len() ==> match #[trigger] self.byte_index@[b] {
                Some(k) => 0 <= k <= self.chars@.len() && byte_offset(self.chars@, k as int)
                    == b,
                None => true,
            }
        &&& forall|k: int|
            0 <= k <= self.chars@.len() ==> self.byte_index@[byte_offset(self.chars@, k)]
                == Some(k as usize)
        &&& self.lines@.map_values(|l: Vec<char>| l@) == lines(self.chars@)
    }

    /// Prepares a source text for analysis.
    pub fn new(source: &str) -> (r: SourceText)
        requires
            4 * source@.len() + 1 <= usize::MAX,
        ensures
            r.wf(),
            r.chars@ == source@,
    {
        let chars = chars_of(source);
        let byte_index = byte_table(&chars);
        let lines = split_lines(&chars);
        SourceText { chars, byte_index, lines }
    }

    /// The text between two byte positions, `source.get(start..end).unwrap_or("")`.
    pub fn text(&self, start: usize, end: usize) -> (r: Vec<char>)
        requires
            self.wf(),
        ensures
            r@ == byte_slice(self.chars@, start as int, end as int),
    {
        let ghost s = self.chars@;
        if start > end || end >= self.byte_index.len() {
            proof {
                if start <= end && is_boundary(s, end as int) {
                    let k = choose|k: int| 0 <= k <= s.len() && byte_offset(s, k) == end;
                    if k < s.len() {
                        lemma_offset_strict(s, k, s.len() as int);
                    }
                    assert(s.take(s.len() as int) =~= s);
                }
            }
            return Vec::new();
        }
        match (self.byte_index[start], self.byte_index[end]) {
            (Some(k1), Some(k2)) => {
                proof {
                    assert(is_boundary(s, start as int));
                    assert(is_boundary(s, end as int));
                    let c1 = char_at_byte(s, start as int);
                    let c2 = char_at_byte(s, end as int);
                    lemma_offset_unique(s, c1, k1 as int);
                    lemma_offset_unique(s, c2, k2 as int);
                    if k2 < k1 {
                        lemma_offset_strict(s, k2 as int, k1 as int);
                    }
                }
                slice_of(&self.chars, k1, k2)
            },
            (a, b) => {
                proof {
                    if is_boundary(s, start as int) {
                        let k = choose|k: int| 0 <= k <= s.len() && byte_offset(s, k) == start;
                        assert(self.byte_index@[byte_offset(s, k)] == Some(k as usize));
                    }
                    if is_boundary(s, end as int) {
                        let k = choose|k: int| 0 <= k <= s.len() && byte_offset(s, k) == end;
                        assert(self.byte_index@[byte_offset(s, k)] == Some(k as usize));
                    }
                }
                Vec::new()
            },
        }
    }

    /// Line `row`, or empty past the end.
    pub fn line(&self, row: usize) -> (r: Vec<char>)
        requires
            self.wf(),
        ensures
            r@ == line_at(self.chars@, row as int),
    {
        if row < self.lines.len() {
            proof {
                assert(self.lines@.map_values(|l: Vec<char>| l@)[row as int] == self.lines@[row as int]@);
            }
            self.lines[row].clone()
        } else {
            Vec::new()
        }
    }

    /// Line `row` with trailing whitespace removed, if the text has that line
    /// (`lines().nth(row).map(|l| l.trim_end())`).
    pub fn snippet(&self, row: usize) -> (r: Option<Vec<char>>)
        requires
            self.wf(),
        ensures
            match r {
                Some(v) => 0 <= row < lines(self.chars@).len() && v@ == trim_end(
                    lines(self.chars@)[row as int],
                ),
                None => row >= lines(self.chars@).len(),
            },
    {
        if row < self.lines.len() {
            let l = self.line(row);
            Some(trim_end_exec(&l))
        } else {
            None
        }
    }
}

/// The byte-offset table of a character sequence.
fn byte_table(chars: &Vec<char>) -> (t: Vec<Option<usize>>)
    requires
        4 * chars@.len() + 1 <= usize::MAX,
    ensures
        t@.len() == utf8_len(chars@) + 1,
        forall|b: int|
            0 <= b < t@.len() ==> match #[trigger] t@[b] {
                Some(k) => 0 <= k <= chars@.len() && byte_offset(chars@, k as int) == b,
                None => true,
            },
        forall|k: int|
            0 <= k <= chars@.len() ==> t@[byte_offset(chars@, k)] == Some(k as usize),
{
    let ghost s = chars@;
    let mut t: Vec<Option<usize>> = Vec::new();
    let mut i: usize = 0;
    while i < chars.len()
        invariant
            i <= chars.len(),
            s == chars@,
            4 * s.len() + 1 <= usize::MAX,
            t@.len() == byte_offset(s, i as int),
            forall|b: int|
                0 <= b < t@.len() ==> match #[trigger] t@[b] {
                    Some(k) => 0 <= k < i && byte_offset(s, k as int) == b,
                    None => true,
                },
            forall|k: int| 0 <= k < i ==> t@[byte_offset(s, k)] == Some(k as usize),
        decreases chars.len() - i,
    {
        proof {
            lemma_offset_step(s, i as int);
            lemma_utf8_len_bounds(s.take(i as int));
        }
        let w = utf8_width_exec(chars[i]);
        let ghost base: int = t@.len() as int;
        let ghost prev = t@;
        t.push(Some(i));
        let mut m: usize = 1;
        while m < w
            invariant
                1 <= m <= w <= 4,
                t@.len() == base + m,
                base == byte_offset(s, i as int),
                i < s.len(),
                t@[base] == Some(i),
                prev.len() == base,
                forall|b: int|
                    0 <= b < base ==> t@[b] == prev[b],
                forall|b: int| base < b < t@.len() ==> t@[b] is None,
            decreases w - m,
        {
            t.push(None);
            m += 1;
        }
        proof {
            assert forall|k: int| 0 <= k < i + 1 implies t@[byte_offset(s, k)] == Some(k as usize) by {
                if k < i {
                    lemma_offset_strict(s, k, i as int);
                }
            }
            assert forall|b: int| 0 <= b < t@.len() implies match #[trigger] t@[b] {
                Some(k) => 0 <= k < i + 1 && byte_offset(s, k as int) == b,
                None => true,
            } by {
                if b < base {
                    assert(t@[b] == prev[b]);
                }
            }
        }
        i += 1;
    }
    proof {
        assert(s.take(s.len() as int) =~= s);
    }
    let ghost prev = t@;
    t.push(Some(chars.len()));
    proof {
        assert forall|k: int| 0 <= k <= s.len() implies t@[byte_offset(s, k)] == Some(
            k as usize,
        ) by {
            if k < s.len() {
                lemma_offset_strict(s, k, s.len() as int);
                assert(t@[byte_offset(s, k)] == prev[byte_offset(s, k)]);
            }
        }
        assert forall|b: int| 0 <= b < t@.len() implies match #[trigger] t@[b] {
            Some(k) => 0 <= k <= s.len() && byte_offset(s, k as int) == b,
            None => true,
        } by {
            if b < prev.len() {
                assert(t@[b] == prev[b]);
            }
        }
    }
    t
}

/// Splits text into lines as `str::lines` does.
fn split_lines(chars: &Vec<char>) -> (r: Vec<Vec<char>>)
    ensures
        r@.map_values(|l: Vec<char>| l@) == lines(chars@),
{
    let ghost s = chars@;
    let nl: Vec<char> = vec!['\n'];
    let mut out: Vec<Vec<char>> = Vec::new();
    let mut i: usize = 0;
    while i < chars.len()
        invariant
            i <= chars.len(),
            s == chars@,
            nl@ == seq!['\n'],
            out@.map_values(|l: Vec<char>| l@) + lines_from(s, i as int) == lines(s),
        decreases chars.len() - i,
    {
        proof {
            lemma_find_from(s, nl@, i as int);
        }
        let ghost before = out@.map_values(|l: Vec<char>| l@);
        match find_from_exec(chars, &nl, i) {
            Some(j) => {
                let mut piece = slice_of(chars, i, j);
                if piece.len() > 0 && piece[piece.len() - 1] == '\r' {
                    piece.pop();
                }
                out.push(piece);
                proof {
                    assert(out@.map_values(|l: Vec<char>| l@) =~= before + seq![
                        strip_cr(s.subrange(i as int, j as int)),
                    ]);
                }
                i = j + 1;
            },
            None => {
                let piece = slice_of(chars, i, chars.len());
                out.push(piece);
                proof {
                    assert(out@.map_values(|l: Vec<char>| l@) =~= before + seq![s.skip(i as int)]);
                    assert(lines_from(s, chars.len() as int) == Seq::<Seq<char>>::empty());
                }
                i = chars.len();
            },
        }
    }
    proof {
        assert(out@.map_values(|l: Vec<char>| l@) =~= lines(s));
    }
    out
}

} // verus!
