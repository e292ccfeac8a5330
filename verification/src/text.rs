//! Character-sequence primitives with exact specifications: searching,
//! trimming, splitting and line breaking, as `str` defines them.

use vstd::prelude::*;

verus! {

/// `p` occurs in `t` starting at position `i`.
pub open spec fn occurs_at(t: Seq<char>, p: Seq<char>, i: int) -> bool {
    0 <= i && i + p.len() <= t.len() && t.subrange(i, i + p.len()) == p
}

/// First occurrence of `p` in `t` at or after `i` (as `str::find` on the tail).
pub open spec fn find_from(t: Seq<char>, p: Seq<char>, i: int) -> Option<int>
    decreases t.len() - i,
{
    if i < 0 || i + p.len() > t.len() {
        None
    } else if occurs_at(t, p, i) {
        Some(i)
    } else if i >= t.len() {
        None
    } else {
        find_from(t, p, i + 1)
    }
}

pub open spec fn find(t: Seq<char>, p: Seq<char>) -> Option<int> {
    find_from(t, p, 0)
}

pub open spec fn contains(t: Seq<char>, p: Seq<char>) -> bool {
    find(t, p) is Some
}

/// Last occurrence of `p` in `t` starting at or before `i`.
pub open spec fn rfind_upto(t: Seq<char>, p: Seq<char>, i: int) -> Option<int>
    decreases i + 1,
{
    if i < 0 {
        None
    } else if occurs_at(t, p, i) {
        Some(i)
    } else {
        rfind_upto(t, p, i - 1)
    }
}

pub open spec fn rfind(t: Seq<char>, p: Seq<char>) -> Option<int> {
    rfind_upto(t, p, t.len() - p.len())
}

pub open spec fn starts_with(t: Seq<char>, p: Seq<char>) -> bool {
    p.len() <= t.len() && t.take(p.len() as int) == p
}

pub open spec fn ends_with(t: Seq<char>, p: Seq<char>) -> bool {
    p.len() <= t.len() && t.skip(t.len() - p.len()) == p
}

/// Number of non-overlapping matches of a non-empty `p` found scanning from `i`
/// (as `str::matches(p).count()` on the tail).
pub open spec fn count_from(t: Seq<char>, p: Seq<char>, i: int) -> nat
    decreases t.len() - i,
{
    if p.len() == 0 || i < 0 || i > t.len() {
        0
    } else {
        match find_from(t, p, i) {
            Some(j) => if i <= j && j + p.len() <= t.len() {
                1 + count_from(t, p, j + p.len())
            } else {
                0
            },
            None => 0,
        }
    }
}

pub open spec fn count_matches(t: Seq<char>, p: Seq<char>) -> nat {
    count_from(t, p, 0)
}

/// The Unicode `White_Space` property, which `char::is_whitespace` tests.
pub open spec fn is_ws(c: char) -> bool {
    let u = c as u32;
    (0x09 <= u <= 0x0d) || u == 0x20 || u == 0x85 || u == 0xa0 || u == 0x1680 || (0x2000
        <= u <= 0x200a) || u == 0x2028 || u == 0x2029 || u == 0x202f || u == 0x205f || u
        == 0x3000
}

/// Number of leading whitespace characters.
pub open spec fn lead_ws(t: Seq<char>) -> nat
    decreases t.len(),
{
    if t.len() > 0 && is_ws(t[0]) {
        1 + lead_ws(t.drop_first())
    } else {
        0
    }
}

/// Number of trailing whitespace characters.
pub open spec fn trail_ws(t: Seq<char>) -> nat
    decreases t.len(),
{
    if t.len() > 0 && is_ws(t.last()) {
        1 + trail_ws(t.drop_last())
    } else {
        0
    }
}

pub open spec fn trim_start(t: Seq<char>) -> Seq<char> {
    t.skip(lead_ws(t) as int)
}

pub open spec fn trim_end(t: Seq<char>) -> Seq<char> {
    t.take(t.len() - trail_ws(t))
}

pub open spec fn trim(t: Seq<char>) -> Seq<char> {
    trim_end(trim_start(t))
}

/// Text before the first occurrence of `p` (the first item of `str::split(p)`).
pub open spec fn before_first(t: Seq<char>, p: Seq<char>) -> Seq<char> {
    match find(t, p) {
        Some(j) => t.take(j),
        None => t,
    }
}

/// Text after the last occurrence of `p` (the first item of `str::rsplit(p)`).
pub open spec fn after_last(t: Seq<char>, p: Seq<char>) -> Seq<char> {
    match rfind(t, p) {
        Some(j) => t.skip(j + p.len()),
        None => t,
    }
}

/// Where the last item of `str::split(p)` starts, scanning non-overlapping
/// matches of a non-empty `p` from `i`.
pub open spec fn split_last_start(t: Seq<char>, p: Seq<char>, i: int) -> int
    decreases t.len() - i,
{
    if p.len() == 0 || i < 0 || i > t.len() {
        i
    } else {
        match find_from(t, p, i) {
            Some(j) => if i <= j && j + p.len() <= t.len() {
                split_last_start(t, p, j + p.len())
            } else {
                i
            },
            None => i,
        }
    }
}

/// The last item of `str::split(p)`.
pub open spec fn split_last(t: Seq<char>, p: Seq<char>) -> Seq<char> {
    t.skip(split_last_start(t, p, 0))
}

/// The items of `str::split(p)` for a non-empty `p`, scanning from `i`.
pub open spec fn split_from(t: Seq<char>, p: Seq<char>, i: int) -> Seq<Seq<char>>
    decreases t.len() - i,
{
    if p.len() == 0 || i < 0 || i > t.len() {
        seq![]
    } else {
        match find_from(t, p, i) {
            Some(j) => if i <= j && j + p.len() <= t.len() {
                seq![t.subrange(i, j)] + split_from(t, p, j + p.len())
            } else {
                seq![]
            },
            None => seq![t.skip(i)],
        }
    }
}

pub open spec fn split(t: Seq<char>, p: Seq<char>) -> Seq<Seq<char>> {
    split_from(t, p, 0)
}

/// Index of the first character of `t` that belongs to `set`, at or after `i`.
pub open spec fn find_any_from(t: Seq<char>, set: Seq<char>, i: int) -> Option<int>
    decreases t.len() - i,
{
    if i < 0 || i >= t.len() {
        None
    } else if set.contains(t[i]) {
        Some(i)
    } else {
        find_any_from(t, set, i + 1)
    }
}

/// The first item of `str::split` by a set of separator characters.
pub open spec fn before_any(t: Seq<char>, set: Seq<char>) -> Seq<char> {
    match find_any_from(t, set, 0) {
        Some(j) => t.take(j),
        None => t,
    }
}

/// `str::strip_prefix` that keeps the text when the prefix is absent.
pub open spec fn strip_prefix_or_keep(t: Seq<char>, p: Seq<char>) -> Seq<char> {
    if starts_with(t, p) {
        t.skip(p.len() as int)
    } else {
        t
    }
}

/// `str::trim_start_matches` for a non-empty `p`: strips every repetition of `p`.
pub open spec fn trim_start_matches(t: Seq<char>, p: Seq<char>) -> Seq<char>
    decreases t.len(),
{
    if p.len() > 0 && starts_with(t, p) {
        trim_start_matches(t.skip(p.len() as int), p)
    } else {
        t
    }
}

/// `str::trim_end_matches` for a single character.
pub open spec fn trim_end_char(t: Seq<char>, c: char) -> Seq<char>
    decreases t.len(),
{
    if t.len() > 0 && t.last() == c {
        trim_end_char(t.drop_last(), c)
    } else {
        t
    }
}

// ---------------------------------------------------------------------------
// Lemmas
// ---------------------------------------------------------------------------

pub proof fn lemma_find_from(t: Seq<char>, p: Seq<char>, i: int)
    requires
        0 <= i,
    ensures
        match find_from(t, p, i) {
            Some(j) => i <= j && occurs_at(t, p, j) && forall|k: int|
                i <= k < j ==> !occurs_at(t, p, k),
            None => forall|k: int| i <= k ==> !occurs_at(t, p, k),
        },
    decreases t.len() - i,
{
    if i < 0 || i + p.len() > t.len() {
    } else if occurs_at(t, p, i) {
    } else if i >= t.len() {
        assert(t.subrange(i, i + p.len()) =~= p);
    } else {
        lemma_find_from(t, p, i + 1);
    }
}

pub proof fn lemma_rfind_upto(t: Seq<char>, p: Seq<char>, i: int)
    ensures
        match rfind_upto(t, p, i) {
            Some(j) => j <= i && occurs_at(t, p, j) && forall|k: int|
                j < k <= i ==> !occurs_at(t, p, k),
            None => forall|k: int| k <= i ==> !occurs_at(t, p, k),
        },
    decreases i + 1,
{
    if i < 0 {
    } else if occurs_at(t, p, i) {
    } else {
        lemma_rfind_upto(t, p, i - 1);
    }
}

pub proof fn lemma_count_from_bound(t: Seq<char>, p: Seq<char>, i: int)
    requires
        0 <= i <= t.len(),
    ensures
        count_from(t, p, i) <= t.len() - i,
    decreases t.len() - i,
{
    lemma_find_from(t, p, i);
    if p.len() > 0 {
        match find_from(t, p, i) {
            Some(j) => {
                lemma_count_from_bound(t, p, j + p.len());
            },
            None => {},
        }
    }
}

// ---------------------------------------------------------------------------
// Executable counterparts
// ---------------------------------------------------------------------------

/// The characters of a string slice.
pub fn chars_of(s: &str) -> (r: Vec<char>)
    ensures
        r@ == s@,
{
    let mut r: Vec<char> = Vec::new();
    for c in it: s.chars()
        invariant
            r@ == it.seq().take(it.index() as int),
    {
        r.push(c);
    }
    r
}

/// A copy of `t[a..b]`.
pub fn slice_of(t: &Vec<char>, a: usize, b: usize) -> (r: Vec<char>)
    requires
        a <= b <= t.len(),
    ensures
        r@ == t@.subrange(a as int, b as int),
{
    let mut r: Vec<char> = Vec::new();
    let mut i: usize = a;
    while i < b
        invariant
            a <= i <= b <= t.len(),
            r@ == t@.subrange(a as int, i as int),
        decreases b - i,
    {
        r.push(t[i]);
        i += 1;
    }
    r
}

/// Concatenation of two character sequences.
pub fn concat(a: &Vec<char>, b: &Vec<char>) -> (r: Vec<char>)
    ensures
        r@ == a@ + b@,
{
    let mut r = a.clone();
    let mut i: usize = 0;
    while i < b.len()
        invariant
            i <= b.len(),
            r@ == a@ + b@.take(i as int),
        decreases b.len() - i,
    {
        r.push(b[i]);
        i += 1;
        assert(b@.take(i as int) == b@.take(i - 1) + seq![b@[i - 1]]);
    }
    assert(b@.take(b.len() as int) == b@);
    r
}

/// Appends the characters of a string slice.
pub fn push_str(r: &mut Vec<char>, s: &str)
    ensures
        final(r)@ == old(r)@ + s@,
{
    let c = chars_of(s);
    let joined = concat(r, &c);
    *r = joined;
}

/// Appends a character sequence.
pub fn push_chars(r: &mut Vec<char>, s: &Vec<char>)
    ensures
        final(r)@ == old(r)@ + s@,
{
    let joined = concat(r, s);
    *r = joined;
}

pub fn seq_eq(a: &Vec<char>, b: &Vec<char>) -> (r: bool)
    ensures
        r == (a@ == b@),
{
    if a.len() != b.len() {
        return false;
    }
    let mut i: usize = 0;
    while i < a.len()
        invariant
            a.len() == b.len(),
            i <= a.len(),
            forall|k: int| 0 <= k < i ==> a@[k] == b@[k],
        decreases a.len() - i,
    {
        if a[i] != b[i] {
            return false;
        }
        i += 1;
    }
    assert(a@ =~= b@);
    true
}

/// Equality with a string slice.
pub fn eq_str(a: &Vec<char>, s: &str) -> (r: bool)
    ensures
        r == (a@ == s@),
{
    let b = chars_of(s);
    seq_eq(a, &b)
}

pub fn occurs_at_exec(t: &Vec<char>, p: &Vec<char>, i: usize) -> (r: bool)
    ensures
        r == occurs_at(t@, p@, i as int),
{
    if i > t.len() || p.len() > t.len() - i {
        return false;
    }
    let mut k: usize = 0;
    while k < p.len()
        invariant
            i + p.len() <= t.len(),
            k <= p.len(),
            forall|m: int| 0 <= m < k ==> t@[i + m] == p@[m],
        decreases p.len() - k,
    {
        if t[i + k] != p[k] {
            assert(t@.subrange(i as int, i + p.len())[k as int] != p@[k as int]);
            return false;
        }
        k += 1;
    }
    assert(t@.subrange(i as int, i + p.len()) =~= p@);
    true
}

pub fn find_from_exec(t: &Vec<char>, p: &Vec<char>, start: usize) -> (r: Option<usize>)
    ensures
        match r {
            Some(j) => find_from(t@, p@, start as int) == Some(j as int),
            None => find_from(t@, p@, start as int) is None,
        },
{
    if start > t.len() || p.len() > t.len() - start {
        return None;
    }
    let mut i: usize = start;
    while i <= t.len() - p.len()
        invariant
            start <= i,
            p.len() <= t.len(),
            find_from(t@, p@, start as int) == find_from(t@, p@, i as int),
        decreases t.len() - i,
    {
        if occurs_at_exec(t, p, i) {
            return Some(i);
        }
        proof {
            if i >= t.len() {
                assert(t@.subrange(i as int, i + p@.len()) =~= p@);
            }
        }
        i += 1;
    }
    None
}

pub fn find_exec(t: &Vec<char>, p: &Vec<char>) -> (r: Option<usize>)
    ensures
        match r {
            Some(j) => find(t@, p@) == Some(j as int),
            None => find(t@, p@) is None,
        },
{
    find_from_exec(t, p, 0)
}

pub fn find_str(t: &Vec<char>, p: &str) -> (r: Option<usize>)
    ensures
        match r {
            Some(j) => find(t@, p@) == Some(j as int),
            None => find(t@, p@) is None,
        },
{
    let pc = chars_of(p);
    find_exec(t, &pc)
}

pub fn contains_exec(t: &Vec<char>, p: &Vec<char>) -> (r: bool)
    ensures
        r == contains(t@, p@),
{
    find_exec(t, p).is_some()
}

/// `str::contains` with a string-slice pattern.
pub fn contains_str(t: &Vec<char>, p: &str) -> (r: bool)
    ensures
        r == contains(t@, p@),
{
    let pc = chars_of(p);
    contains_exec(t, &pc)
}

pub fn rfind_exec(t: &Vec<char>, p: &Vec<char>) -> (r: Option<usize>)
    ensures
        match r {
            Some(j) => rfind(t@, p@) == Some(j as int),
            None => rfind(t@, p@) is None,
        },
{
    if p.len() > t.len() {
        proof {
            assert(rfind_upto(t@, p@, t@.len() - p@.len()) is None);
        }
        return None;
    }
    let mut i = t.len() - p.len();
    loop
        invariant
            i + p.len() <= t.len(),
            rfind(t@, p@) == rfind_upto(t@, p@, i as int),
        decreases i,
    {
        if occurs_at_exec(t, p, i) {
            return Some(i);
        }
        if i == 0 {
            assert(rfind_upto(t@, p@, -1) is None);
            return None;
        }
        i -= 1;
    }
}

pub fn rfind_str(t: &Vec<char>, p: &str) -> (r: Option<usize>)
    ensures
        match r {
            Some(j) => rfind(t@, p@) == Some(j as int),
            None => rfind(t@, p@) is None,
        },
{
    let pc = chars_of(p);
    rfind_exec(t, &pc)
}

pub fn starts_with_str(t: &Vec<char>, p: &str) -> (r: bool)
    ensures
        r == starts_with(t@, p@),
{
    let pc = chars_of(p);
    let r = occurs_at_exec(t, &pc, 0);
    proof {
        if r {
            assert(t@.take(pc@.len() as int) =~= t@.subrange(0, pc@.len() as int));
        } else if pc@.len() <= t@.len() {
            assert(t@.take(pc@.len() as int) =~= t@.subrange(0, pc@.len() as int));
        }
    }
    r
}

pub fn ends_with_str(t: &Vec<char>, p: &str) -> (r: bool)
    ensures
        r == ends_with(t@, p@),
{
    let pc = chars_of(p);
    if pc.len() > t.len() {
        return false;
    }
    let r = occurs_at_exec(t, &pc, t.len() - pc.len());
    proof {
        assert(t@.skip(t@.len() - pc@.len()) =~= t@.subrange(
            t@.len() - pc@.len(),
            t@.len() - pc@.len() + pc@.len(),
        ));
    }
    r
}

pub fn count_matches_str(t: &Vec<char>, p: &str) -> (r: usize)
    ensures
        r == count_matches(t@, p@),
{
    let pc = chars_of(p);
    if pc.len() == 0 {
        return 0;
    }
    let mut n: usize = 0;
    let mut i: usize = 0;
    while i <= t.len()
        invariant
            pc@.len() > 0,
            pc@ == p@,
            i <= t.len(),
            n + count_from(t@, pc@, i as int) == count_matches(t@, pc@),
            n <= i,
        decreases t.len() - i,
    {
        proof {
            lemma_find_from(t@, pc@, i as int);
        }
        match find_from_exec(t, &pc, i) {
            Some(j) => {
                n += 1;
                i = j + pc.len();
            },
            None => {
                assert(count_from(t@, pc@, i as int) == 0);
                return n;
            },
        }
    }
    n
}

pub fn is_ws_exec(c: char) -> (r: bool)
    ensures
        r == is_ws(c),
{
    let u = c as u32;
    (0x09 <= u && u <= 0x0d) || u == 0x20 || u == 0x85 || u == 0xa0 || u == 0x1680 || (0x2000
        <= u && u <= 0x200a) || u == 0x2028 || u == 0x2029 || u == 0x202f || u == 0x205f || u
        == 0x3000
}

pub proof fn lemma_lead_ws(t: Seq<char>, k: int)
    requires
        0 <= k <= t.len(),
        forall|m: int| 0 <= m < k ==> is_ws(t[m]),
        k == t.len() || !is_ws(t[k]),
    ensures
        lead_ws(t) == k,
    decreases k,
{
    if k > 0 {
        lemma_lead_ws(t.drop_first(), k - 1);
    }
}

pub proof fn lemma_trail_ws(t: Seq<char>, k: int)
    requires
        0 <= k <= t.len(),
        forall|m: int| t.len() - k <= m < t.len() ==> is_ws(t[m]),
        k == t.len() || !is_ws(t[t.len() - k - 1]),
    ensures
        trail_ws(t) == k,
    decreases k,
{
    if k > 0 {
        lemma_trail_ws(t.drop_last(), k - 1);
    }
}

pub fn trim_start_exec(t: &Vec<char>) -> (r: Vec<char>)
    ensures
        r@ == trim_start(t@),
{
    let mut i: usize = 0;
    while i < t.len() && is_ws_exec(t[i])
        invariant
            i <= t.len(),
            forall|m: int| 0 <= m < i ==> is_ws(t@[m]),
        decreases t.len() - i,
    {
        i += 1;
    }
    proof {
        lemma_lead_ws(t@, i as int);
    }
    slice_of(t, i, t.len())
}

pub fn trim_end_exec(t: &Vec<char>) -> (r: Vec<char>)
    ensures
        r@ == trim_end(t@),
{
    let mut k: usize = 0;
    while k < t.len() && is_ws_exec(t[t.len() - k - 1])
        invariant
            k <= t.len(),
            forall|m: int| t.len() - k <= m < t.len() ==> is_ws(t@[m]),
        decreases t.len() - k,
    {
        k += 1;
    }
    proof {
        lemma_trail_ws(t@, k as int);
    }
    slice_of(t, 0, t.len() - k)
}

/// `str::trim`.
pub fn trim_exec(t: &Vec<char>) -> (r: Vec<char>)
    ensures
        r@ == trim(t@),
{
    let s = trim_start_exec(t);
    trim_end_exec(&s)
}

} // verus!
