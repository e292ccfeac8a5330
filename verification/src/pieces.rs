//! Splitting and stripping, as `str::split`, `str::rsplit`, `str::strip_prefix`,
//! `str::trim_start_matches` and `str::trim_end_matches` define them.

use vstd::prelude::*;
use crate::text::{
    after_last, before_any, before_first, chars_of, find_any_from, find_from_exec, find_str,
    lemma_find_from, lemma_rfind_upto, occurs_at, rfind_upto, rfind_exec, slice_of, split, split_from, split_last,
    split_last_start, starts_with_str, strip_prefix_or_keep, trim_end_char, trim_start_matches,
};

verus! {

/// The first item of `t.split(p)`.
pub fn before_first_str(t: &Vec<char>, p: &str) -> (r: Vec<char>)
    ensures
        r@ == before_first(t@, p@),
{
    match find_str(t, p) {
        Some(j) => {
            proof {
                lemma_find_from(t@, p@, 0);
            }
            slice_of(t, 0, j)
        },
        None => t.clone(),
    }
}

/// The first item of `t.rsplit(p)`.
pub fn after_last_str(t: &Vec<char>, p: &str) -> (r: Vec<char>)
    ensures
        r@ == after_last(t@, p@),
{
    let pc = chars_of(p);
    match rfind_exec(t, &pc) {
        Some(j) => {
            proof {
                lemma_rfind_upto(t@, p@, t@.len() - p@.len());
                assert(rfind_upto(t@, p@, t@.len() - p@.len()) == Some(j as int));
                assert(occurs_at(t@, p@, j as int));
                assert(pc@.len() == p@.len());
                assert(j + pc@.len() <= t@.len());
            }
            let plen = pc.len();
            assert(t.len() == t@.len());
            assert(plen == pc@.len());
            let start: usize = j + plen;
            slice_of(t, start, t.len())
        },
        None => t.clone(),
    }
}

/// The last item of `t.split(p)` for a non-empty `p`.
pub fn split_last_str(t: &Vec<char>, p: &str) -> (r: Vec<char>)
    requires
        p@.len() > 0,
    ensures
        r@ == split_last(t@, p@),
{
    let pc = chars_of(p);
    let mut i: usize = 0;
    loop
        invariant
            pc@ == p@,
            pc@.len() > 0,
            i <= t.len(),
            split_last_start(t@, p@, i as int) == split_last_start(t@, p@, 0),
        decreases t.len() - i,
    {
        proof {
            lemma_find_from(t@, p@, i as int);
        }
        match find_from_exec(t, &pc, i) {
            Some(j) => {
                i = j + pc.len();
            },
            None => {
                return slice_of(t, i, t.len());
            },
        }
    }
}

/// The items of `t.split(p)` for a non-empty `p`.
pub fn split_str(t: &Vec<char>, p: &str) -> (r: Vec<Vec<char>>)
    requires
        p@.len() > 0,
    ensures
        r@.map_values(|v: Vec<char>| v@) == split(t@, p@),
{
    let pc = chars_of(p);
    let mut out: Vec<Vec<char>> = Vec::new();
    let mut i: usize = 0;
    loop
        invariant
            pc@ == p@,
            pc@.len() > 0,
            i <= t.len(),
            out@.map_values(|v: Vec<char>| v@) + split_from(t@, p@, i as int) == split(t@, p@),
        decreases t.len() - i,
    {
        proof {
            lemma_find_from(t@, p@, i as int);
        }
        match find_from_exec(t, &pc, i) {
            Some(j) => {
                let piece = slice_of(t, i, j);
                let ghost before = out@.map_values(|v: Vec<char>| v@);
                out.push(piece);
                proof {
                    assert(out@.map_values(|v: Vec<char>| v@) =~= before + seq![piece@]);
                }
                i = j + pc.len();
            },
            None => {
                let piece = slice_of(t, i, t.len());
                let ghost before = out@.map_values(|v: Vec<char>| v@);
                out.push(piece);
                proof {
                    assert(out@.map_values(|v: Vec<char>| v@) =~= before + seq![piece@]);
                }
                return out;
            },
        }
    }
}

/// The first item of `t.split(set)` where `set` lists the separator characters.
pub fn before_any_exec(t: &Vec<char>, set: &Vec<char>) -> (r: Vec<char>)
    ensures
        r@ == before_any(t@, set@),
{
    let mut i: usize = 0;
    while i < t.len()
        invariant
            i <= t.len(),
            find_any_from(t@, set@, i as int) == find_any_from(t@, set@, 0),
        decreases t.len() - i,
    {
        let mut k: usize = 0;
        let mut hit = false;
        while k < set.len()
            invariant
                k <= set.len(),
                i < t.len(),
                hit == (exists|m: int| 0 <= m < k && set@[m] == t@[i as int]),
            decreases set.len() - k,
        {
            if set[k] == t[i] {
                hit = true;
            }
            k += 1;
        }
        if hit {
            assert(set@.contains(t@[i as int]));
            return slice_of(t, 0, i);
        }
        assert(!set@.contains(t@[i as int]));
        i += 1;
    }
    t.clone()
}

/// `t.strip_prefix(p).unwrap_or(t)`.
pub fn strip_prefix_or_keep_str(t: &Vec<char>, p: &str) -> (r: Vec<char>)
    ensures
        r@ == strip_prefix_or_keep(t@, p@),
{
    if starts_with_str(t, p) {
        let pc = chars_of(p);
        slice_of(t, pc.len(), t.len())
    } else {
        t.clone()
    }
}

/// `t.trim_start_matches(p)` for a non-empty `p`.
pub fn trim_start_matches_str(t: &Vec<char>, p: &str) -> (r: Vec<char>)
    requires
        p@.len() > 0,
    ensures
        r@ == trim_start_matches(t@, p@),
{
    let mut cur = t.clone();
    loop
        invariant
            p@.len() > 0,
            trim_start_matches(cur@, p@) == trim_start_matches(t@, p@),
        decreases cur@.len(),
    {
        if starts_with_str(&cur, p) {
            let pc = chars_of(p);
            cur = slice_of(&cur, pc.len(), cur.len());
        } else {
            return cur;
        }
    }
}

/// `t.trim_end_matches(c)`.
pub fn trim_end_char_exec(t: &Vec<char>, c: char) -> (r: Vec<char>)
    ensures
        r@ == trim_end_char(t@, c),
{
    let mut n: usize = t.len();
    assert(t@.take(t@.len() as int) =~= t@);
    while n > 0 && t[n - 1] == c
        invariant
            n <= t.len(),
            trim_end_char(t@.take(n as int), c) == trim_end_char(t@, c),
        decreases n,
    {
        assert(t@.take(n as int).drop_last() =~= t@.take(n - 1));
        n -= 1;
    }
    assert(t@.take(t@.len() as int) =~= t@);
    slice_of(t, 0, n)
}

} // verus!
