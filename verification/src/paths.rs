//! Paths held as text, read the way `std::path::Path` reads a Unix path:
//! components separated by `/`, the file name, the extension.

use vstd::prelude::*;
use crate::pieces::split_str;
use crate::text::{rfind, rfind_str, slice_of, split, eq_str};

verus! {

/// The last component that names a file among `segs[..k]`; `.` and empty
/// segments are skipped and `..` names none.
pub open spec fn last_normal(segs: Seq<Seq<char>>, k: int) -> Option<Seq<char>>
    decreases k,
{
    if k <= 0 || k > segs.len() {
        None
    } else if segs[k - 1] == Seq::<char>::empty() || segs[k - 1] == "."@ {
        last_normal(segs, k - 1)
    } else if segs[k - 1] == ".."@ {
        None
    } else {
        Some(segs[k - 1])
    }
}

/// `Path::file_name`.
pub open spec fn file_name(p: Seq<char>) -> Option<Seq<char>> {
    last_normal(split(p, "/"@), split(p, "/"@).len() as int)
}

/// `Path::extension`: what follows the last `.` of the file name, unless that
/// dot starts the name.
pub open spec fn extension(p: Seq<char>) -> Option<Seq<char>> {
    match file_name(p) {
        Some(n) => match rfind(n, "."@) {
            Some(j) => if j == 0 {
                None
            } else {
                Some(n.skip(j + 1))
            },
            None => None,
        },
        None => None,
    }
}

pub fn file_name_exec(p: &Vec<char>) -> (r: Option<Vec<char>>)
    ensures
        match r {
            Some(v) => file_name(p@) == Some(v@),
            None => file_name(p@) is None,
        },
{
    proof {
        reveal_strlit("/");
    }
    let segs = split_str(p, "/");
    let ghost sv = segs@.map_values(|v: Vec<char>| v@);
    let mut k: usize = segs.len();
    while k > 0
        invariant
            k <= segs.len(),
            sv == segs@.map_values(|v: Vec<char>| v@),
            sv == split(p@, "/"@),
            last_normal(sv, k as int) == last_normal(sv, sv.len() as int),
        decreases k,
    {
        let s = &segs[k - 1];
        assert(sv[k - 1] == s@);
        if s.len() == 0 || eq_str(s, ".") {
            proof {
                if s.len() == 0 {
                    assert(sv[k - 1] =~= Seq::<char>::empty());
                }
            }
            k -= 1;
        } else if eq_str(s, "..") {
            return None;
        } else {
            return Some(s.clone());
        }
    }
    None
}

pub fn extension_exec(p: &Vec<char>) -> (r: Option<Vec<char>>)
    ensures
        match r {
            Some(v) => extension(p@) == Some(v@),
            None => extension(p@) is None,
        },
{
    match file_name_exec(p) {
        Some(n) => match rfind_str(&n, ".") {
            Some(j) => {
                if j == 0 {
                    None
                } else {
                    proof {
                        reveal_strlit(".");
                        crate::text::lemma_rfind_upto(n@, "."@, n@.len() - "."@.len());
                        assert(crate::text::occurs_at(n@, "."@, j as int));
                        assert(j + 1 <= n@.len());
                    }
                    let nlen = n.len();
                    let start: usize = j + 1;
                    Some(slice_of(&n, start, nlen))
                }
            },
            None => None,
        },
        None => None,
    }
}

} // verus!
