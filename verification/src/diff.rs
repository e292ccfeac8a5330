//! Comparing against a baseline report: only findings the baseline does not
//! already hold are kept.

use vstd::prelude::*;
use crate::finding::{views, Finding, FindingView};
use crate::text::{chars_of, seq_eq};

verus! {

/// A finding's place in a baseline: file, line, rule.
pub open spec fn baseline_key(f: FindingView) -> (Seq<char>, int, Seq<char>) {
    (f.file, f.line, f.rule_id)
}

pub open spec fn baseline_keys(b: Seq<(String, usize, String)>) -> Seq<(Seq<char>, int, Seq<char>)> {
    b.map_values(|e: (String, usize, String)| (e.0@, e.1 as int, e.2@))
}

/// The findings whose key the baseline does not hold, in order.
pub open spec fn keep_new(fs: Seq<FindingView>, b: Seq<(Seq<char>, int, Seq<char>)>) -> Seq<FindingView>
    decreases fs.len(),
{
    if fs.len() == 0 {
        seq![]
    } else {
        keep_new(fs.drop_last(), b) + if b.contains(baseline_key(fs.last())) {
            seq![]
        } else {
            seq![fs.last()]
        }
    }
}

fn in_baseline(f: &Finding, baseline: &Vec<(String, usize, String)>) -> (r: bool)
    ensures
        r == baseline_keys(baseline@).contains(baseline_key(f@)),
{
    let file = chars_of(f.location.file.as_str());
    let rule = chars_of(f.rule_id);
    let ghost bk = baseline_keys(baseline@);
    let mut k: usize = 0;
    while k < baseline.len()
        invariant
            k <= baseline@.len(),
            bk == baseline_keys(baseline@),
            file@ == f@.file,
            rule@ == f@.rule_id,
            forall|m: int| 0 <= m < k ==> bk[m] != baseline_key(f@),
        decreases baseline@.len() - k,
    {
        let e = &baseline[k];
        assert(bk[k as int] == (e.0@, e.1 as int, e.2@));
        let ef = chars_of(e.0.as_str());
        let er = chars_of(e.2.as_str());
        if e.1 == f.location.line && seq_eq(&ef, &file) && seq_eq(&er, &rule) {
            return true;
        }
        k += 1;
    }
    false
}

/// Keeps only the findings whose file, line and rule the baseline does not
/// hold, in their order.
pub fn retain_new(findings: &mut Vec<Finding>, baseline: &Vec<(String, usize, String)>)
    ensures
        views(final(findings)@) == keep_new(views(old(findings)@), baseline_keys(baseline@)),
{
    let ghost fv = views(findings@);
    let ghost bk = baseline_keys(baseline@);
    let mut out: Vec<Finding> = Vec::new();
    let mut k: usize = 0;
    while k < findings.len()
        invariant
            k <= findings@.len(),
            fv == views(findings@),
            bk == baseline_keys(baseline@),
            views(out@) == keep_new(fv.take(k as int), bk),
        decreases findings@.len() - k,
    {
        proof {
            assert(fv.take(k + 1).drop_last() =~= fv.take(k as int));
        }
        let ghost o = views(out@);
        if !in_baseline(&findings[k], baseline) {
            out.push(findings[k].duplicate());
            assert(views(out@) =~= o + seq![fv[k as int]]);
        } else {
            assert(views(out@) =~= o + Seq::<FindingView>::empty());
        }
        k += 1;
    }
    assert(fv.take(findings@.len() as int) =~= fv);
    *findings = out;
}

/// Keeping the new findings twice keeps what keeping them once kept.
pub proof fn lemma_keep_new_idempotent(fs: Seq<FindingView>, b: Seq<(Seq<char>, int, Seq<char>)>)
    ensures
        keep_new(keep_new(fs, b), b) == keep_new(fs, b),
    decreases fs.len(),
{
    if fs.len() > 0 {
        lemma_keep_new_idempotent(fs.drop_last(), b);
        let k = keep_new(fs.drop_last(), b);
        if !b.contains(baseline_key(fs.last())) {
            assert(keep_new(fs, b) == k.push(fs.last()));
            assert(k.push(fs.last()).drop_last() =~= k);
        } else {
            assert(keep_new(fs, b) =~= k);
        }
    }
}

/// Every finding kept is absent from the baseline, and every finding of the
/// input that is absent from the baseline is kept.
pub proof fn lemma_keep_new_exact(fs: Seq<FindingView>, b: Seq<(Seq<char>, int, Seq<char>)>)
    ensures
        forall|f: FindingView| keep_new(fs, b).contains(f) <==> (fs.contains(f) && !b.contains(baseline_key(f))),
    decreases fs.len(),
{
    if fs.len() > 0 {
        lemma_keep_new_exact(fs.drop_last(), b);
        let k = keep_new(fs.drop_last(), b);
        assert forall|f: FindingView| keep_new(fs, b).contains(f) <==> (fs.contains(f) && !b.contains(baseline_key(f))) by {
            assert(fs =~= fs.drop_last().push(fs.last()));
            if fs.contains(f) && !fs.drop_last().contains(f) {
                assert(f == fs.last());
            }
            if !b.contains(baseline_key(fs.last())) {
                assert(keep_new(fs, b) == k.push(fs.last()));
                if k.push(fs.last()).contains(f) && f != fs.last() {
                    let j = choose|j: int| 0 <= j < k.push(fs.last()).len() && k.push(fs.last())[j] == f;
                    assert(k[j] == f);
                }
                if k.contains(f) {
                    let j = choose|j: int| 0 <= j < k.len() && k[j] == f;
                    assert(k.push(fs.last())[j] == f);
                }
                if f == fs.last() {
                    assert(k.push(fs.last())[k.len() as int] == f);
                }
            } else {
                assert(keep_new(fs, b) =~= k);
            }
            if fs.drop_last().contains(f) {
                let j = choose|j: int| 0 <= j < fs.drop_last().len() && fs.drop_last()[j] == f;
                assert(fs[j] == f);
            }
        }
    }
}

} // verus!
