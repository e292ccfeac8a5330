//! Decisions behind the command line: formats, severity filters, rule
//! selection, the rule listing, and the exit status.

use vstd::prelude::*;
use crate::finding::{severity_display_label, severity_rank, views, Finding, FindingView, Severity};
use crate::rule::Rule;
use crate::text::{chars_of, eq_str, push_str};
use crate::unicode::{ascii_lower, is_ascii_text, lowercase, string_of, to_lowercase};

verus! {

/// The report formats: `text`, `json`, `md`.
pub open spec fn is_format(f: Seq<char>) -> bool {
    f == "text"@ || f == "json"@ || f == "md"@
}

pub fn valid_format(f: &str) -> (r: bool)
    ensures
        r == is_format(f@),
{
    let c = chars_of(f);
    eq_str(&c, "text") || eq_str(&c, "json") || eq_str(&c, "md")
}

/// The severity a name gives, case-insensitively.
pub open spec fn severity_named(s: Seq<char>) -> Option<Severity> {
    severity_of_lower(lowercase(s))
}

/// The severity a lower-case name gives.
pub open spec fn severity_of_lower(l: Seq<char>) -> Option<Severity> {
    if l == "error"@ {
        Some(Severity::Error)
    } else if l == "warning"@ {
        Some(Severity::Warning)
    } else if l == "info"@ {
        Some(Severity::Info)
    } else {
        None
    }
}

/// `error`, `warning` or `info`, in any case.
pub fn parse_severity(s: &str) -> (r: Option<Severity>)
    ensures
        r == severity_named(s@),
        is_ascii_text(s@) ==> r == severity_of_lower(s@.map_values(|c: char| ascii_lower(c))),
{
    let l = to_lowercase(&chars_of(s));
    if eq_str(&l, "error") {
        Some(Severity::Error)
    } else if eq_str(&l, "warning") {
        Some(Severity::Warning)
    } else if eq_str(&l, "info") {
        Some(Severity::Info)
    } else {
        None
    }
}

/// The findings at least as severe as `min` (error is the most severe), in order.
pub open spec fn at_least(fs: Seq<FindingView>, min: Severity) -> Seq<FindingView>
    decreases fs.len(),
{
    if fs.len() == 0 {
        seq![]
    } else {
        at_least(fs.drop_last(), min) + if severity_rank(fs.last().severity) <= severity_rank(min) {
            seq![fs.last()]
        } else {
            seq![]
        }
    }
}

/// Drops the findings less severe than `min`.
pub fn keep_at_least(findings: &mut Vec<Finding>, min: Severity)
    ensures
        views(final(findings)@) == at_least(views(old(findings)@), min),
{
    let ghost fv = views(findings@);
    let mut out: Vec<Finding> = Vec::new();
    let mut k: usize = 0;
    while k < findings.len()
        invariant
            k <= findings@.len(),
            fv == views(findings@),
            views(out@) == at_least(fv.take(k as int), min),
        decreases findings@.len() - k,
    {
        proof {
            assert(fv.take(k + 1).drop_last() =~= fv.take(k as int));
        }
        let ghost o = views(out@);
        if findings[k].severity.rank() <= min.rank() {
            out.push(findings[k].duplicate());
            assert(views(out@) =~= o + seq![fv[k as int]]);
        } else {
            assert(views(out@) =~= o + Seq::<FindingView>::empty());
        }
        k += 1;
    }
    assert(fv.take(findings@.len() as int) =~= fv);
    *findings = out;
}

/// The severity filter keeps exactly the findings at least as severe as
/// `min`: each kept finding is, and each such finding is kept.
pub proof fn lemma_at_least_exact(fs: Seq<FindingView>, min: Severity)
    ensures
        forall|i: int|
            0 <= i < at_least(fs, min).len() ==> severity_rank((#[trigger] at_least(fs, min)[i]).severity)
                <= severity_rank(min),
        forall|i: int|
            0 <= i < fs.len() && severity_rank(fs[i].severity) <= severity_rank(min) ==> at_least(
                fs,
                min,
            ).contains(#[trigger] fs[i]),
    decreases fs.len(),
{
    if fs.len() > 0 {
        let d = fs.drop_last();
        lemma_at_least_exact(d, min);
        let p = at_least(d, min);
        let t = if severity_rank(fs.last().severity) <= severity_rank(min) {
            seq![fs.last()]
        } else {
            seq![]
        };
        assert(at_least(fs, min) == p + t);
        assert forall|i: int| 0 <= i < (p + t).len() implies severity_rank(
            (#[trigger] (p + t)[i]).severity,
        ) <= severity_rank(min) by {
            if i < p.len() {
                assert((p + t)[i] == p[i]);
            }
        }
        assert forall|i: int|
            0 <= i < fs.len() && severity_rank(fs[i].severity) <= severity_rank(min) implies (p
                + t).contains(#[trigger] fs[i]) by {
            if i < d.len() {
                assert(d[i] == fs[i]);
                assert(p.contains(d[i]));
                let j = choose|j: int| 0 <= j < p.len() && p[j] == d[i];
                assert((p + t)[j] == p[j]);
            } else {
                assert((p + t)[p.len() as int] == fs.last());
            }
        }
    }
}

/// Filtering by severity a second time changes nothing.
pub proof fn lemma_at_least_idempotent(fs: Seq<FindingView>, min: Severity)
    ensures
        at_least(at_least(fs, min), min) == at_least(fs, min),
    decreases fs.len(),
{
    if fs.len() > 0 {
        lemma_at_least_idempotent(fs.drop_last(), min);
        let a = at_least(fs.drop_last(), min);
        if severity_rank(fs.last().severity) <= severity_rank(min) {
            let r = a + seq![fs.last()];
            assert(r.drop_last() =~= a);
            assert(r.last() == fs.last());
        } else {
            assert(a + Seq::<FindingView>::empty() =~= a);
        }
    }
}

/// Some finding is an error (the run then fails).
pub open spec fn has_error(fs: Seq<FindingView>) -> bool {
    exists|k: int| 0 <= k < fs.len() && fs[k].severity == Severity::Error
}

pub fn has_errors(findings: &Vec<Finding>) -> (r: bool)
    ensures
        r == has_error(views(findings@)),
{
    let mut k: usize = 0;
    while k < findings.len()
        invariant
            k <= findings@.len(),
            forall|m: int| 0 <= m < k ==> views(findings@)[m].severity != Severity::Error,
        decreases findings@.len() - k,
    {
        assert(views(findings@)[k as int] == findings@[k as int]@);
        if findings[k].severity == Severity::Error {
            return true;
        }
        k += 1;
    }
    false
}

/// The rule ids of `rules`, in order.
pub open spec fn rule_ids<R: Rule>(rules: Seq<R>) -> Seq<Seq<char>> {
    rules.map_values(|r: R| r.spec_id())
}

/// The requested ids that no rule has, in request order.
pub open spec fn unknown_ids(requested: Seq<String>, ids: Seq<Seq<char>>) -> Seq<Seq<char>>
    decreases requested.len(),
{
    if requested.len() == 0 {
        seq![]
    } else {
        unknown_ids(requested.drop_last(), ids) + if ids.contains(requested.last()@) {
            seq![]
        } else {
            seq![requested.last()@]
        }
    }
}

fn has_rule<R: Rule>(rules: &Vec<R>, id: &Vec<char>) -> (r: bool)
    ensures
        r == rule_ids(rules@).contains(id@),
{
    let mut k: usize = 0;
    while k < rules.len()
        invariant
            k <= rules@.len(),
            forall|m: int| 0 <= m < k ==> rule_ids(rules@)[m] != id@,
        decreases rules@.len() - k,
    {
        let rid = chars_of(rules[k].id());
        assert(rule_ids(rules@)[k as int] == rules@[k as int].spec_id());
        if crate::text::seq_eq(&rid, id) {
            return true;
        }
        k += 1;
    }
    proof {
        if rule_ids(rules@).contains(id@) {
            let m = choose|m: int| 0 <= m < rule_ids(rules@).len() && rule_ids(rules@)[m] == id@;
            assert(rule_ids(rules@)[m] == id@);
        }
    }
    false
}

/// The requested rule ids that name no rule.
pub fn unknown_rule_ids<R: Rule>(rules: &Vec<R>, requested: &Vec<String>) -> (r: Vec<String>)
    ensures
        r@.map_values(|s: String| s@) == unknown_ids(requested@, rule_ids(rules@)),
{
    let mut out: Vec<String> = Vec::new();
    let mut k: usize = 0;
    while k < requested.len()
        invariant
            k <= requested@.len(),
            out@.map_values(|s: String| s@) == unknown_ids(requested@.take(k as int), rule_ids(rules@)),
        decreases requested@.len() - k,
    {
        proof {
            assert(requested@.take(k + 1).drop_last() =~= requested@.take(k as int));
        }
        let ghost o = out@.map_values(|s: String| s@);
        let id = chars_of(requested[k].as_str());
        if !has_rule(rules, &id) {
            out.push(requested[k].clone());
            assert(out@.map_values(|s: String| s@) =~= o.push(requested@[k as int]@));
        } else {
            assert(out@.map_values(|s: String| s@) =~= o);
        }
        k += 1;
    }
    assert(requested@.take(requested@.len() as int) =~= requested@);
    out
}

/// Whether a rule id is among the requested ones.
pub open spec fn requested_has(requested: Seq<String>, id: Seq<char>) -> bool {
    exists|k: int| 0 <= k < requested.len() && requested[k]@ == id
}

fn requested_has_exec(requested: &Vec<String>, id: &Vec<char>) -> (r: bool)
    ensures
        r == requested_has(requested@, id@),
{
    let mut k: usize = 0;
    while k < requested.len()
        invariant
            k <= requested@.len(),
            forall|m: int| 0 <= m < k ==> requested@[m]@ != id@,
        decreases requested@.len() - k,
    {
        let c = chars_of(requested[k].as_str());
        if crate::text::seq_eq(&c, id) {
            return true;
        }
        k += 1;
    }
    false
}

/// For each rule, whether its id was requested.
pub fn requested_mask<R: Rule>(rules: &Vec<R>, requested: &Vec<String>) -> (r: Vec<bool>)
    ensures
        r@.len() == rules@.len(),
        forall|k: int| 0 <= k < r@.len() ==> #[trigger] r@[k] == requested_has(requested@, rule_ids(rules@)[k]),
{
    let mut out: Vec<bool> = Vec::new();
    let mut k: usize = 0;
    while k < rules.len()
        invariant
            k <= rules@.len(),
            out@.len() == k,
            forall|m: int| 0 <= m < k ==> #[trigger] out@[m] == requested_has(requested@, rule_ids(rules@)[m]),
        decreases rules@.len() - k,
    {
        let id = chars_of(rules[k].id());
        assert(rule_ids(rules@)[k as int] == rules@[k as int].spec_id());
        out.push(requested_has_exec(requested, &id));
        k += 1;
    }
    out
}

/// The rules whose ids were requested, in order.
pub open spec fn selected_rules<R: Rule>(rules: Seq<R>, requested: Seq<String>) -> Seq<R>
    decreases rules.len(),
{
    if rules.len() == 0 {
        seq![]
    } else {
        let prev = selected_rules(rules.drop_last(), requested);
        if requested_has(requested, rules.last().spec_id()) {
            prev.push(rules.last())
        } else {
            prev
        }
    }
}

/// Keeps the rules whose ids were requested, in order.
pub fn select_rules<R: Rule>(rules: Vec<R>, requested: &Vec<String>) -> (r: Vec<R>)
    ensures
        r@ == selected_rules(rules@, requested@),
{
    let ghost all = rules@;
    let mut rest = rules;
    let mut out: Vec<R> = Vec::new();
    let ghost mut k: int = 0;
    while rest.len() > 0
        invariant
            0 <= k <= all.len(),
            rest@ == all.skip(k),
            out@ == selected_rules(all.take(k), requested@),
        decreases rest@.len(),
    {
        let ghost before = rest@;
        let rule = rest.remove(0);
        assert(rule == all[k]);
        assert(all.take(k + 1).drop_last() =~= all.take(k));
        let id = chars_of(rule.id());
        let ghost o = out@;
        if requested_has_exec(requested, &id) {
            out.push(rule);
            assert(out@ == o.push(all[k]));
        } else {
        }
        proof {
            k = k + 1;
        }
        assert(rest@ =~= all.skip(k));
    }
    assert(all.take(k) =~= all);
    out
}

/// `R01 fallback-masks-error [错误(error)]`
pub open spec fn listing_line<R: Rule>(rules: Seq<R>, k: int) -> Seq<char> {
    rules[k].spec_id() + " "@ + rules[k].spec_name() + " ["@ + severity_display_label(
        rules[k].spec_severity(),
    ) + "]"@
}

/// The rule listing: one line per rule, in order.
pub fn rule_listing<R: Rule>(rules: &Vec<R>) -> (r: Vec<String>)
    ensures
        r@.len() == rules@.len(),
        forall|k: int| 0 <= k < r@.len() ==> (#[trigger] r@[k])@ == listing_line(rules@, k),
{
    let mut out: Vec<String> = Vec::new();
    let mut k: usize = 0;
    while k < rules.len()
        invariant
            k <= rules@.len(),
            out@.len() == k,
            forall|m: int| 0 <= m < k ==> (#[trigger] out@[m])@ == listing_line(rules@, m),
        decreases rules@.len() - k,
    {
        let rule = &rules[k];
        let mut m: Vec<char> = Vec::new();
        push_str(&mut m, rule.id());
        push_str(&mut m, " ");
        push_str(&mut m, rule.name());
        push_str(&mut m, " [");
        push_str(&mut m, rule.severity().display_label());
        push_str(&mut m, "]");
        assert(m@ =~= listing_line(rules@, k as int));
        out.push(string_of(&m));
        k += 1;
    }
    out
}

} // verus!
