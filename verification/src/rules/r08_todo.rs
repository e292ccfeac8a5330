//! R08: lines that carry a TODO, FIXME or XXX marker (any case).

use vstd::prelude::*;
use crate::finding::{views, Finding, FindingView, Severity, finding_plain};
use crate::parser::Language;
use crate::rule::{lemma_tagged_concat, tagged, AnalysisContext, Rule, RuleError};
use crate::source::lines;
use crate::text::{chars_of, contains, contains_str, trim, trim_exec};
use crate::unicode::{ascii_lower, is_ascii_text, lowercase, to_lowercase};

verus! {

pub struct TodoFixme;

pub open spec fn has_marker(line: Seq<char>) -> bool {
    let lower = lowercase(line);
    contains(lower, "todo"@) || contains(lower, "fixme"@) || contains(lower, "xxx"@)
}

/// One finding per marked line among `ls[..k]`.
pub open spec fn r08_scan(file: Seq<char>, ls: Seq<Seq<char>>, k: int) -> Seq<FindingView>
    decreases k,
{
    if k <= 0 || k > ls.len() {
        seq![]
    } else {
        r08_scan(file, ls, k - 1) + if has_marker(ls[k - 1]) {
            seq![
                FindingView {
                    rule_id: "R08"@,
                    rule_name: "todo-fixme-accumulation"@,
                    severity: Severity::Info,
                    file,
                    line: k,
                    column: 1,
                    message: "TODO/FIXME marker found"@,
                    snippet: Some(trim(ls[k - 1])),
                },
            ]
        } else {
            seq![]
        }
    }
}

proof fn lemma_r08_scan_tagged(file: Seq<char>, ls: Seq<Seq<char>>, k: int)
    ensures
        tagged(r08_scan(file, ls, k), "R08"@, "todo-fixme-accumulation"@),
    decreases k,
{
    if k > 0 && k <= ls.len() {
        lemma_r08_scan_tagged(file, ls, k - 1);
        let s = r08_scan(file, ls, k);
        let p = r08_scan(file, ls, k - 1);
        assert forall|i: int| 0 <= i < s.len() implies (#[trigger] s[i]).rule_id == "R08"@
            && s[i].rule_name == "todo-fixme-accumulation"@ by {
            if i < p.len() {
                assert(s[i] == p[i]);
            }
        }
    }
}

/// The finding for line `k` (zero-based) of `ls`.
pub open spec fn todo_finding(file: Seq<char>, ls: Seq<Seq<char>>, k: int) -> FindingView {
    FindingView {
        rule_id: "R08"@,
        rule_name: "todo-fixme-accumulation"@,
        severity: Severity::Info,
        file,
        line: k + 1,
        column: 1,
        message: "TODO/FIXME marker found"@,
        snippet: Some(trim(ls[k])),
    }
}

proof fn lemma_r08_scan_has(file: Seq<char>, ls: Seq<Seq<char>>, n: int, k: int)
    requires
        0 <= k < ls.len(),
        n <= ls.len(),
    ensures
        r08_scan(file, ls, n).contains(todo_finding(file, ls, k)) <==> (k < n && has_marker(ls[k])),
    decreases n,
{
    if n > 0 {
        lemma_r08_scan_has(file, ls, n - 1, k);
        let p = r08_scan(file, ls, n - 1);
        let s = r08_scan(file, ls, n);
        let x = todo_finding(file, ls, k);
        if has_marker(ls[n - 1]) {
            assert(s == p + seq![todo_finding(file, ls, n - 1)]);
            if s.contains(x) {
                let i = choose|i: int| 0 <= i < s.len() && s[i] == x;
                if i < p.len() {
                    assert(p[i] == x);
                } else {
                    assert(s[i] == todo_finding(file, ls, n - 1));
                }
            }
            if k < n && has_marker(ls[k]) {
                if k == n - 1 {
                    assert(s[p.len() as int] == x);
                } else {
                    let i = choose|i: int| 0 <= i < p.len() && p[i] == x;
                    assert(s[i] == x);
                }
            }
        } else {
            assert(s =~= p);
        }
    }
}

proof fn lemma_r08_scan_shape(file: Seq<char>, ls: Seq<Seq<char>>, n: int)
    requires
        n <= ls.len(),
    ensures
        forall|i: int|
            0 <= i < r08_scan(file, ls, n).len() ==> exists|k: int|
                0 <= k < n && has_marker(ls[k]) && #[trigger] r08_scan(file, ls, n)[i] == todo_finding(file, ls, k),
        forall|i: int, j: int|
            0 <= i < j < r08_scan(file, ls, n).len() ==> (#[trigger] r08_scan(file, ls, n)[i]).line
                < (#[trigger] r08_scan(file, ls, n)[j]).line,
        forall|i: int| 0 <= i < r08_scan(file, ls, n).len() ==> (#[trigger] r08_scan(file, ls, n)[i]).line <= n,
    decreases n,
{
    if n > 0 {
        lemma_r08_scan_shape(file, ls, n - 1);
        let p = r08_scan(file, ls, n - 1);
        let s = r08_scan(file, ls, n);
        if has_marker(ls[n - 1]) {
            assert(s == p + seq![todo_finding(file, ls, n - 1)]);
            assert forall|i: int| 0 <= i < s.len() implies exists|k: int|
                0 <= k < n && has_marker(ls[k]) && #[trigger] s[i] == todo_finding(file, ls, k) by {
                if i < p.len() {
                    assert(s[i] == p[i]);
                } else {
                    assert(s[i] == todo_finding(file, ls, n - 1));
                }
            }
            assert forall|i: int| 0 <= i < s.len() implies (#[trigger] s[i]).line <= n by {
                if i < p.len() {
                    assert(s[i] == p[i]);
                }
            }
            assert forall|i: int, j: int| 0 <= i < j < s.len() implies (#[trigger] s[i]).line < (
            #[trigger] s[j]).line by {
                assert(s[i] == p[i]);
                if j < p.len() {
                    assert(s[j] == p[j]);
                } else {
                    assert(s[j].line == n);
                    assert(p[i].line <= n - 1);
                }
            }
        } else {
            assert(s =~= p);
        }
    }
}

impl TodoFixme {
    /// Every finding the rule reports carries its id and name.
    pub proof fn lemma_findings_tagged(&self, ctx: AnalysisContext)
        ensures
            tagged(self.spec_findings(ctx), self.spec_id(), self.spec_name()),
    {
        let ls = lines(ctx.source.chars@);
        lemma_r08_scan_tagged(ctx.file_path@, ls, ls.len() as int);
    }

    /// A line is reported exactly when its lower-case form holds one of the
    /// markers `todo`, `fixme` or `xxx`, whatever case they are written in.
    pub proof fn lemma_reports_marked_lines(&self, ctx: AnalysisContext, k: int)
        requires
            0 <= k < lines(ctx.source.chars@).len(),
        ensures
            ({
                let line = lines(ctx.source.chars@)[k];
                let low = lowercase(line);
                self.spec_findings(ctx).contains(todo_finding(ctx.file_path@, lines(ctx.source.chars@), k))
                    <==> (contains(low, "todo"@) || contains(low, "fixme"@) || contains(low, "xxx"@))
            }),
    {
        let ls = lines(ctx.source.chars@);
        lemma_r08_scan_has(ctx.file_path@, ls, ls.len() as int, k);
    }

    /// Nothing else is reported: each finding is the finding of one marked
    /// line, and the lines come in order, each once.
    pub proof fn lemma_reports_only_marked_lines(&self, ctx: AnalysisContext)
        ensures
            forall|i: int|
                #![trigger self.spec_findings(ctx)[i]]
                0 <= i < self.spec_findings(ctx).len() ==> exists|k: int|
                    #![trigger lines(ctx.source.chars@)[k]]
                    0 <= k < lines(ctx.source.chars@).len() && ({
                        let low = lowercase(lines(ctx.source.chars@)[k]);
                        contains(low, "todo"@) || contains(low, "fixme"@) || contains(low, "xxx"@)
                    }) && self.spec_findings(ctx)[i] == todo_finding(ctx.file_path@, lines(ctx.source.chars@), k),
            forall|i: int, j: int|
                0 <= i < j < self.spec_findings(ctx).len() ==> (#[trigger] self.spec_findings(ctx)[i]).line
                    < (#[trigger] self.spec_findings(ctx)[j]).line,
    {
        let ls = lines(ctx.source.chars@);
        lemma_r08_scan_shape(ctx.file_path@, ls, ls.len() as int);
        let fs = self.spec_findings(ctx);
        assert forall|i: int| #![trigger fs[i]] 0 <= i < fs.len() implies exists|k: int|
            #![trigger ls[k]]
            0 <= k < ls.len() && ({
                let low = lowercase(ls[k]);
                contains(low, "todo"@) || contains(low, "fixme"@) || contains(low, "xxx"@)
            }) && fs[i] == todo_finding(ctx.file_path@, ls, k) by {
            let k = choose|k: int| 0 <= k < ls.len() && has_marker(ls[k]) && #[trigger] fs[i] == todo_finding(ctx.file_path@, ls, k);
            assert(ls[k] == ls[k]);
        }
    }
}

impl Rule for TodoFixme {
    open spec fn spec_id(&self) -> Seq<char> {
        "R08"@
    }

    open spec fn spec_name(&self) -> Seq<char> {
        "todo-fixme-accumulation"@
    }

    open spec fn spec_severity(&self) -> Severity {
        Severity::Info
    }

    open spec fn spec_total(&self) -> bool {
        true
    }

    open spec fn spec_languages(&self) -> Seq<Language> {
        seq![
            Language::Rust,
            Language::Python,
            Language::TypeScript,
            Language::TypeScriptTsx,
            Language::CSharp,
            Language::Java,
        ]
    }

    open spec fn spec_findings(&self, ctx: AnalysisContext) -> Seq<FindingView> {
        let ls = lines(ctx.source.chars@);
        r08_scan(ctx.file_path@, ls, ls.len() as int)
    }

    fn id(&self) -> (r: &'static str) {
        "R08"
    }

    fn name(&self) -> (r: &'static str) {
        "todo-fixme-accumulation"
    }

    fn severity(&self) -> (r: Severity) {
        Severity::Info
    }

    fn languages(&self) -> (r: &'static [Language]) {
        &[
            Language::Rust,
            Language::Python,
            Language::TypeScript,
            Language::TypeScriptTsx,
            Language::CSharp,
            Language::Java,
        ]
    }

    fn analyze(&self, ctx: &AnalysisContext) -> (r: Result<Vec<Finding>, RuleError>)
        ensures
            r is Ok,
            r matches Ok(v) ==> forall|k: int|
                0 <= k < lines(ctx.source.chars@).len() && is_ascii_text(
                    #[trigger] lines(ctx.source.chars@)[k],
                ) ==> (views(v@).contains(todo_finding(ctx.file_path@, lines(ctx.source.chars@), k)) <==> ({
                    let low = lines(ctx.source.chars@)[k].map_values(|c: char| ascii_lower(c));
                    contains(low, "todo"@) || contains(low, "fixme"@) || contains(low, "xxx"@)
                })),
    {
        proof {
            self.lemma_findings_tagged(*ctx);
        }
        let ls = &ctx.source.lines;
        let ghost lv = ls@.map_values(|l: Vec<char>| l@);
        let mut out: Vec<Finding> = Vec::new();
        let mut k: usize = 0;
        while k < ls.len()
            invariant
                ctx.wf(),
                ls == &ctx.source.lines,
                lv == ls@.map_values(|l: Vec<char>| l@),
                lv == lines(ctx.source.chars@),
                k <= ls@.len(),
                views(out@) == r08_scan(ctx.file_path@, lv, k as int),
                forall|j: int|
                    0 <= j < k && is_ascii_text(#[trigger] lv[j]) ==> lowercase(lv[j]) == lv[j].map_values(
                        |c: char| ascii_lower(c),
                    ),
            decreases ls@.len() - k,
        {
            let line = &ls[k];
            assert(lv[k as int] == line@);
            let lower = to_lowercase(line);
            let ghost o = out@;
            if contains_str(&lower, "todo") || contains_str(&lower, "fixme") || contains_str(&lower, "xxx") {
                let f = Finding::plain(
                    "R08",
                    "todo-fixme-accumulation",
                    Severity::Info,
                    ctx.file_path,
                    k + 1,
                    1,
                    chars_of("TODO/FIXME marker found"),
                    Some(trim_exec(line)),
                );
                out.push(f);
                assert(views(out@) =~= views(o) + seq![f@]);
            } else {
                assert(views(out@) =~= views(o) + Seq::<FindingView>::empty());
            }
            k += 1;
        }
        proof {
            assert forall|j: int|
                0 <= j < lv.len() && is_ascii_text(#[trigger] lv[j]) implies (views(out@).contains(
                todo_finding(ctx.file_path@, lv, j),
            ) <==> ({
                let low = lv[j].map_values(|c: char| ascii_lower(c));
                contains(low, "todo"@) || contains(low, "fixme"@) || contains(low, "xxx"@)
            })) by {
                self.lemma_reports_marked_lines(*ctx, j);
            }
        }
        Ok(out)
    }
}

} // verus!
