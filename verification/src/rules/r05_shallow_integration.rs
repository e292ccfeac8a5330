//! R05: shallow integration tests — tests that exercise HTTP or an API but
//! check little beyond a status.

use vstd::prelude::*;
use crate::config::threshold_value;
use crate::finding::{views, Finding, FindingView, Severity, finding_at_plain};
use crate::nav::{kind_in, strs};
use crate::parser::Language;
use crate::rule::{append_findings, collect, lemma_collect_all, lemma_collect_step, AnalysisContext, Rule, RuleError, lemma_collect_tagged, tagged};
use crate::rules::r04_simple_unit_test::keyword_matches;
use crate::rules::r15_missing_validation::{contains_any, contains_any_exec};
use crate::rules::r16_self_validating_test::{function_name, function_name_exec};
use crate::syntax::{text_at, node_text, walk, walk_order};
use crate::text::{contains, contains_str, count_matches_str, lemma_count_from_bound, push_chars, push_str, starts_with, starts_with_str};
use crate::unicode::{decimal, decimal_exec, decimal_wide};

verus! {

pub struct ShallowIntegration;

pub open spec fn r05_function_kinds(l: Language) -> Seq<Seq<char>> {
    match l {
        Language::Rust => seq!["function_item"@],
        Language::Python => seq!["function_definition"@],
        Language::TypeScript | Language::TypeScriptTsx => seq![
            "function_declaration"@,
            "method_definition"@,
            "call_expression"@,
        ],
        Language::CSharp | Language::Java => seq!["method_declaration"@],
    }
}

pub open spec fn http_signals() -> Seq<Seq<char>> {
    seq![
        "request"@, "response"@, "client"@, "get("@, "post("@, "Client::new"@, "TestClient"@,
        "http"@, "api"@,
    ]
}

pub open spec fn shallow_signals() -> Seq<Seq<char>> {
    seq![
        "status()"@, "is_success"@, "is_ok"@, "is_success()"@, "status_code"@, "assert_ok"@,
        "is_success"@, "Ok("@, "unwrap()"@, "expect("@,
    ]
}

pub open spec fn deep_signals() -> Seq<Seq<char>> {
    seq![
        "json("@, "body"@, "header"@, "content"@, "contains"@, "eq("@, "assert_eq!"@, "assert_ne!"@,
        "expect("@, "body("@, "text()"@, "json_body"@, "response.body"@, "data["@, "result["@,
    ]
}

/// A test that talks HTTP or to an API and is named as an integration test
/// (or `test_...`).
pub open spec fn is_integration_test(ctx: AnalysisContext, i: int) -> bool {
    let name = function_name(ctx, i);
    let t = text_at(ctx.source.chars@, ctx.tree.nodes@[i]);
    contains_any(t, http_signals()) && (contains(name, "integration"@) || contains(name, "e2e"@)
        || contains(name, "end_to_end"@) || starts_with(name, "test_"@))
}

/// One for a test that only checks a status; otherwise one more than its
/// deep checks.
pub open spec fn meaningful_checks(t: Seq<char>) -> nat {
    let shallow = keyword_matches(t, shallow_signals(), shallow_signals().len() as int);
    let deep = keyword_matches(t, deep_signals(), deep_signals().len() as int);
    if shallow > 0 && deep == 0 {
        1
    } else {
        deep + 1
    }
}

pub open spec fn r05_min(ctx: AnalysisContext) -> nat {
    threshold_value(ctx.rule_config.thresholds@, "min_checks"@, 3) as usize as nat
}

pub open spec fn r05_message(n: nat, min: nat) -> Seq<char> {
    "integration test has only "@ + decimal(n) + " meaningful check(s) (min "@ + decimal(min) + ")"@
}

pub open spec fn r05_at(ctx: AnalysisContext) -> spec_fn(usize) -> Seq<FindingView> {
    |i: usize|
        {
            let n = ctx.tree.nodes@[i as int];
            let checks = meaningful_checks(text_at(ctx.source.chars@, n));
            if r05_function_kinds(ctx.language).contains(n.kind@) && is_integration_test(ctx, i as int)
                && checks < r05_min(ctx) {
                seq![
                    finding_at_plain(
                        "R05"@,
                        "shallow-integration-test"@,
                        Severity::Warning,
                        ctx.file_path@,
                        *ctx.tree,
                        i as int,
                        r05_message(checks, r05_min(ctx)),
                    ),
                ]
            } else {
                seq![]
            }
        }
}

fn keyword_total(t: &Vec<char>, ks: &[&str]) -> (r: u128)
    requires
        ks@.len() <= 16,
        4 * t@.len() + 1 <= usize::MAX,
    ensures
        r == keyword_matches(t@, strs(ks@), ks@.len() as int),
{
    let mut total: u128 = 0;
    let mut k: usize = 0;
    while k < ks.len()
        invariant
            k <= ks@.len() <= 16,
            4 * t@.len() + 1 <= usize::MAX,
            total <= k * t@.len(),
            total == keyword_matches(t@, strs(ks@), k as int),
        decreases ks@.len() - k,
    {
        let c = count_matches_str(t, ks[k]);
        proof {
            lemma_count_from_bound(t@, ks@[k as int]@, 0);
            assert(strs(ks@)[k as int] == ks@[k as int]@);
            assert((k + 1) * t@.len() == k * t@.len() + t@.len()) by (nonlinear_arith);
            assert(k * t@.len() <= 16 * t@.len()) by (nonlinear_arith)
                requires
                    k <= 16,
            ;
        }
        total = total + c as u128;
        k += 1;
    }
    total
}

fn meaningful_checks_exec(t: &Vec<char>) -> (r: u128)
    requires
        4 * t@.len() + 1 <= usize::MAX,
    ensures
        r == meaningful_checks(t@),
{
    let sh: &[&str] = &[
        "status()", "is_success", "is_ok", "is_success()", "status_code", "assert_ok", "is_success",
        "Ok(", "unwrap()", "expect(",
    ];
    assert(strs(sh@) =~= shallow_signals());
    let dp: &[&str] = &[
        "json(", "body", "header", "content", "contains", "eq(", "assert_eq!", "assert_ne!", "expect(",
        "body(", "text()", "json_body", "response.body", "data[", "result[",
    ];
    assert(strs(dp@) =~= deep_signals());
    let shallow = keyword_total(t, sh);
    let deep = keyword_total(t, dp);
    proof {
        assert(deep <= 15 * t@.len()) by {
            crate::rules::r05_shallow_integration::lemma_keywords_bound(t@, deep_signals(), 15);
        }
    }
    if shallow > 0 && deep == 0 {
        1
    } else {
        deep + 1
    }
}

pub proof fn lemma_keywords_bound(t: Seq<char>, ks: Seq<Seq<char>>, k: int)
    requires
        0 <= k <= ks.len(),
    ensures
        keyword_matches(t, ks, k) <= k * t.len(),
    decreases k,
{
    if k > 0 {
        lemma_keywords_bound(t, ks, k - 1);
        lemma_count_from_bound(t, ks[k - 1], 0);
        assert(k * t.len() == (k - 1) * t.len() + t.len()) by (nonlinear_arith);
    }
}

fn r05_node(ctx: &AnalysisContext, i: usize, min: usize) -> (r: Vec<Finding>)
    requires
        ctx.wf(),
        i < ctx.tree.nodes@.len(),
        min == r05_min(*ctx),
    ensures
        views(r@) == (r05_at(*ctx))(i),
{
    let mut out: Vec<Finding> = Vec::new();
    let fk: &[&str] = match ctx.language {
        Language::Rust => &["function_item"],
        Language::Python => &["function_definition"],
        Language::TypeScript | Language::TypeScriptTsx => &["function_declaration", "method_definition", "call_expression"],
        Language::CSharp | Language::Java => &["method_declaration"],
    };
    assert(strs(fk@) =~= r05_function_kinds(ctx.language));
    if !kind_in(&ctx.tree.nodes[i].kind, fk) {
        assert(views(out@) =~= Seq::<FindingView>::empty());
        return out;
    }
    let name = function_name_exec(ctx, i);
    let t = node_text(ctx.source, ctx.tree, i);
    let hs: &[&str] = &["request", "response", "client", "get(", "post(", "Client::new", "TestClient", "http", "api"];
    assert(strs(hs@) =~= http_signals());
    let integration = contains_any_exec(&t, hs) && (contains_str(&name, "integration") || contains_str(
        &name,
        "e2e",
    ) || contains_str(&name, "end_to_end") || starts_with_str(&name, "test_"));
    if !integration {
        assert(views(out@) =~= Seq::<FindingView>::empty());
        return out;
    }
    let checks = meaningful_checks_exec(&t);
    if checks < min as u128 {
        let mut m: Vec<char> = Vec::new();
        push_str(&mut m, "integration test has only ");
        let dc = decimal_wide(checks);
        push_chars(&mut m, &dc);
        push_str(&mut m, " meaningful check(s) (min ");
        let dm = decimal_exec(min);
        push_chars(&mut m, &dm);
        push_str(&mut m, ")");
        assert(m@ =~= r05_message(checks as nat, min as nat));
        let f = Finding::at_node("R05", "shallow-integration-test", Severity::Warning, ctx.file_path, ctx.tree, i, m);
        out.push(f);
        assert(views(out@) =~= seq![f@]);
    } else {
        assert(views(out@) =~= Seq::<FindingView>::empty());
    }
    out
}

impl ShallowIntegration {
    /// Every finding the rule reports carries its id and name.
    pub proof fn lemma_findings_tagged(&self, ctx: AnalysisContext)
        ensures
            tagged(self.spec_findings(ctx), self.spec_id(), self.spec_name()),
    {
        assert forall|n: usize| tagged(#[trigger] (r05_at(ctx))(n), self.spec_id(), self.spec_name()) by {}
        lemma_collect_tagged(walk_order(ctx.tree.nodes@, 0), r05_at(ctx), self.spec_id(), self.spec_name());
    }
}

impl Rule for ShallowIntegration {
    open spec fn spec_id(&self) -> Seq<char> {
        "R05"@
    }

    open spec fn spec_name(&self) -> Seq<char> {
        "shallow-integration-test"@
    }

    open spec fn spec_severity(&self) -> Severity {
        Severity::Warning
    }

    open spec fn spec_total(&self) -> bool {
        true
    }

    open spec fn spec_languages(&self) -> Seq<Language> {
        seq![
            Language::Rust,
            Language::Python,
            Language::TypeScript,
            Language::TypeScriptTsx,
            Language::CSharp,
            Language::Java,
        ]
    }

    open spec fn spec_findings(&self, ctx: AnalysisContext) -> Seq<FindingView> {
        collect(walk_order(ctx.tree.nodes@, 0), r05_at(ctx))
    }

    fn id(&self) -> (r: &'static str) {
        "R05"
    }

    fn name(&self) -> (r: &'static str) {
        "shallow-integration-test"
    }

    fn severity(&self) -> (r: Severity) {
        Severity::Warning
    }

    fn languages(&self) -> (r: &'static [Language]) {
        &[
            Language::Rust,
            Language::Python,
            Language::TypeScript,
            Language::TypeScriptTsx,
            Language::CSharp,
            Language::Java,
        ]
    }

    fn analyze(&self, ctx: &AnalysisContext) -> (r: Result<Vec<Finding>, RuleError>)
        ensures
            r is Ok,
    {
        proof {
            self.lemma_findings_tagged(*ctx);
        }
        let min = ctx.rule_config.threshold_i64("min_checks", 3) as usize;
        let order = walk(ctx.tree, 0);
        let mut out: Vec<Finding> = Vec::new();
        let mut k: usize = 0;
        while k < order.len()
            invariant
                ctx.wf(),
                order@ == walk_order(ctx.tree.nodes@, 0),
                forall|m: int| 0 <= m < order@.len() ==> #[trigger] order@[m] < ctx.tree.nodes@.len(),
                min == r05_min(*ctx),
                k <= order@.len(),
                views(out@) == collect(order@.take(k as int), r05_at(*ctx)),
            decreases order@.len() - k,
        {
            proof {
                lemma_collect_step(order@, r05_at(*ctx), k as int);
            }
            let found = r05_node(ctx, order[k], min);
            append_findings(&mut out, found);
            k += 1;
        }
        proof {
            lemma_collect_all(order@, r05_at(*ctx));
        }
        Ok(out)
    }
}

} // verus!
