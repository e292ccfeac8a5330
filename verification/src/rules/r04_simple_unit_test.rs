//! R04: unit tests with too few assertions (by default: none at all).

use vstd::prelude::*;
use crate::config::threshold_value;
use crate::finding::{views, Finding, FindingView, Severity, finding_at_plain};
use crate::nav::{kind_in, strs};
use crate::parser::Language;
use crate::rule::{append_findings, collect, lemma_collect_all, lemma_collect_step, AnalysisContext, Rule, RuleError, lemma_collect_tagged, tagged};
use crate::rules::r16_self_validating_test::{
    function_name, function_name_exec, rust_test_attr, rust_test_attr_exec,
};
use crate::syntax::{kind_is, text_at, node_text, walk, walk_order};
use crate::text::{
    contains, contains_str, count_matches, count_matches_str, eq_str, lemma_count_from_bound,
    push_chars, push_str, starts_with, starts_with_str,
};
use crate::unicode::{decimal, decimal_exec};

verus! {

pub struct SimpleUnitTest;

pub open spec fn r04_function_kinds(l: Language) -> Seq<Seq<char>> {
    match l {
        Language::Rust => seq!["function_item"@],
        Language::Python => seq!["function_definition"@],
        Language::TypeScript | Language::TypeScriptTsx => seq!["call_expression"@],
        Language::CSharp | Language::Java => seq!["method_declaration"@],
    }
}

pub open spec fn is_test_or_it(t: Seq<char>) -> bool {
    t == "test"@ || t == "it"@
}

/// Among the children `ch[k..]`: the first identifier spelled `test` or `it`.
pub open spec fn test_it_child(ctx: AnalysisContext, ch: Seq<usize>, k: int) -> Option<Seq<char>>
    decreases ch.len() - k,
{
    if k < 0 || k >= ch.len() {
        None
    } else {
        let c = ch[k];
        if c < ctx.tree.nodes@.len() && ctx.tree.nodes@[c as int].kind@ == "identifier"@
            && is_test_or_it(text_at(ctx.source.chars@, ctx.tree.nodes@[c as int])) {
            Some(text_at(ctx.source.chars@, ctx.tree.nodes@[c as int]))
        } else {
            test_it_child(ctx, ch, k + 1)
        }
    }
}

/// The callee of a call: the first identifier child, or `test`/`it` at the
/// left of a member expression (`test.only(...)`).
pub open spec fn callee_from(ctx: AnalysisContext, ch: Seq<usize>, k: int) -> Option<Seq<char>>
    decreases ch.len() - k,
{
    if k < 0 || k >= ch.len() {
        None
    } else {
        let c = ch[k];
        if c >= ctx.tree.nodes@.len() {
            callee_from(ctx, ch, k + 1)
        } else {
            let n = ctx.tree.nodes@[c as int];
            if n.kind@ == "identifier"@ {
                Some(text_at(ctx.source.chars@, n))
            } else if n.kind@ == "member_expression"@ {
                match test_it_child(ctx, n.children@, 0) {
                    Some(x) => Some(x),
                    None => callee_from(ctx, ch, k + 1),
                }
            } else {
                callee_from(ctx, ch, k + 1)
            }
        }
    }
}

pub open spec fn callee(ctx: AnalysisContext, i: int) -> Option<Seq<char>> {
    callee_from(ctx, ctx.tree.nodes@[i].children@, 0)
}

/// A Rust function with a test attribute among its children.
pub open spec fn test_attr_child(ctx: AnalysisContext, ch: Seq<usize>) -> bool {
    exists|k: int|
        0 <= k < ch.len() && ch[k] < ctx.tree.nodes@.len() && {
            let s = ctx.tree.nodes@[#[trigger] ch[k] as int];
            s.kind@ == "attribute_item"@ && (contains(text_at(ctx.source.chars@, s), "#[test]"@)
                || contains(text_at(ctx.source.chars@, s), "#[tokio::test]"@))
        }
}

pub open spec fn r04_is_test(ctx: AnalysisContext, i: int) -> bool {
    match ctx.language {
        Language::Rust => test_attr_child(ctx, ctx.tree.nodes@[i].children@) || rust_test_attr(
            ctx,
            i,
        ),
        Language::Python => starts_with(function_name(ctx, i), "test_"@),
        Language::TypeScript | Language::TypeScriptTsx => ctx.tree.nodes@[i].kind@
            == "call_expression"@ && match callee(ctx, i) {
            Some(c) => is_test_or_it(c),
            None => false,
        },
        Language::CSharp | Language::Java => {
            let t = text_at(ctx.source.chars@, ctx.tree.nodes@[i]);
            contains(t, "@Test"@) || contains(t, "[Test]"@) || contains(t, "[TestMethod]"@)
        },
    }
}

/// The test's name: the callee of a TypeScript call, else the function name.
pub open spec fn r04_name(ctx: AnalysisContext, i: int) -> Seq<char> {
    if (ctx.language == Language::TypeScript || ctx.language == Language::TypeScriptTsx)
        && ctx.tree.nodes@[i].kind@ == "call_expression"@ {
        match callee(ctx, i) {
            Some(c) => c,
            None => seq![],
        }
    } else {
        function_name(ctx, i)
    }
}

/// The nodes of `order[..k]` that call `expect` or `assert`.
pub open spec fn expect_calls(ctx: AnalysisContext, order: Seq<usize>, k: int) -> nat
    decreases k,
{
    if k <= 0 || k > order.len() {
        0
    } else {
        let n = order[k - 1] as int;
        expect_calls(ctx, order, k - 1) + if 0 <= n < ctx.tree.nodes@.len()
            && ctx.tree.nodes@[n].kind@ == "call_expression"@ && match callee(ctx, n) {
            Some(c) => c == "expect"@ || c == "assert"@,
            None => false,
        } {
            1nat
        } else {
            0nat
        }
    }
}

pub open spec fn assert_keywords(l: Language) -> Seq<Seq<char>> {
    match l {
        Language::Rust => seq!["assert!"@, "assert_eq!"@, "assert_ne!"@, "panic!"@],
        Language::Python => seq!["assert "@, "self.assert"@],
        Language::CSharp => seq!["Assert."@],
        Language::Java => seq!["assertEquals"@, "assertTrue"@, "assertFalse"@, "assertThrows"@],
        _ => seq![],
    }
}

/// Total matches of the keywords `ks[..k]` in `t`.
pub open spec fn keyword_matches(t: Seq<char>, ks: Seq<Seq<char>>, k: int) -> nat
    decreases k,
{
    if k <= 0 || k > ks.len() {
        0
    } else {
        keyword_matches(t, ks, k - 1) + count_matches(t, ks[k - 1])
    }
}

/// Assertions in a test: `expect(...)`/`assert(...)` calls in TypeScript,
/// keyword occurrences in its text elsewhere.
pub open spec fn assertion_count(ctx: AnalysisContext, i: int) -> nat {
    if ctx.language == Language::TypeScript || ctx.language == Language::TypeScriptTsx {
        let order = walk_order(ctx.tree.nodes@, i);
        expect_calls(ctx, order, order.len() as int)
    } else {
        let ks = assert_keywords(ctx.language);
        keyword_matches(text_at(ctx.source.chars@, ctx.tree.nodes@[i]), ks, ks.len() as int)
    }
}

pub open spec fn r04_min(ctx: AnalysisContext) -> nat {
    threshold_value(ctx.rule_config.thresholds@, "min_assertions"@, 1) as usize as nat
}

pub open spec fn r04_message(name: Seq<char>, n: nat, min: nat) -> Seq<char> {
    "测试 '"@ + name + "' 仅有 "@ + decimal(n) + " 条断言（下限 "@ + decimal(min) + "） | test '"@ + name
        + "' has only "@ + decimal(n) + " assertion(s) (min "@ + decimal(min) + ")"@
}

pub open spec fn r04_at(ctx: AnalysisContext) -> spec_fn(usize) -> Seq<FindingView> {
    |i: usize|
        if r04_function_kinds(ctx.language).contains(ctx.tree.nodes@[i as int].kind@) && r04_is_test(
            ctx,
            i as int,
        ) && assertion_count(ctx, i as int) < r04_min(ctx) {
            seq![
                finding_at_plain(
                    "R04"@,
                    "simple-unit-test"@,
                    Severity::Warning,
                    ctx.file_path@,
                    *ctx.tree,
                    i as int,
                    r04_message(r04_name(ctx, i as int), assertion_count(ctx, i as int), r04_min(ctx)),
                ),
            ]
        } else {
            seq![]
        }
}

fn test_it_child_exec(ctx: &AnalysisContext, m: usize) -> (r: Option<Vec<char>>)
    requires
        ctx.wf(),
        m < ctx.tree.nodes@.len(),
    ensures
        match r {
            Some(v) => test_it_child(*ctx, ctx.tree.nodes@[m as int].children@, 0) == Some(v@),
            None => test_it_child(*ctx, ctx.tree.nodes@[m as int].children@, 0) is None,
        },
{
    let ch = &ctx.tree.nodes[m].children;
    let mut k: usize = 0;
    while k < ch.len()
        invariant
            ctx.wf(),
            m < ctx.tree.nodes@.len(),
            ch == &ctx.tree.nodes@[m as int].children,
            k <= ch@.len(),
            test_it_child(*ctx, ch@, k as int) == test_it_child(*ctx, ch@, 0),
        decreases ch@.len() - k,
    {
        let c = ch[k];
        if c < ctx.tree.nodes.len() && kind_is(ctx.tree, c, "identifier") {
            let t = node_text(ctx.source, ctx.tree, c);
            if eq_str(&t, "test") || eq_str(&t, "it") {
                return Some(t);
            }
        }
        k += 1;
    }
    None
}

fn callee_exec(ctx: &AnalysisContext, i: usize) -> (r: Option<Vec<char>>)
    requires
        ctx.wf(),
        i < ctx.tree.nodes@.len(),
    ensures
        match r {
            Some(v) => callee(*ctx, i as int) == Some(v@),
            None => callee(*ctx, i as int) is None,
        },
{
    let ch = &ctx.tree.nodes[i].children;
    let mut k: usize = 0;
    while k < ch.len()
        invariant
            ctx.wf(),
            i < ctx.tree.nodes@.len(),
            ch == &ctx.tree.nodes@[i as int].children,
            k <= ch@.len(),
            callee_from(*ctx, ch@, k as int) == callee_from(*ctx, ch@, 0),
        decreases ch@.len() - k,
    {
        let c = ch[k];
        if c < ctx.tree.nodes.len() {
            if kind_is(ctx.tree, c, "identifier") {
                return Some(node_text(ctx.source, ctx.tree, c));
            } else if kind_is(ctx.tree, c, "member_expression") {
                match test_it_child_exec(ctx, c) {
                    Some(x) => {
                        return Some(x);
                    },
                    None => {},
                }
            }
        }
        k += 1;
    }
    None
}

fn test_attr_child_exec(ctx: &AnalysisContext, i: usize) -> (r: bool)
    requires
        ctx.wf(),
        i < ctx.tree.nodes@.len(),
    ensures
        r == test_attr_child(*ctx, ctx.tree.nodes@[i as int].children@),
{
    let ch = &ctx.tree.nodes[i].children;
    let mut k: usize = 0;
    while k < ch.len()
        invariant
            ctx.wf(),
            i < ctx.tree.nodes@.len(),
            ch == &ctx.tree.nodes@[i as int].children,
            k <= ch@.len(),
            forall|m: int|
                0 <= m < k ==> !(ch@[m] < ctx.tree.nodes@.len() && {
                    let s = ctx.tree.nodes@[#[trigger] ch@[m] as int];
                    s.kind@ == "attribute_item"@ && (contains(
                        text_at(ctx.source.chars@, s),
                        "#[test]"@,
                    ) || contains(text_at(ctx.source.chars@, s), "#[tokio::test]"@))
                }),
        decreases ch@.len() - k,
    {
        let c = ch[k];
        if c < ctx.tree.nodes.len() && kind_is(ctx.tree, c, "attribute_item") {
            let t = node_text(ctx.source, ctx.tree, c);
            if contains_str(&t, "#[test]") || contains_str(&t, "#[tokio::test]") {
                return true;
            }
        }
        k += 1;
    }
    false
}

fn r04_is_test_exec(ctx: &AnalysisContext, i: usize) -> (r: bool)
    requires
        ctx.wf(),
        i < ctx.tree.nodes@.len(),
    ensures
        r == r04_is_test(*ctx, i as int),
{
    match ctx.language {
        Language::Rust => test_attr_child_exec(ctx, i) || rust_test_attr_exec(ctx, i),
        Language::Python => {
            let name = function_name_exec(ctx, i);
            starts_with_str(&name, "test_")
        },
        Language::TypeScript | Language::TypeScriptTsx => {
            if !kind_is(ctx.tree, i, "call_expression") {
                return false;
            }
            match callee_exec(ctx, i) {
                Some(c) => eq_str(&c, "test") || eq_str(&c, "it"),
                None => false,
            }
        },
        Language::CSharp | Language::Java => {
            let t = node_text(ctx.source, ctx.tree, i);
            contains_str(&t, "@Test") || contains_str(&t, "[Test]") || contains_str(&t, "[TestMethod]")
        },
    }
}

fn r04_name_exec(ctx: &AnalysisContext, i: usize) -> (r: Vec<char>)
    requires
        ctx.wf(),
        i < ctx.tree.nodes@.len(),
    ensures
        r@ == r04_name(*ctx, i as int),
{
    if (ctx.language == Language::TypeScript || ctx.language == Language::TypeScriptTsx) && kind_is(
        ctx.tree,
        i,
        "call_expression",
    ) {
        match callee_exec(ctx, i) {
            Some(c) => c,
            None => Vec::new(),
        }
    } else {
        function_name_exec(ctx, i)
    }
}

fn assertion_count_exec(ctx: &AnalysisContext, i: usize) -> (r: usize)
    requires
        ctx.wf(),
        i < ctx.tree.nodes@.len(),
    ensures
        r == assertion_count(*ctx, i as int),
{
    if ctx.language == Language::TypeScript || ctx.language == Language::TypeScriptTsx {
        let order = walk(ctx.tree, i);
        let mut count: usize = 0;
        let mut k: usize = 0;
        while k < order.len()
            invariant
                ctx.wf(),
                order@ == walk_order(ctx.tree.nodes@, i as int),
                forall|m: int| 0 <= m < order@.len() ==> #[trigger] order@[m] < ctx.tree.nodes@.len(),
                k <= order@.len(),
                count <= k,
                count == expect_calls(*ctx, order@, k as int),
            decreases order@.len() - k,
        {
            let n = order[k];
            if kind_is(ctx.tree, n, "call_expression") {
                match callee_exec(ctx, n) {
                    Some(c) => {
                        if eq_str(&c, "expect") || eq_str(&c, "assert") {
                            count += 1;
                        }
                    },
                    None => {},
                }
            }
            k += 1;
        }
        count
    } else {
        let ks: &[&str] = match ctx.language {
            Language::Rust => &["assert!", "assert_eq!", "assert_ne!", "panic!"],
            Language::Python => &["assert ", "self.assert"],
            Language::CSharp => &["Assert."],
            Language::Java => &["assertEquals", "assertTrue", "assertFalse", "assertThrows"],
            _ => &[],
        };
        assert(strs(ks@) =~= assert_keywords(ctx.language));
        let t = node_text(ctx.source, ctx.tree, i);
        let mut total: usize = 0;
        let mut k: usize = 0;
        while k < ks.len()
            invariant
                k <= ks@.len() <= 4,
                strs(ks@) == assert_keywords(ctx.language),
                4 * t@.len() + 1 <= usize::MAX,
                total <= k * t@.len(),
                total == keyword_matches(t@, strs(ks@), k as int),
            decreases ks@.len() - k,
        {
            let c = count_matches_str(&t, ks[k]);
            proof {
                lemma_count_from_bound(t@, ks@[k as int]@, 0);
                assert(strs(ks@)[k as int] == ks@[k as int]@);
                assert((k + 1) * t@.len() == k * t@.len() + t@.len()) by (nonlinear_arith);
                assert(k * t@.len() <= 4 * t@.len()) by (nonlinear_arith)
                    requires
                        k <= 4,
                ;
            }
            total = total + c;
            k += 1;
        }
        total
    }
}

fn r04_node(ctx: &AnalysisContext, i: usize, min: usize) -> (r: Vec<Finding>)
    requires
        ctx.wf(),
        i < ctx.tree.nodes@.len(),
        min == r04_min(*ctx),
    ensures
        views(r@) == (r04_at(*ctx))(i),
{
    let mut out: Vec<Finding> = Vec::new();
    let fk: &[&str] = match ctx.language {
        Language::Rust => &["function_item"],
        Language::Python => &["function_definition"],
        Language::TypeScript | Language::TypeScriptTsx => &["call_expression"],
        Language::CSharp | Language::Java => &["method_declaration"],
    };
    assert(strs(fk@) =~= r04_function_kinds(ctx.language));
    if !kind_in(&ctx.tree.nodes[i].kind, fk) || !r04_is_test_exec(ctx, i) {
        assert(views(out@) =~= Seq::<FindingView>::empty());
        return out;
    }
    let name = r04_name_exec(ctx, i);
    let n = assertion_count_exec(ctx, i);
    if n < min {
        let dn = decimal_exec(n);
        let dm = decimal_exec(min);
        let mut m: Vec<char> = Vec::new();
        push_str(&mut m, "测试 '");
        push_chars(&mut m, &name);
        push_str(&mut m, "' 仅有 ");
        push_chars(&mut m, &dn);
        push_str(&mut m, " 条断言（下限 ");
        push_chars(&mut m, &dm);
        push_str(&mut m, "） | test '");
        push_chars(&mut m, &name);
        push_str(&mut m, "' has only ");
        push_chars(&mut m, &dn);
        push_str(&mut m, " assertion(s) (min ");
        push_chars(&mut m, &dm);
        push_str(&mut m, ")");
        assert(m@ =~= r04_message(name@, n as nat, min as nat));
        let f = Finding::at_node("R04", "simple-unit-test", Severity::Warning, ctx.file_path, ctx.tree, i, m);
        out.push(f);
        assert(views(out@) =~= seq![f@]);
    } else {
        assert(views(out@) =~= Seq::<FindingView>::empty());
    }
    out
}

impl SimpleUnitTest {
    /// Every finding the rule reports carries its id and name.
    pub proof fn lemma_findings_tagged(&self, ctx: AnalysisContext)
        ensures
            tagged(self.spec_findings(ctx), self.spec_id(), self.spec_name()),
    {
        assert forall|n: usize| tagged(#[trigger] (r04_at(ctx))(n), self.spec_id(), self.spec_name()) by {}
        lemma_collect_tagged(walk_order(ctx.tree.nodes@, 0), r04_at(ctx), self.spec_id(), self.spec_name());
    }
}

impl Rule for SimpleUnitTest {
    open spec fn spec_id(&self) -> Seq<char> {
        "R04"@
    }

    open spec fn spec_name(&self) -> Seq<char> {
        "simple-unit-test"@
    }

    open spec fn spec_severity(&self) -> Severity {
        Severity::Warning
    }

    open spec fn spec_total(&self) -> bool {
        true
    }

    open spec fn spec_languages(&self) -> Seq<Language> {
        seq![
            Language::Rust,
            Language::Python,
            Language::TypeScript,
            Language::TypeScriptTsx,
            Language::CSharp,
            Language::Java,
        ]
    }

    open spec fn spec_findings(&self, ctx: AnalysisContext) -> Seq<FindingView> {
        collect(walk_order(ctx.tree.nodes@, 0), r04_at(ctx))
    }

    fn id(&self) -> (r: &'static str) {
        "R04"
    }

    fn name(&self) -> (r: &'static str) {
        "simple-unit-test"
    }

    fn severity(&self) -> (r: Severity) {
        Severity::Warning
    }

    fn languages(&self) -> (r: &'static [Language]) {
        &[
            Language::Rust,
            Language::Python,
            Language::TypeScript,
            Language::TypeScriptTsx,
            Language::CSharp,
            Language::Java,
        ]
    }

    fn analyze(&self, ctx: &AnalysisContext) -> (r: Result<Vec<Finding>, RuleError>)
        ensures
            r is Ok,
    {
        proof {
            self.lemma_findings_tagged(*ctx);
        }
        let min = ctx.rule_config.threshold_i64("min_assertions", 1) as usize;
        let order = walk(ctx.tree, 0);
        let mut out: Vec<Finding> = Vec::new();
        let mut k: usize = 0;
        while k < order.len()
            invariant
                ctx.wf(),
                order@ == walk_order(ctx.tree.nodes@, 0),
                forall|m: int| 0 <= m < order@.len() ==> #[trigger] order@[m] < ctx.tree.nodes@.len(),
                min == r04_min(*ctx),
                k <= order@.len(),
                views(out@) == collect(order@.take(k as int), r04_at(*ctx)),
            decreases order@.len() - k,
        {
            proof {
                lemma_collect_step(order@, r04_at(*ctx), k as int);
            }
            let found = r04_node(ctx, order[k], min);
            append_findings(&mut out, found);
            k += 1;
        }
        proof {
            lemma_collect_all(order@, r04_at(*ctx));
        }
        Ok(out)
    }
}

} // verus!
