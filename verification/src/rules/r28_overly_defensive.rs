//! R28: defensive handling of values that cannot fail — `Some(x).unwrap_or(..)`
//! in Rust, `"literal" ?? fallback` in TypeScript.

use vstd::prelude::*;
use crate::finding::{views, Finding, FindingView, Severity, finding_at_plain};
use crate::parser::Language;
use crate::pieces::before_first_str;
use crate::rule::{append_findings, collect, lemma_collect_all, lemma_collect_step, AnalysisContext, Rule, RuleError, lemma_collect_tagged, tagged};
use crate::syntax::{kind_is, text_at, node_text, walk, walk_order, SyntaxNode};
use crate::text::{before_first, contains, contains_str, push_chars, push_str, starts_with, starts_with_str, trim, trim_exec};
use crate::unicode::{all_digits, is_ascii_digit_exec};

verus! {

pub struct OverlyDefensiveHandling;

/// The first of `unwrap_or`, `unwrap_or_default`, `unwrap_or_else` called
/// as `.m(` in the text.
pub open spec fn fallback_method(t: Seq<char>) -> Option<Seq<char>> {
    if contains(t, ".unwrap_or("@) {
        Some("unwrap_or"@)
    } else if contains(t, ".unwrap_or_default("@) {
        Some("unwrap_or_default"@)
    } else if contains(t, ".unwrap_or_else("@) {
        Some("unwrap_or_else"@)
    } else {
        None
    }
}

/// Among the children `ch[k..]` of a field expression: the text of the first
/// that is not the field name.
pub open spec fn object_part(ctx: AnalysisContext, ch: Seq<usize>, k: int) -> Option<Seq<char>>
    decreases ch.len() - k,
{
    if k < 0 || k >= ch.len() {
        None
    } else if ch[k] < ctx.tree.nodes@.len() && ctx.tree.nodes@[ch[k] as int].kind@ != "field_identifier"@ {
        Some(text_at(ctx.source.chars@, ctx.tree.nodes@[ch[k] as int]))
    } else if ch[k] >= ctx.tree.nodes@.len() {
        None
    } else {
        object_part(ctx, ch, k + 1)
    }
}

/// The receiver of a method call: the object of its first field expression
/// that has one; empty otherwise.
pub open spec fn receiver_from(ctx: AnalysisContext, ch: Seq<usize>, k: int) -> Seq<char>
    decreases ch.len() - k,
{
    if k < 0 || k >= ch.len() {
        seq![]
    } else {
        let c = ch[k];
        if c < ctx.tree.nodes@.len() && ctx.tree.nodes@[c as int].kind@ == "field_expression"@ {
            match object_part(ctx, ctx.tree.nodes@[c as int].children@, 0) {
                Some(t) => t,
                None => receiver_from(ctx, ch, k + 1),
            }
        } else {
            receiver_from(ctx, ch, k + 1)
        }
    }
}

pub open spec fn rust_message(recv: Seq<char>, m: Seq<char>) -> Seq<char> {
    "对 "@ + recv + " 调用 "@ + m + " 是过度防御——该值类型上保证不可失败 | "@ + m + " on "@ + recv
        + " is overly defensive — value cannot fail"@
}

pub open spec fn ts_message(left: Seq<char>) -> Seq<char> {
    "对不可空字面量 "@ + left + " 使用 ?? 是过度防御 | ?? on non-null literal "@ + left
        + " is overly defensive"@
}

/// The message for node `i`, when it handles a value that cannot fail.
pub open spec fn r28_hit(ctx: AnalysisContext, i: int) -> Option<Seq<char>> {
    let n = ctx.tree.nodes@[i];
    let t = text_at(ctx.source.chars@, n);
    match ctx.language {
        Language::Rust => if n.kind@ == "call_expression"@ {
            match fallback_method(t) {
                Some(m) => {
                    let recv = trim(receiver_from(ctx, n.children@, 0));
                    if starts_with(recv, "Some("@) || starts_with(recv, "Ok("@) {
                        Some(rust_message(recv, m))
                    } else {
                        None
                    }
                },
                None => None,
            }
        } else {
            None
        },
        Language::TypeScript | Language::TypeScriptTsx => if n.kind@ == "nullish_coalescing_expression"@ {
            let left = trim(before_first(t, "??"@));
            if starts_with(left, "\""@) || starts_with(left, "'"@) || all_digits(left) {
                Some(ts_message(left))
            } else {
                None
            }
        } else {
            None
        },
        _ => None,
    }
}

pub open spec fn r28_at(ctx: AnalysisContext) -> spec_fn(usize) -> Seq<FindingView> {
    |i: usize|
        match r28_hit(ctx, i as int) {
            Some(m) => seq![
                finding_at_plain(
                    "R28"@,
                    "overly-defensive-handling"@,
                    Severity::Info,
                    ctx.file_path@,
                    *ctx.tree,
                    i as int,
                    m,
                ),
            ],
            None => seq![],
        }
}

fn object_part_exec(ctx: &AnalysisContext, c: usize) -> (r: Option<Vec<char>>)
    requires
        ctx.wf(),
        c < ctx.tree.nodes@.len(),
    ensures
        match r {
            Some(v) => object_part(*ctx, ctx.tree.nodes@[c as int].children@, 0) == Some(v@),
            None => object_part(*ctx, ctx.tree.nodes@[c as int].children@, 0) is None,
        },
{
    let ch = &ctx.tree.nodes[c].children;
    let mut k: usize = 0;
    while k < ch.len()
        invariant
            ctx.wf(),
            c < ctx.tree.nodes@.len(),
            ch == &ctx.tree.nodes@[c as int].children,
            k <= ch@.len(),
            object_part(*ctx, ch@, k as int) == object_part(*ctx, ch@, 0),
        decreases ch@.len() - k,
    {
        let x = ch[k];
        if x >= ctx.tree.nodes.len() {
            return None;
        }
        if !kind_is(ctx.tree, x, "field_identifier") {
            return Some(node_text(ctx.source, ctx.tree, x));
        }
        k += 1;
    }
    None
}

fn receiver_exec(ctx: &AnalysisContext, i: usize) -> (r: Vec<char>)
    requires
        ctx.wf(),
        i < ctx.tree.nodes@.len(),
    ensures
        r@ == receiver_from(*ctx, ctx.tree.nodes@[i as int].children@, 0),
{
    let ch = &ctx.tree.nodes[i].children;
    let mut k: usize = 0;
    while k < ch.len()
        invariant
            ctx.wf(),
            i < ctx.tree.nodes@.len(),
            ch == &ctx.tree.nodes@[i as int].children,
            k <= ch@.len(),
            receiver_from(*ctx, ch@, k as int) == receiver_from(*ctx, ch@, 0),
        decreases ch@.len() - k,
    {
        let c = ch[k];
        if c < ctx.tree.nodes.len() && kind_is(ctx.tree, c, "field_expression") {
            match object_part_exec(ctx, c) {
                Some(t) => {
                    return t;
                },
                None => {},
            }
        }
        k += 1;
    }
    Vec::new()
}

fn all_digits_exec(s: &Vec<char>) -> (r: bool)
    ensures
        r == all_digits(s@),
{
    let mut k: usize = 0;
    while k < s.len()
        invariant
            k <= s@.len(),
            forall|m: int| 0 <= m < k ==> crate::unicode::is_ascii_digit(#[trigger] s@[m]),
        decreases s@.len() - k,
    {
        if !is_ascii_digit_exec(s[k]) {
            return false;
        }
        k += 1;
    }
    true
}

fn r28_hit_exec(ctx: &AnalysisContext, i: usize) -> (r: Option<Vec<char>>)
    requires
        ctx.wf(),
        i < ctx.tree.nodes@.len(),
    ensures
        match r {
            Some(v) => r28_hit(*ctx, i as int) == Some(v@),
            None => r28_hit(*ctx, i as int) is None,
        },
{
    let t = node_text(ctx.source, ctx.tree, i);
    match ctx.language {
        Language::Rust => {
            if !kind_is(ctx.tree, i, "call_expression") {
                return None;
            }
            let m: &str = if contains_str(&t, ".unwrap_or(") {
                "unwrap_or"
            } else if contains_str(&t, ".unwrap_or_default(") {
                "unwrap_or_default"
            } else if contains_str(&t, ".unwrap_or_else(") {
                "unwrap_or_else"
            } else {
                return None;
            };
            assert(fallback_method(t@) == Some(m@));
            let rv = receiver_exec(ctx, i);
            let recv = trim_exec(&rv);
            if starts_with_str(&recv, "Some(") || starts_with_str(&recv, "Ok(") {
                let mut msg: Vec<char> = Vec::new();
                push_str(&mut msg, "对 ");
                push_chars(&mut msg, &recv);
                push_str(&mut msg, " 调用 ");
                push_str(&mut msg, m);
                push_str(&mut msg, " 是过度防御——该值类型上保证不可失败 | ");
                push_str(&mut msg, m);
                push_str(&mut msg, " on ");
                push_chars(&mut msg, &recv);
                push_str(&mut msg, " is overly defensive — value cannot fail");
                assert(msg@ =~= rust_message(recv@, m@));
                Some(msg)
            } else {
                None
            }
        },
        Language::TypeScript | Language::TypeScriptTsx => {
            if !kind_is(ctx.tree, i, "nullish_coalescing_expression") {
                return None;
            }
            let l0 = before_first_str(&t, "??");
            let left = trim_exec(&l0);
            if starts_with_str(&left, "\"") || starts_with_str(&left, "'") || all_digits_exec(&left) {
                let mut msg: Vec<char> = Vec::new();
                push_str(&mut msg, "对不可空字面量 ");
                push_chars(&mut msg, &left);
                push_str(&mut msg, " 使用 ?? 是过度防御 | ?? on non-null literal ");
                push_chars(&mut msg, &left);
                push_str(&mut msg, " is overly defensive");
                assert(msg@ =~= ts_message(left@));
                Some(msg)
            } else {
                None
            }
        },
        _ => None,
    }
}

fn r28_node(ctx: &AnalysisContext, i: usize) -> (r: Vec<Finding>)
    requires
        ctx.wf(),
        i < ctx.tree.nodes@.len(),
    ensures
        views(r@) == (r28_at(*ctx))(i),
{
    let mut out: Vec<Finding> = Vec::new();
    match r28_hit_exec(ctx, i) {
        Some(m) => {
            let f = Finding::at_node("R28", "overly-defensive-handling", Severity::Info, ctx.file_path, ctx.tree, i, m);
            out.push(f);
            assert(views(out@) =~= seq![f@]);
        },
        None => {
            assert(views(out@) =~= Seq::<FindingView>::empty());
        },
    }
    out
}

impl OverlyDefensiveHandling {
    /// Every finding the rule reports carries its id and name.
    pub proof fn lemma_findings_tagged(&self, ctx: AnalysisContext)
        ensures
            tagged(self.spec_findings(ctx), self.spec_id(), self.spec_name()),
    {
        assert forall|n: usize| tagged(#[trigger] (r28_at(ctx))(n), self.spec_id(), self.spec_name()) by {}
        lemma_collect_tagged(walk_order(ctx.tree.nodes@, 0), r28_at(ctx), self.spec_id(), self.spec_name());
    }
}

impl Rule for OverlyDefensiveHandling {
    open spec fn spec_id(&self) -> Seq<char> {
        "R28"@
    }

    open spec fn spec_name(&self) -> Seq<char> {
        "overly-defensive-handling"@
    }

    open spec fn spec_severity(&self) -> Severity {
        Severity::Info
    }

    open spec fn spec_total(&self) -> bool {
        true
    }

    /// Rust and TypeScript, the languages the checks cover.
    open spec fn spec_languages(&self) -> Seq<Language> {
        seq![Language::Rust, Language::TypeScript, Language::TypeScriptTsx]
    }

    open spec fn spec_findings(&self, ctx: AnalysisContext) -> Seq<FindingView> {
        collect(walk_order(ctx.tree.nodes@, 0), r28_at(ctx))
    }

    fn id(&self) -> (r: &'static str) {
        "R28"
    }

    fn name(&self) -> (r: &'static str) {
        "overly-defensive-handling"
    }

    fn severity(&self) -> (r: Severity) {
        Severity::Info
    }

    fn languages(&self) -> (r: &'static [Language]) {
        &[Language::Rust, Language::TypeScript, Language::TypeScriptTsx]
    }

    fn analyze(&self, ctx: &AnalysisContext) -> (r: Result<Vec<Finding>, RuleError>)
        ensures
            r is Ok,
    {
        proof {
            self.lemma_findings_tagged(*ctx);
        }
        let order = walk(ctx.tree, 0);
        let mut out: Vec<Finding> = Vec::new();
        let mut k: usize = 0;
        while k < order.len()
            invariant
                ctx.wf(),
                order@ == walk_order(ctx.tree.nodes@, 0),
                forall|m: int| 0 <= m < order@.len() ==> #[trigger] order@[m] < ctx.tree.nodes@.len(),
                k <= order@.len(),
                views(out@) == collect(order@.take(k as int), r28_at(*ctx)),
            decreases order@.len() - k,
        {
            proof {
                lemma_collect_step(order@, r28_at(*ctx), k as int);
            }
            let found = r28_node(ctx, order[k]);
            append_findings(&mut out, found);
            k += 1;
        }
        proof {
            lemma_collect_all(order@, r28_at(*ctx));
        }
        Ok(out)
    }
}

} // verus!
