//! R20: resource leaks — Python functions that open a file or connection
//! outside any `with` and never close it; TypeScript loops that add event
//! listeners without removing any.

use vstd::prelude::*;
use crate::finding::{views, Finding, FindingView, Severity, finding_at};
use crate::parser::Language;
use crate::rule::{append_findings, collect, lemma_collect_all, lemma_collect_step, AnalysisContext, Rule, RuleError, lemma_collect_tagged, tagged};
use crate::syntax::{kind_is, text_at, node_text, walk, walk_order, SyntaxNode};
use crate::text::{contains, contains_str};
use crate::unicode::string_of;

verus! {

pub struct ResourceLeak;

/// Node `a` or one of its ancestors has kind `k`.
pub open spec fn ancestor_or_self_is(nodes: Seq<SyntaxNode>, a: int, k: Seq<char>) -> bool
    decreases a + 1,
{
    if a < 0 || a >= nodes.len() {
        false
    } else if nodes[a].kind@ == k {
        true
    } else {
        match nodes[a].parent {
            Some(p) => (p as int) < a && ancestor_or_self_is(nodes, p as int, k),
            None => false,
        }
    }
}

/// A proper ancestor of node `i` has kind `k`.
pub open spec fn has_ancestor_kind(nodes: Seq<SyntaxNode>, i: int, k: Seq<char>) -> bool {
    match nodes[i].parent {
        Some(p) => (p as int) < i && ancestor_or_self_is(nodes, p as int, k),
        None => false,
    }
}

pub open spec fn subtree_has_with(nodes: Seq<SyntaxNode>, i: int) -> bool {
    let order = walk_order(nodes, i);
    exists|m: int| 0 <= m < order.len() && nodes[#[trigger] order[m] as int].kind@ == "with_statement"@
}

pub open spec fn python_leak(ctx: AnalysisContext, i: int) -> bool {
    let nodes = ctx.tree.nodes@;
    let t = text_at(ctx.source.chars@, nodes[i]);
    nodes[i].kind@ == "function_definition"@ && (contains(t, "open("@) || contains(t, ".connect("@))
        && !(has_ancestor_kind(nodes, i, "with_statement"@) || subtree_has_with(nodes, i)) && !contains(
        t,
        ".close()"@,
    )
}

pub open spec fn listener_leak(ctx: AnalysisContext, i: int) -> bool {
    let n = ctx.tree.nodes@[i];
    let t = text_at(ctx.source.chars@, n);
    (n.kind@ == "for_statement"@ || n.kind@ == "while_statement"@ || n.kind@ == "for_in_statement"@)
        && (contains(t, "addEventListener("@) || contains(t, ".on("@)) && !(contains(
        t,
        "removeEventListener("@,
    ) || contains(t, ".off("@))
}

pub open spec fn python_message() -> Seq<char> {
    "open()/connect() 未用 with 且无 .close()，疑似资源泄漏 | open()/connect() not in with and no .close(), possible resource leak"@
}

pub open spec fn ts_message() -> Seq<char> {
    "循环内 addEventListener/.on() 无配对 removeEventListener/.off()，监听器泄漏 | addEventListener/.on() in loop without removeEventListener/.off(), listener leak"@
}

pub open spec fn r20_at(ctx: AnalysisContext) -> spec_fn(usize) -> Seq<FindingView> {
    |i: usize|
        {
            let (hit, msg) = match ctx.language {
                Language::Python => (python_leak(ctx, i as int), python_message()),
                Language::TypeScript | Language::TypeScriptTsx => (listener_leak(ctx, i as int), ts_message()),
                _ => (false, seq![]),
            };
            if hit {
                seq![
                    finding_at(
                        "R20"@,
                        "resource-leak"@,
                        Severity::Warning,
                        ctx.file_path@,
                        *ctx.tree,
                        i as int,
                        ctx.source.chars@,
                        msg,
                    ),
                ]
            } else {
                seq![]
            }
        }
}

fn has_ancestor_with(ctx: &AnalysisContext, i: usize) -> (r: bool)
    requires
        ctx.wf(),
        i < ctx.tree.nodes@.len(),
    ensures
        r == has_ancestor_kind(ctx.tree.nodes@, i as int, "with_statement"@),
{
    let nodes = &ctx.tree.nodes;
    let mut cur: Option<usize> = match nodes[i].parent {
        Some(p) => if p < i {
            Some(p)
        } else {
            None
        },
        None => None,
    };
    loop
        invariant
            ctx.wf(),
            nodes == &ctx.tree.nodes,
            i < nodes@.len(),
            match cur {
                Some(a) => a < nodes@.len() && ancestor_or_self_is(nodes@, a as int, "with_statement"@)
                    == has_ancestor_kind(nodes@, i as int, "with_statement"@),
                None => !has_ancestor_kind(nodes@, i as int, "with_statement"@),
            },
        decreases match cur {
            Some(a) => a + 1,
            None => 0,
        },
    {
        match cur {
            None => {
                return false;
            },
            Some(a) => {
                if kind_is(ctx.tree, a, "with_statement") {
                    return true;
                }
                cur = match nodes[a].parent {
                    Some(p) => if p < a {
                        Some(p)
                    } else {
                        None
                    },
                    None => None,
                };
            },
        }
    }
}

fn subtree_has_with_exec(ctx: &AnalysisContext, i: usize) -> (r: bool)
    requires
        ctx.wf(),
        i < ctx.tree.nodes@.len(),
    ensures
        r == subtree_has_with(ctx.tree.nodes@, i as int),
{
    let order = walk(ctx.tree, i);
    let mut k: usize = 0;
    while k < order.len()
        invariant
            ctx.wf(),
            order@ == walk_order(ctx.tree.nodes@, i as int),
            forall|m: int| 0 <= m < order@.len() ==> #[trigger] order@[m] < ctx.tree.nodes@.len(),
            k <= order@.len(),
            forall|m: int| 0 <= m < k ==> ctx.tree.nodes@[#[trigger] order@[m] as int].kind@ != "with_statement"@,
        decreases order@.len() - k,
    {
        if kind_is(ctx.tree, order[k], "with_statement") {
            return true;
        }
        k += 1;
    }
    false
}

fn r20_node(ctx: &AnalysisContext, i: usize) -> (r: Vec<Finding>)
    requires
        ctx.wf(),
        i < ctx.tree.nodes@.len(),
    ensures
        views(r@) == (r20_at(*ctx))(i),
{
    let mut out: Vec<Finding> = Vec::new();
    let t = node_text(ctx.source, ctx.tree, i);
    let hit = match ctx.language {
        Language::Python => kind_is(ctx.tree, i, "function_definition") && (contains_str(&t, "open(")
            || contains_str(&t, ".connect(")) && !(has_ancestor_with(ctx, i) || subtree_has_with_exec(
            ctx,
            i,
        )) && !contains_str(&t, ".close()"),
        Language::TypeScript | Language::TypeScriptTsx => (kind_is(ctx.tree, i, "for_statement")
            || kind_is(ctx.tree, i, "while_statement") || kind_is(ctx.tree, i, "for_in_statement"))
            && (contains_str(&t, "addEventListener(") || contains_str(&t, ".on(")) && !(contains_str(
            &t,
            "removeEventListener(",
        ) || contains_str(&t, ".off(")),
        _ => false,
    };
    if hit {
        let m = if ctx.language == Language::Python {
            String::from_str(
                "open()/connect() 未用 with 且无 .close()，疑似资源泄漏 | open()/connect() not in with and no .close(), possible resource leak",
            )
        } else {
            String::from_str(
                "循环内 addEventListener/.on() 无配对 removeEventListener/.off()，监听器泄漏 | addEventListener/.on() in loop without removeEventListener/.off(), listener leak",
            )
        };
        let f = Finding::new("R20", "resource-leak", Severity::Warning, ctx.file_path, ctx.tree, i, ctx.source, m);
        out.push(f);
        assert(views(out@) =~= seq![f@]);
    } else {
        assert(views(out@) =~= Seq::<FindingView>::empty());
    }
    out
}

impl ResourceLeak {
    /// Every finding the rule reports carries its id and name.
    pub proof fn lemma_findings_tagged(&self, ctx: AnalysisContext)
        ensures
            tagged(self.spec_findings(ctx), self.spec_id(), self.spec_name()),
    {
        assert forall|n: usize| tagged(#[trigger] (r20_at(ctx))(n), self.spec_id(), self.spec_name()) by {}
        lemma_collect_tagged(walk_order(ctx.tree.nodes@, 0), r20_at(ctx), self.spec_id(), self.spec_name());
    }
}

impl Rule for ResourceLeak {
    open spec fn spec_id(&self) -> Seq<char> {
        "R20"@
    }

    open spec fn spec_name(&self) -> Seq<char> {
        "resource-leak"@
    }

    open spec fn spec_severity(&self) -> Severity {
        Severity::Warning
    }

    open spec fn spec_total(&self) -> bool {
        true
    }

    open spec fn spec_languages(&self) -> Seq<Language> {
        seq![Language::Python, Language::TypeScript, Language::TypeScriptTsx]
    }

    open spec fn spec_findings(&self, ctx: AnalysisContext) -> Seq<FindingView> {
        collect(walk_order(ctx.tree.nodes@, 0), r20_at(ctx))
    }

    fn id(&self) -> (r: &'static str) {
        "R20"
    }

    fn name(&self) -> (r: &'static str) {
        "resource-leak"
    }

    fn severity(&self) -> (r: Severity) {
        Severity::Warning
    }

    fn languages(&self) -> (r: &'static [Language]) {
        &[Language::Python, Language::TypeScript, Language::TypeScriptTsx]
    }

    fn analyze(&self, ctx: &AnalysisContext) -> (r: Result<Vec<Finding>, RuleError>)
        ensures
            r is Ok,
    {
        proof {
            self.lemma_findings_tagged(*ctx);
        }
        let order = walk(ctx.tree, 0);
        let mut out: Vec<Finding> = Vec::new();
        let mut k: usize = 0;
        while k < order.len()
            invariant
                ctx.wf(),
                order@ == walk_order(ctx.tree.nodes@, 0),
                forall|m: int| 0 <= m < order@.len() ==> #[trigger] order@[m] < ctx.tree.nodes@.len(),
                k <= order@.len(),
                views(out@) == collect(order@.take(k as int), r20_at(*ctx)),
            decreases order@.len() - k,
        {
            proof {
                lemma_collect_step(order@, r20_at(*ctx), k as int);
            }
            let found = r20_node(ctx, order[k]);
            append_findings(&mut out, found);
            k += 1;
        }
        proof {
            lemma_collect_all(order@, r20_at(*ctx));
        }
        Ok(out)
    }
}

} // verus!
