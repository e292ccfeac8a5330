//! R19: N+1 queries — a loop over a query result that reads a relation of
//! each row, with no prefetching on the query.

use vstd::prelude::*;
use crate::finding::{views, Finding, FindingView, Severity, finding_at_plain};
use crate::nav::{first_child_in, first_child_in_exec, kind_in, strs};
use crate::parser::Language;
use crate::pieces::before_any_exec;
use crate::rule::{append_findings, collect, lemma_collect_all, lemma_collect_step, AnalysisContext, Rule, RuleError, lemma_collect_tagged, tagged};
use crate::rules::r15_missing_validation::{contains_any, contains_any_exec};
use crate::syntax::{kind_is, text_at, node_text, walk, walk_order, SyntaxNode};
use crate::text::{before_any, chars_of, contains, contains_str, eq_str, push_str, starts_with};

verus! {

pub struct NPlusOneQuery;

pub open spec fn queryset_signals() -> Seq<Seq<char>> {
    seq![".objects"@, ".filter("@, ".all()"@, ".query"@, ".exclude("@, ".order_by("@]
}

pub open spec fn ts_query_signals() -> Seq<Seq<char>> {
    seq![
        ".findMany("@, ".find("@, "prisma."@, ".query("@, "from(\""@, "Model.objects"@,
        "db.collection"@, ".findAll("@,
    ]
}

pub open spec fn prefetch_signals() -> Seq<Seq<char>> {
    seq!["select_related"@, "prefetch_related"@]
}

pub open spec fn ts_prefetch_signals() -> Seq<Seq<char>> {
    seq![".include("@, ".with("@, "eager_load"@, ".joins("@]
}

/// Position of the first `in` child from `k` on.
pub open spec fn in_position(nodes: Seq<SyntaxNode>, ch: Seq<usize>, k: int) -> Option<int>
    decreases ch.len() - k,
{
    if k < 0 || k >= ch.len() {
        None
    } else if ch[k] < nodes.len() && nodes[ch[k] as int].kind@ == "in"@ {
        Some(k)
    } else {
        in_position(nodes, ch, k + 1)
    }
}

/// The iterable of a Python `for`: the first call, identifier or attribute
/// after `in`.
pub open spec fn for_source(ctx: AnalysisContext, i: int) -> Seq<char> {
    let nodes = ctx.tree.nodes@;
    let ch = nodes[i].children@;
    match in_position(nodes, ch, 0) {
        Some(p) => match crate::nav::first_child_in_from(
            nodes,
            i,
            seq!["call"@, "identifier"@, "attribute"@],
            p + 1,
        ) {
            Some(c) => text_at(ctx.source.chars@, nodes[c as int]),
            None => seq![],
        },
        None => seq![],
    }
}

/// The loop variable: the first identifier child.
pub open spec fn for_var(ctx: AnalysisContext, i: int) -> Seq<char> {
    match first_child_in(ctx.tree.nodes@, i, seq!["identifier"@]) {
        Some(c) => text_at(ctx.source.chars@, ctx.tree.nodes@[c as int]),
        None => seq![],
    }
}

pub open spec fn builtin_fields() -> Seq<Seq<char>> {
    seq!["id"@, "pk"@, "save"@, "delete"@, "objects"@, "exists"@, "count"@]
}

/// Node `n` reads a field of `v` other than a built-in one.
pub open spec fn relation_at(ctx: AnalysisContext, n: int, v: Seq<char>) -> bool {
    let t = text_at(ctx.source.chars@, ctx.tree.nodes@[n]);
    let pre = v + "."@;
    starts_with(t, pre) && !builtin_fields().contains(
        before_any(t.skip(pre.len() as int), seq!['(', '.', ';', ' ']),
    )
}

pub open spec fn accesses_relation(ctx: AnalysisContext, i: int, v: Seq<char>) -> bool {
    let order = walk_order(ctx.tree.nodes@, i);
    exists|m: int| 0 <= m < order.len() && relation_at(ctx, #[trigger] order[m] as int, v)
}

pub open spec fn python_message() -> Seq<char> {
    "循环遍历 queryset 访问关系字段可能触发 N+1 查询，建议用 select_related/prefetch_related | iterating queryset and accessing relation may cause N+1 query, use select_related/prefetch_related"@
}

pub open spec fn ts_message() -> Seq<char> {
    ".map/.forEach 遍历查询结果访问关系字段可能触发 N+1 查询，建议用 include/with | .map/.forEach over query result accessing relation may cause N+1 query, use include/with"@
}

pub open spec fn python_n_plus_one(ctx: AnalysisContext, i: int) -> bool {
    let src = for_source(ctx, i);
    let v = for_var(ctx, i);
    ctx.tree.nodes@[i].kind@ == "for_statement"@ && contains_any(src, queryset_signals())
        && !contains_any(src, prefetch_signals()) && v.len() > 0 && accesses_relation(ctx, i, v)
}

pub open spec fn ts_n_plus_one(ctx: AnalysisContext, i: int) -> bool {
    let t = text_at(ctx.source.chars@, ctx.tree.nodes@[i]);
    ctx.tree.nodes@[i].kind@ == "call_expression"@ && (contains(t, ".map("@) || contains(
        t,
        ".forEach("@,
    )) && contains_any(t, ts_query_signals()) && !contains_any(t, ts_prefetch_signals()) && (
    contains(t, "=> x."@) || contains(t, "=> item."@) || contains(t, "=> row."@))
}

pub open spec fn r19_at(ctx: AnalysisContext) -> spec_fn(usize) -> Seq<FindingView> {
    |i: usize|
        {
            let msg = if ctx.language == Language::Python {
                python_message()
            } else {
                ts_message()
            };
            let hit = match ctx.language {
                Language::Python => python_n_plus_one(ctx, i as int),
                Language::TypeScript | Language::TypeScriptTsx => ts_n_plus_one(ctx, i as int),
                _ => false,
            };
            if hit {
                seq![
                    finding_at_plain(
                        "R19"@,
                        "n-plus-one-query"@,
                        Severity::Warning,
                        ctx.file_path@,
                        *ctx.tree,
                        i as int,
                        msg,
                    ),
                ]
            } else {
                seq![]
            }
        }
}

fn in_position_exec(ctx: &AnalysisContext, i: usize) -> (r: Option<usize>)
    requires
        ctx.wf(),
        i < ctx.tree.nodes@.len(),
    ensures
        match r {
            Some(k) => k < ctx.tree.nodes@[i as int].children@.len() && in_position(
                ctx.tree.nodes@,
                ctx.tree.nodes@[i as int].children@,
                0,
            ) == Some(k as int),
            None => in_position(ctx.tree.nodes@, ctx.tree.nodes@[i as int].children@, 0) is None,
        },
{
    let nodes = &ctx.tree.nodes;
    let ch = &nodes[i].children;
    let mut k: usize = 0;
    while k < ch.len()
        invariant
            ctx.wf(),
            nodes == &ctx.tree.nodes,
            i < nodes@.len(),
            ch == &nodes@[i as int].children,
            k <= ch@.len(),
            in_position(nodes@, ch@, k as int) == in_position(nodes@, ch@, 0),
        decreases ch@.len() - k,
    {
        if ch[k] < nodes.len() && kind_is(ctx.tree, ch[k], "in") {
            return Some(k);
        }
        k += 1;
    }
    None
}

fn for_source_exec(ctx: &AnalysisContext, i: usize) -> (r: Vec<char>)
    requires
        ctx.wf(),
        i < ctx.tree.nodes@.len(),
    ensures
        r@ == for_source(*ctx, i as int),
{
    let nodes = &ctx.tree.nodes;
    let ch = &nodes[i].children;
    let k = match in_position_exec(ctx, i) {
        Some(k) => k,
        None => {
            return Vec::new();
        },
    };
    let ks: &[&str] = &["call", "identifier", "attribute"];
    assert(strs(ks@) =~= seq!["call"@, "identifier"@, "attribute"@]);
    let cl = ch.len();
    assert(k < cl);
    let mut j: usize = k + 1;
    while j < ch.len()
        invariant
            ctx.wf(),
            nodes == &ctx.tree.nodes,
            i < nodes@.len(),
            ch == &nodes@[i as int].children,
            k < j <= ch@.len(),
            in_position(nodes@, ch@, 0) == Some(k as int),
            strs(ks@) == seq!["call"@, "identifier"@, "attribute"@],
            crate::nav::first_child_in_from(nodes@, i as int, strs(ks@), j as int)
                == crate::nav::first_child_in_from(nodes@, i as int, strs(ks@), k + 1),
        decreases ch@.len() - j,
    {
        let c = ch[j];
        if c < nodes.len() && kind_in(&nodes[c].kind, ks) {
            return node_text(ctx.source, ctx.tree, c);
        }
        j += 1;
    }
    Vec::new()
}

fn for_var_exec(ctx: &AnalysisContext, i: usize) -> (r: Vec<char>)
    requires
        ctx.wf(),
        i < ctx.tree.nodes@.len(),
    ensures
        r@ == for_var(*ctx, i as int),
{
    let ks: &[&str] = &["identifier"];
    assert(strs(ks@) =~= seq!["identifier"@]);
    match first_child_in_exec(ctx.tree, i, ks) {
        Some(c) => node_text(ctx.source, ctx.tree, c),
        None => Vec::new(),
    }
}

fn relation_at_exec(ctx: &AnalysisContext, n: usize, pre: &Vec<char>, v: &Vec<char>) -> (r: bool)
    requires
        ctx.wf(),
        n < ctx.tree.nodes@.len(),
        pre@ == v@ + "."@,
    ensures
        r == relation_at(*ctx, n as int, v@),
{
    let t = node_text(ctx.source, ctx.tree, n);
    if !crate::text::occurs_at_exec(&t, pre, 0) {
        return false;
    }
    let tl = t.len();
    let rest = crate::text::slice_of(&t, pre.len(), tl);
    let seps: Vec<char> = vec!['(', '.', ';', ' '];
    assert(seps@ =~= seq!['(', '.', ';', ' ']);
    let field = before_any_exec(&rest, &seps);
    let bs: &[&str] = &["id", "pk", "save", "delete", "objects", "exists", "count"];
    assert(strs(bs@) =~= builtin_fields());
    !kind_in(&field, bs)
}

fn accesses_relation_exec(ctx: &AnalysisContext, i: usize, v: &Vec<char>) -> (r: bool)
    requires
        ctx.wf(),
        i < ctx.tree.nodes@.len(),
    ensures
        r == accesses_relation(*ctx, i as int, v@),
{
    let mut pre = v.clone();
    push_str(&mut pre, ".");
    let order = walk(ctx.tree, i);
    let mut k: usize = 0;
    while k < order.len()
        invariant
            ctx.wf(),
            order@ == walk_order(ctx.tree.nodes@, i as int),
            forall|m: int| 0 <= m < order@.len() ==> #[trigger] order@[m] < ctx.tree.nodes@.len(),
            pre@ == v@ + "."@,
            k <= order@.len(),
            forall|m: int| 0 <= m < k ==> !relation_at(*ctx, #[trigger] order@[m] as int, v@),
        decreases order@.len() - k,
    {
        if relation_at_exec(ctx, order[k], &pre, v) {
            return true;
        }
        k += 1;
    }
    false
}

fn python_hit(ctx: &AnalysisContext, i: usize) -> (r: bool)
    requires
        ctx.wf(),
        i < ctx.tree.nodes@.len(),
    ensures
        r == python_n_plus_one(*ctx, i as int),
{
    if !kind_is(ctx.tree, i, "for_statement") {
        return false;
    }
    let src = for_source_exec(ctx, i);
    let qs: &[&str] = &[".objects", ".filter(", ".all()", ".query", ".exclude(", ".order_by("];
    assert(strs(qs@) =~= queryset_signals());
    let ps: &[&str] = &["select_related", "prefetch_related"];
    assert(strs(ps@) =~= prefetch_signals());
    if !contains_any_exec(&src, qs) || contains_any_exec(&src, ps) {
        return false;
    }
    let v = for_var_exec(ctx, i);
    if v.len() == 0 {
        return false;
    }
    accesses_relation_exec(ctx, i, &v)
}

fn ts_hit(ctx: &AnalysisContext, i: usize) -> (r: bool)
    requires
        ctx.wf(),
        i < ctx.tree.nodes@.len(),
    ensures
        r == ts_n_plus_one(*ctx, i as int),
{
    if !kind_is(ctx.tree, i, "call_expression") {
        return false;
    }
    let t = node_text(ctx.source, ctx.tree, i);
    let qs: &[&str] = &[
        ".findMany(", ".find(", "prisma.", ".query(", "from(\"", "Model.objects", "db.collection",
        ".findAll(",
    ];
    assert(strs(qs@) =~= ts_query_signals());
    let ps: &[&str] = &[".include(", ".with(", "eager_load", ".joins("];
    assert(strs(ps@) =~= ts_prefetch_signals());
    (contains_str(&t, ".map(") || contains_str(&t, ".forEach(")) && contains_any_exec(&t, qs)
        && !contains_any_exec(&t, ps) && (contains_str(&t, "=> x.") || contains_str(&t, "=> item.")
        || contains_str(&t, "=> row."))
}

fn r19_node(ctx: &AnalysisContext, i: usize) -> (r: Vec<Finding>)
    requires
        ctx.wf(),
        i < ctx.tree.nodes@.len(),
    ensures
        views(r@) == (r19_at(*ctx))(i),
{
    let mut out: Vec<Finding> = Vec::new();
    let hit = match ctx.language {
        Language::Python => python_hit(ctx, i),
        Language::TypeScript | Language::TypeScriptTsx => ts_hit(ctx, i),
        _ => false,
    };
    if hit {
        let m = if ctx.language == Language::Python {
            chars_of(
                "循环遍历 queryset 访问关系字段可能触发 N+1 查询，建议用 select_related/prefetch_related | iterating queryset and accessing relation may cause N+1 query, use select_related/prefetch_related",
            )
        } else {
            chars_of(
                ".map/.forEach 遍历查询结果访问关系字段可能触发 N+1 查询，建议用 include/with | .map/.forEach over query result accessing relation may cause N+1 query, use include/with",
            )
        };
        let f = Finding::at_node("R19", "n-plus-one-query", Severity::Warning, ctx.file_path, ctx.tree, i, m);
        out.push(f);
        assert(views(out@) =~= seq![f@]);
    } else {
        assert(views(out@) =~= Seq::<FindingView>::empty());
    }
    out
}

impl NPlusOneQuery {
    /// Every finding the rule reports carries its id and name.
    pub proof fn lemma_findings_tagged(&self, ctx: AnalysisContext)
        ensures
            tagged(self.spec_findings(ctx), self.spec_id(), self.spec_name()),
    {
        assert forall|n: usize| tagged(#[trigger] (r19_at(ctx))(n), self.spec_id(), self.spec_name()) by {}
        lemma_collect_tagged(walk_order(ctx.tree.nodes@, 0), r19_at(ctx), self.spec_id(), self.spec_name());
    }
}

impl Rule for NPlusOneQuery {
    open spec fn spec_id(&self) -> Seq<char> {
        "R19"@
    }

    open spec fn spec_name(&self) -> Seq<char> {
        "n-plus-one-query"@
    }

    open spec fn spec_severity(&self) -> Severity {
        Severity::Warning
    }

    open spec fn spec_total(&self) -> bool {
        true
    }

    /// Python and TypeScript, the languages the checks cover.
    open spec fn spec_languages(&self) -> Seq<Language> {
        seq![Language::Python, Language::TypeScript, Language::TypeScriptTsx]
    }

    open spec fn spec_findings(&self, ctx: AnalysisContext) -> Seq<FindingView> {
        collect(walk_order(ctx.tree.nodes@, 0), r19_at(ctx))
    }

    fn id(&self) -> (r: &'static str) {
        "R19"
    }

    fn name(&self) -> (r: &'static str) {
        "n-plus-one-query"
    }

    fn severity(&self) -> (r: Severity) {
        Severity::Warning
    }

    fn languages(&self) -> (r: &'static [Language]) {
        &[Language::Python, Language::TypeScript, Language::TypeScriptTsx]
    }

    fn analyze(&self, ctx: &AnalysisContext) -> (r: Result<Vec<Finding>, RuleError>)
        ensures
            r is Ok,
    {
        proof {
            self.lemma_findings_tagged(*ctx);
        }
        let order = walk(ctx.tree, 0);
        let mut out: Vec<Finding> = Vec::new();
        let mut k: usize = 0;
        while k < order.len()
            invariant
                ctx.wf(),
                order@ == walk_order(ctx.tree.nodes@, 0),
                forall|m: int| 0 <= m < order@.len() ==> #[trigger] order@[m] < ctx.tree.nodes@.len(),
                k <= order@.len(),
                views(out@) == collect(order@.take(k as int), r19_at(*ctx)),
            decreases order@.len() - k,
        {
            proof {
                lemma_collect_step(order@, r19_at(*ctx), k as int);
            }
            let found = r19_node(ctx, order[k]);
            append_findings(&mut out, found);
            k += 1;
        }
        proof {
            lemma_collect_all(order@, r19_at(*ctx));
        }
        Ok(out)
    }
}

} // verus!
