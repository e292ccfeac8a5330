//! R18: calls to a file's own async functions that are not awaited (nor, in
//! TypeScript, chained with `.then`/`.catch`/`.finally`).

use vstd::prelude::*;
use crate::finding::{views, Finding, FindingView, Severity, finding_at};
use crate::nav::{first_child_in, first_child_in_exec, strs};
use crate::parser::Language;
use crate::pieces::before_first_str;
use crate::rule::{append_findings, collect, lemma_collect_all, lemma_collect_step, AnalysisContext, Rule, RuleError, lemma_collect_tagged, tagged};
use crate::rules::r07_dead_code::{char_views, contains_text};
use crate::syntax::{kind_is, text_at, node_text, walk, walk_order};
use crate::text::{before_first, contains, contains_str, push_chars, push_str, starts_with, starts_with_str};
use crate::unicode::string_of;

verus! {

pub struct AsyncMissingAwait;

/// The text of the first identifier child of node `i`, if any.
pub open spec fn first_identifier(ctx: AnalysisContext, i: int) -> Option<Seq<char>> {
    match first_child_in(ctx.tree.nodes@, i, seq!["identifier"@]) {
        Some(c) => Some(text_at(ctx.source.chars@, ctx.tree.nodes@[c as int])),
        None => None,
    }
}

/// The identifiers under the `variable_declarator` children `ch[..k]`.
pub open spec fn declarator_names(ctx: AnalysisContext, ch: Seq<usize>, k: int) -> Seq<Seq<char>>
    decreases k,
{
    if k <= 0 || k > ch.len() {
        seq![]
    } else {
        let c = ch[k - 1];
        declarator_names(ctx, ch, k - 1) + if c < ctx.tree.nodes@.len()
            && ctx.tree.nodes@[c as int].kind@ == "variable_declarator"@ {
            let gc = ctx.tree.nodes@[c as int].children@;
            identifiers_among(ctx, gc, gc.len() as int)
        } else {
            seq![]
        }
    }
}

/// The texts of the identifiers among `ch[..k]`.
pub open spec fn identifiers_among(ctx: AnalysisContext, ch: Seq<usize>, k: int) -> Seq<Seq<char>>
    decreases k,
{
    if k <= 0 || k > ch.len() {
        seq![]
    } else {
        let c = ch[k - 1];
        identifiers_among(ctx, ch, k - 1) + if c < ctx.tree.nodes@.len()
            && ctx.tree.nodes@[c as int].kind@ == "identifier"@ {
            seq![text_at(ctx.source.chars@, ctx.tree.nodes@[c as int])]
        } else {
            seq![]
        }
    }
}

/// The async function names node `n` declares.
pub open spec fn async_names_at(ctx: AnalysisContext, n: int) -> Seq<Seq<char>> {
    let node = ctx.tree.nodes@[n];
    let t = text_at(ctx.source.chars@, node);
    if ctx.language == Language::Python {
        if node.kind@ == "function_definition"@ && (starts_with(t, "async def"@) || starts_with(
            t,
            "asyncdef"@,
        )) {
            match first_identifier(ctx, n) {
                Some(x) => seq![x],
                None => seq![],
            }
        } else {
            seq![]
        }
    } else {
        (if node.kind@ == "function_declaration"@ && starts_with(t, "async function"@) {
            match first_identifier(ctx, n) {
                Some(x) => seq![x],
                None => seq![],
            }
        } else {
            seq![]
        }) + if (node.kind@ == "variable_declaration"@ || node.kind@ == "lexical_declaration"@)
            && contains(t, "async"@) {
            declarator_names(ctx, node.children@, node.children@.len() as int)
        } else {
            seq![]
        }
    }
}

pub open spec fn async_names_over(ctx: AnalysisContext, order: Seq<usize>, k: int) -> Seq<Seq<char>>
    decreases k,
{
    if k <= 0 || k > order.len() {
        seq![]
    } else {
        async_names_over(ctx, order, k - 1) + async_names_at(ctx, order[k - 1] as int)
    }
}

/// The names of the file's async functions.
pub open spec fn async_names(ctx: AnalysisContext) -> Seq<Seq<char>> {
    let order = walk_order(ctx.tree.nodes@, 0);
    async_names_over(ctx, order, order.len() as int)
}

pub open spec fn parent_text(ctx: AnalysisContext, i: int) -> Option<Seq<char>> {
    match ctx.tree.nodes@[i].parent {
        Some(p) => if p < ctx.tree.nodes@.len() {
            Some(text_at(ctx.source.chars@, ctx.tree.nodes@[p as int]))
        } else {
            None
        },
        None => None,
    }
}

pub open spec fn is_awaited(ctx: AnalysisContext, i: int) -> bool {
    match parent_text(ctx, i) {
        Some(t) => starts_with(t, "await "@) || starts_with(t, "await("@) || starts_with(t, "await\t"@),
        None => false,
    }
}

/// A call that starts where its enclosing function definition starts.
pub open spec fn is_definition_site(ctx: AnalysisContext, i: int) -> bool {
    match ctx.tree.nodes@[i].parent {
        Some(p) => p < ctx.tree.nodes@.len() && {
            let pn = ctx.tree.nodes@[p as int];
            (pn.kind@ == "function_definition"@ || pn.kind@ == "function_declaration"@)
                && ctx.tree.nodes@[i].start_byte == pn.start_byte
        },
        None => false,
    }
}

pub open spec fn r18_message(f: Seq<char>, python: bool) -> Seq<char> {
    if python {
        "async 函数 "@ + f + " 的调用未加 await，返回 coroutine 而非结果 | call to async function "@ + f
            + " without await, returns coroutine instead of result"@
    } else {
        "async 函数 "@ + f + " 的调用未加 await，返回 Promise 而非结果 | call to async function "@ + f
            + " without await, returns Promise instead of result"@
    }
}

/// The async function a node calls without awaiting it.
pub open spec fn unawaited_call(ctx: AnalysisContext, names: Seq<Seq<char>>, i: int) -> Option<Seq<char>> {
    let n = ctx.tree.nodes@[i];
    match ctx.language {
        Language::Python => {
            let f = before_first(text_at(ctx.source.chars@, n), "("@);
            if n.kind@ == "call"@ && names.contains(f) && !is_definition_site(ctx, i) && !is_awaited(ctx, i) {
                Some(f)
            } else {
                None
            }
        },
        Language::TypeScript | Language::TypeScriptTsx => {
            let f = match first_identifier(ctx, i) {
                Some(x) => x,
                None => seq![],
            };
            let pt = match parent_text(ctx, i) {
                Some(t) => t,
                None => seq![],
            };
            if n.kind@ == "call_expression"@ && f.len() > 0 && names.contains(f) && !is_awaited(ctx, i)
                && !(contains(pt, ".then("@) || contains(pt, ".catch("@) || contains(pt, ".finally("@)) {
                Some(f)
            } else {
                None
            }
        },
        _ => None,
    }
}

pub open spec fn r18_at(ctx: AnalysisContext) -> spec_fn(usize) -> Seq<FindingView> {
    |i: usize|
        match unawaited_call(ctx, async_names(ctx), i as int) {
            Some(f) => seq![
                finding_at(
                    "R18"@,
                    "async-missing-await"@,
                    Severity::Error,
                    ctx.file_path@,
                    *ctx.tree,
                    i as int,
                    ctx.source.chars@,
                    r18_message(f, ctx.language == Language::Python),
                ),
            ],
            None => seq![],
        }
}

fn first_identifier_exec(ctx: &AnalysisContext, i: usize) -> (r: Option<Vec<char>>)
    requires
        ctx.wf(),
        i < ctx.tree.nodes@.len(),
    ensures
        match r {
            Some(v) => first_identifier(*ctx, i as int) == Some(v@),
            None => first_identifier(*ctx, i as int) is None,
        },
{
    let ks: &[&str] = &["identifier"];
    assert(strs(ks@) =~= seq!["identifier"@]);
    match first_child_in_exec(ctx.tree, i, ks) {
        Some(c) => Some(node_text(ctx.source, ctx.tree, c)),
        None => None,
    }
}

fn push_all(out: &mut Vec<Vec<char>>, more: Vec<Vec<char>>)
    ensures
        char_views(final(out)@) == char_views(old(out)@) + char_views(more@),
{
    let ghost m = more@;
    let mut more = more;
    out.append(&mut more);
    assert(char_views(out@) =~= char_views(old(out)@) + char_views(m));
}

fn identifiers_among_exec(ctx: &AnalysisContext, c: usize) -> (r: Vec<Vec<char>>)
    requires
        ctx.wf(),
        c < ctx.tree.nodes@.len(),
    ensures
        char_views(r@) == identifiers_among(
            *ctx,
            ctx.tree.nodes@[c as int].children@,
            ctx.tree.nodes@[c as int].children@.len() as int,
        ),
{
    let ch = &ctx.tree.nodes[c].children;
    let mut out: Vec<Vec<char>> = Vec::new();
    let mut k: usize = 0;
    while k < ch.len()
        invariant
            ctx.wf(),
            c < ctx.tree.nodes@.len(),
            ch == &ctx.tree.nodes@[c as int].children,
            k <= ch@.len(),
            char_views(out@) == identifiers_among(*ctx, ch@, k as int),
        decreases ch@.len() - k,
    {
        let x = ch[k];
        let ghost o = char_views(out@);
        if x < ctx.tree.nodes.len() && kind_is(ctx.tree, x, "identifier") {
            let t = node_text(ctx.source, ctx.tree, x);
            out.push(t);
            assert(char_views(out@) =~= o.push(out@[o.len() as int]@));
        }
        assert(char_views(out@) =~= identifiers_among(*ctx, ch@, k + 1));
        k += 1;
    }
    out
}

fn declarator_names_exec(ctx: &AnalysisContext, n: usize) -> (r: Vec<Vec<char>>)
    requires
        ctx.wf(),
        n < ctx.tree.nodes@.len(),
    ensures
        char_views(r@) == declarator_names(
            *ctx,
            ctx.tree.nodes@[n as int].children@,
            ctx.tree.nodes@[n as int].children@.len() as int,
        ),
{
    let ch = &ctx.tree.nodes[n].children;
    let mut out: Vec<Vec<char>> = Vec::new();
    let mut k: usize = 0;
    while k < ch.len()
        invariant
            ctx.wf(),
            n < ctx.tree.nodes@.len(),
            ch == &ctx.tree.nodes@[n as int].children,
            k <= ch@.len(),
            char_views(out@) == declarator_names(*ctx, ch@, k as int),
        decreases ch@.len() - k,
    {
        let x = ch[k];
        if x < ctx.tree.nodes.len() && kind_is(ctx.tree, x, "variable_declarator") {
            let more = identifiers_among_exec(ctx, x);
            push_all(&mut out, more);
        }
        assert(char_views(out@) =~= declarator_names(*ctx, ch@, k + 1));
        k += 1;
    }
    out
}

fn async_names_at_exec(ctx: &AnalysisContext, n: usize) -> (r: Vec<Vec<char>>)
    requires
        ctx.wf(),
        n < ctx.tree.nodes@.len(),
    ensures
        char_views(r@) == async_names_at(*ctx, n as int),
{
    let t = node_text(ctx.source, ctx.tree, n);
    let mut out: Vec<Vec<char>> = Vec::new();
    if ctx.language == Language::Python {
        if kind_is(ctx.tree, n, "function_definition") && (starts_with_str(&t, "async def")
            || starts_with_str(&t, "asyncdef")) {
            match first_identifier_exec(ctx, n) {
                Some(x) => out.push(x),
                None => {},
            }
        }
        assert(char_views(out@) =~= async_names_at(*ctx, n as int));
    } else {
        if kind_is(ctx.tree, n, "function_declaration") && starts_with_str(&t, "async function") {
            match first_identifier_exec(ctx, n) {
                Some(x) => out.push(x),
                None => {},
            }
        }
        let ghost a = char_views(out@);
        if (kind_is(ctx.tree, n, "variable_declaration") || kind_is(ctx.tree, n, "lexical_declaration"))
            && contains_str(&t, "async") {
            let more = declarator_names_exec(ctx, n);
            push_all(&mut out, more);
        } else {
            assert(char_views(out@) =~= a + Seq::<Seq<char>>::empty());
        }
        assert(char_views(out@) =~= async_names_at(*ctx, n as int));
    }
    out
}

fn async_names_exec(ctx: &AnalysisContext, order: &Vec<usize>) -> (r: Vec<Vec<char>>)
    requires
        ctx.wf(),
        order@ == walk_order(ctx.tree.nodes@, 0),
        forall|m: int| 0 <= m < order@.len() ==> #[trigger] order@[m] < ctx.tree.nodes@.len(),
    ensures
        char_views(r@) == async_names(*ctx),
{
    let mut out: Vec<Vec<char>> = Vec::new();
    let mut k: usize = 0;
    while k < order.len()
        invariant
            ctx.wf(),
            order@ == walk_order(ctx.tree.nodes@, 0),
            forall|m: int| 0 <= m < order@.len() ==> #[trigger] order@[m] < ctx.tree.nodes@.len(),
            k <= order@.len(),
            char_views(out@) == async_names_over(*ctx, order@, k as int),
        decreases order@.len() - k,
    {
        let more = async_names_at_exec(ctx, order[k]);
        push_all(&mut out, more);
        k += 1;
    }
    out
}

fn parent_text_exec(ctx: &AnalysisContext, i: usize) -> (r: Option<Vec<char>>)
    requires
        ctx.wf(),
        i < ctx.tree.nodes@.len(),
    ensures
        match r {
            Some(v) => parent_text(*ctx, i as int) == Some(v@),
            None => parent_text(*ctx, i as int) is None,
        },
{
    match ctx.tree.nodes[i].parent {
        Some(p) => if p < ctx.tree.nodes.len() {
            Some(node_text(ctx.source, ctx.tree, p))
        } else {
            None
        },
        None => None,
    }
}

fn is_awaited_exec(ctx: &AnalysisContext, i: usize) -> (r: bool)
    requires
        ctx.wf(),
        i < ctx.tree.nodes@.len(),
    ensures
        r == is_awaited(*ctx, i as int),
{
    match parent_text_exec(ctx, i) {
        Some(t) => starts_with_str(&t, "await ") || starts_with_str(&t, "await(") || starts_with_str(
            &t,
            "await\t",
        ),
        None => false,
    }
}

fn unawaited_call_exec(ctx: &AnalysisContext, names: &Vec<Vec<char>>, i: usize) -> (r: Option<Vec<char>>)
    requires
        ctx.wf(),
        i < ctx.tree.nodes@.len(),
    ensures
        match r {
            Some(v) => unawaited_call(*ctx, char_views(names@), i as int) == Some(v@),
            None => unawaited_call(*ctx, char_views(names@), i as int) is None,
        },
{
    match ctx.language {
        Language::Python => {
            if !kind_is(ctx.tree, i, "call") {
                return None;
            }
            let t = node_text(ctx.source, ctx.tree, i);
            let f = before_first_str(&t, "(");
            if !contains_text(names, &f) {
                return None;
            }
            let def_site = match ctx.tree.nodes[i].parent {
                Some(p) => p < ctx.tree.nodes.len() && (kind_is(ctx.tree, p, "function_definition")
                    || kind_is(ctx.tree, p, "function_declaration"))
                    && ctx.tree.nodes[i].start_byte == ctx.tree.nodes[p].start_byte,
                None => false,
            };
            if def_site || is_awaited_exec(ctx, i) {
                return None;
            }
            Some(f)
        },
        Language::TypeScript | Language::TypeScriptTsx => {
            if !kind_is(ctx.tree, i, "call_expression") {
                return None;
            }
            let f = match first_identifier_exec(ctx, i) {
                Some(x) => x,
                None => Vec::new(),
            };
            if f.len() == 0 || !contains_text(names, &f) || is_awaited_exec(ctx, i) {
                return None;
            }
            let pt = match parent_text_exec(ctx, i) {
                Some(t) => t,
                None => Vec::new(),
            };
            if contains_str(&pt, ".then(") || contains_str(&pt, ".catch(") || contains_str(&pt, ".finally(") {
                return None;
            }
            Some(f)
        },
        _ => None,
    }
}

fn r18_node(ctx: &AnalysisContext, names: &Vec<Vec<char>>, i: usize) -> (r: Vec<Finding>)
    requires
        ctx.wf(),
        i < ctx.tree.nodes@.len(),
        char_views(names@) == async_names(*ctx),
    ensures
        views(r@) == (r18_at(*ctx))(i),
{
    let mut out: Vec<Finding> = Vec::new();
    match unawaited_call_exec(ctx, names, i) {
        Some(f) => {
            let mut m: Vec<char> = Vec::new();
            push_str(&mut m, "async 函数 ");
            push_chars(&mut m, &f);
            if ctx.language == Language::Python {
                push_str(&mut m, " 的调用未加 await，返回 coroutine 而非结果 | call to async function ");
                push_chars(&mut m, &f);
                push_str(&mut m, " without await, returns coroutine instead of result");
            } else {
                push_str(&mut m, " 的调用未加 await，返回 Promise 而非结果 | call to async function ");
                push_chars(&mut m, &f);
                push_str(&mut m, " without await, returns Promise instead of result");
            }
            assert(m@ =~= r18_message(f@, ctx.language == Language::Python));
            let fd = Finding::new(
                "R18",
                "async-missing-await",
                Severity::Error,
                ctx.file_path,
                ctx.tree,
                i,
                ctx.source,
                string_of(&m),
            );
            out.push(fd);
            assert(views(out@) =~= seq![fd@]);
        },
        None => {
            assert(views(out@) =~= Seq::<FindingView>::empty());
        },
    }
    out
}

impl AsyncMissingAwait {
    /// Every finding the rule reports carries its id and name.
    pub proof fn lemma_findings_tagged(&self, ctx: AnalysisContext)
        ensures
            tagged(self.spec_findings(ctx), self.spec_id(), self.spec_name()),
    {
        assert forall|n: usize| tagged(#[trigger] (r18_at(ctx))(n), self.spec_id(), self.spec_name()) by {}
        lemma_collect_tagged(walk_order(ctx.tree.nodes@, 0), r18_at(ctx), self.spec_id(), self.spec_name());
    }
}

impl Rule for AsyncMissingAwait {
    open spec fn spec_id(&self) -> Seq<char> {
        "R18"@
    }

    open spec fn spec_name(&self) -> Seq<char> {
        "async-missing-await"@
    }

    open spec fn spec_severity(&self) -> Severity {
        Severity::Error
    }

    open spec fn spec_total(&self) -> bool {
        true
    }

    open spec fn spec_languages(&self) -> Seq<Language> {
        seq![Language::Python, Language::TypeScript, Language::TypeScriptTsx]
    }

    /// Every call in walk order to one of the file's async functions that
    /// is not awaited.
    open spec fn spec_findings(&self, ctx: AnalysisContext) -> Seq<FindingView> {
        collect(walk_order(ctx.tree.nodes@, 0), r18_at(ctx))
    }

    fn id(&self) -> (r: &'static str) {
        "R18"
    }

    fn name(&self) -> (r: &'static str) {
        "async-missing-await"
    }

    fn severity(&self) -> (r: Severity) {
        Severity::Error
    }

    fn languages(&self) -> (r: &'static [Language]) {
        &[Language::Python, Language::TypeScript, Language::TypeScriptTsx]
    }

    fn analyze(&self, ctx: &AnalysisContext) -> (r: Result<Vec<Finding>, RuleError>)
        ensures
            r is Ok,
    {
        proof {
            self.lemma_findings_tagged(*ctx);
        }
        let order = walk(ctx.tree, 0);
        let names = async_names_exec(ctx, &order);
        let mut out: Vec<Finding> = Vec::new();
        let mut k: usize = 0;
        while k < order.len()
            invariant
                ctx.wf(),
                order@ == walk_order(ctx.tree.nodes@, 0),
                forall|m: int| 0 <= m < order@.len() ==> #[trigger] order@[m] < ctx.tree.nodes@.len(),
                char_views(names@) == async_names(*ctx),
                k <= order@.len(),
                views(out@) == collect(order@.take(k as int), r18_at(*ctx)),
            decreases order@.len() - k,
        {
            proof {
                lemma_collect_step(order@, r18_at(*ctx), k as int);
            }
            let found = r18_node(ctx, &names, order[k]);
            append_findings(&mut out, found);
            k += 1;
        }
        proof {
            lemma_collect_all(order@, r18_at(*ctx));
        }
        Ok(out)
    }
}

} // verus!
