//! R06: over-engineering in Rust — traits with at most one implementation in
//! the file, and type parameter lists longer than the limit.

use vstd::prelude::*;
use crate::config::threshold_value;
use crate::finding::{views, Finding, FindingView, Severity, finding_at};
use crate::nav::{first_child_in, first_child_in_exec, kind_in, strs};
use crate::parser::Language;
use crate::pieces::after_last_str;
use crate::rule::{append_findings, collect, lemma_collect_all, lemma_collect_step, AnalysisContext, Rule, RuleError, lemma_collect_tagged, lemma_tagged_concat, tagged};
use crate::rules::r07_dead_code::char_views;
use crate::syntax::{kind_is, text_at, node_text, walk, walk_order, SyntaxNode};
use crate::text::{after_last, push_chars, push_str, seq_eq};
use crate::unicode::{decimal, decimal_exec, string_of};

verus! {

pub struct OverEngineering;

/// The name of a trait item: its first type identifier or identifier child.
pub open spec fn trait_name(ctx: AnalysisContext, i: int) -> Option<Seq<char>> {
    match first_child_in(ctx.tree.nodes@, i, seq!["type_identifier"@, "identifier"@]) {
        Some(c) => Some(text_at(ctx.source.chars@, ctx.tree.nodes@[c as int])),
        None => None,
    }
}

pub open spec fn for_position(nodes: Seq<SyntaxNode>, ch: Seq<usize>, k: int) -> Option<int>
    decreases ch.len() - k,
{
    if k < 0 || k >= ch.len() {
        None
    } else if ch[k] < nodes.len() && nodes[ch[k] as int].kind@ == "for"@ {
        Some(k)
    } else {
        for_position(nodes, ch, k + 1)
    }
}

/// The last type name among `ch[..k]`, by its last `::` segment.
pub open spec fn last_type_before(ctx: AnalysisContext, ch: Seq<usize>, k: int) -> Option<Seq<char>>
    decreases k,
{
    if k <= 0 || k > ch.len() {
        None
    } else {
        let c = ch[k - 1];
        if c < ctx.tree.nodes@.len() && (ctx.tree.nodes@[c as int].kind@ == "type_identifier"@
            || ctx.tree.nodes@[c as int].kind@ == "scoped_type_identifier"@) {
            Some(after_last(text_at(ctx.source.chars@, ctx.tree.nodes@[c as int]), "::"@))
        } else {
            last_type_before(ctx, ch, k - 1)
        }
    }
}

/// The trait an `impl Trait for Type` implements; none for an inherent impl.
pub open spec fn impl_trait_name(ctx: AnalysisContext, i: int) -> Option<Seq<char>> {
    let ch = ctx.tree.nodes@[i].children@;
    match for_position(ctx.tree.nodes@, ch, 0) {
        Some(p) => last_type_before(ctx, ch, p),
        None => None,
    }
}

pub open spec fn opt_seq(o: Option<Seq<char>>) -> Seq<Seq<char>> {
    match o {
        Some(x) => seq![x],
        None => seq![],
    }
}

/// The traits declared among `order[..k]`, with their nodes.
pub open spec fn traits_over(ctx: AnalysisContext, order: Seq<usize>, k: int) -> Seq<(Seq<char>, usize)>
    decreases k,
{
    if k <= 0 || k > order.len() {
        seq![]
    } else {
        let n = order[k - 1];
        traits_over(ctx, order, k - 1) + if ctx.tree.nodes@[n as int].kind@ == "trait_item"@ {
            match trait_name(ctx, n as int) {
                Some(x) => seq![(x, n)],
                None => seq![],
            }
        } else {
            seq![]
        }
    }
}

/// The traits implemented by the impl blocks among `order[..k]`.
pub open spec fn impls_over(ctx: AnalysisContext, order: Seq<usize>, k: int) -> Seq<Seq<char>>
    decreases k,
{
    if k <= 0 || k > order.len() {
        seq![]
    } else {
        let n = order[k - 1];
        impls_over(ctx, order, k - 1) + if ctx.tree.nodes@[n as int].kind@ == "impl_item"@ {
            opt_seq(impl_trait_name(ctx, n as int))
        } else {
            seq![]
        }
    }
}

pub open spec fn count_equal(s: Seq<Seq<char>>, x: Seq<char>) -> nat
    decreases s.len(),
{
    if s.len() == 0 {
        0
    } else {
        count_equal(s.drop_last(), x) + if s.last() == x {
            1nat
        } else {
            0nat
        }
    }
}

pub open spec fn trait_message(name: Seq<char>, c: nat) -> Seq<char> {
    "trait "@ + name + " 仅有 "@ + decimal(c) + " 处实现——请考虑是否需要此抽象 | trait "@ + name
        + " has only "@ + decimal(c) + " implementation(s) - consider if abstraction is needed"@
}

pub open spec fn generics_message(c: nat, max: nat) -> Seq<char> {
    "泛型过多："@ + decimal(c) + " 个类型参数（上限 "@ + decimal(max) + "） | excessive generics: "@
        + decimal(c) + " type parameters (max "@ + decimal(max) + ")"@
}

pub open spec fn r06_finding(ctx: AnalysisContext, i: int, msg: Seq<char>) -> FindingView {
    finding_at(
        "R06"@,
        "over-engineering"@,
        Severity::Info,
        ctx.file_path@,
        *ctx.tree,
        i,
        ctx.source.chars@,
        msg,
    )
}

/// One finding per trait (in order) implemented at most once.
pub open spec fn trait_findings(ctx: AnalysisContext, ts: Seq<(Seq<char>, usize)>, impls: Seq<Seq<char>>) -> Seq<
    FindingView,
>
    decreases ts.len(),
{
    if ts.len() == 0 {
        seq![]
    } else {
        let (name, n) = ts.last();
        let c = count_equal(impls, name);
        trait_findings(ctx, ts.drop_last(), impls) + if c <= 1 {
            seq![r06_finding(ctx, n as int, trait_message(name, c))]
        } else {
            seq![]
        }
    }
}

pub open spec fn r06_max_generics(ctx: AnalysisContext) -> nat {
    threshold_value(ctx.rule_config.thresholds@, "max_generics"@, 3) as usize as nat
}

pub open spec fn generics_at(ctx: AnalysisContext) -> spec_fn(usize) -> Seq<FindingView> {
    |i: usize|
        {
            let n = ctx.tree.nodes@[i as int];
            if n.kind@ == "type_parameters"@ && n.named_child_count > r06_max_generics(ctx) {
                seq![
                    r06_finding(
                        ctx,
                        i as int,
                        generics_message(n.named_child_count as nat, r06_max_generics(ctx)),
                    ),
                ]
            } else {
                seq![]
            }
        }
}

pub open spec fn r06_findings(ctx: AnalysisContext) -> Seq<FindingView> {
    let order = walk_order(ctx.tree.nodes@, 0);
    if ctx.language == Language::Rust {
        trait_findings(
            ctx,
            traits_over(ctx, order, order.len() as int),
            impls_over(ctx, order, order.len() as int),
        ) + collect(order, generics_at(ctx))
    } else {
        seq![]
    }
}

fn trait_name_exec(ctx: &AnalysisContext, i: usize) -> (r: Option<Vec<char>>)
    requires
        ctx.wf(),
        i < ctx.tree.nodes@.len(),
    ensures
        match r {
            Some(v) => trait_name(*ctx, i as int) == Some(v@),
            None => trait_name(*ctx, i as int) is None,
        },
{
    let ks: &[&str] = &["type_identifier", "identifier"];
    assert(strs(ks@) =~= seq!["type_identifier"@, "identifier"@]);
    match first_child_in_exec(ctx.tree, i, ks) {
        Some(c) => Some(node_text(ctx.source, ctx.tree, c)),
        None => None,
    }
}

fn impl_trait_name_exec(ctx: &AnalysisContext, i: usize) -> (r: Option<Vec<char>>)
    requires
        ctx.wf(),
        i < ctx.tree.nodes@.len(),
    ensures
        match r {
            Some(v) => impl_trait_name(*ctx, i as int) == Some(v@),
            None => impl_trait_name(*ctx, i as int) is None,
        },
{
    let nodes = &ctx.tree.nodes;
    let ch = &nodes[i].children;
    let mut p: usize = 0;
    while p < ch.len()
        invariant
            ctx.wf(),
            nodes == &ctx.tree.nodes,
            i < nodes@.len(),
            ch == &nodes@[i as int].children,
            p <= ch@.len(),
            for_position(nodes@, ch@, p as int) == for_position(nodes@, ch@, 0),
        decreases ch@.len() - p,
    {
        if ch[p] < nodes.len() && kind_is(ctx.tree, ch[p], "for") {
            return last_type_before_exec(ctx, i, p);
        }
        p += 1;
    }
    None
}

fn last_type_before_exec(ctx: &AnalysisContext, i: usize, p: usize) -> (r: Option<Vec<char>>)
    requires
        ctx.wf(),
        i < ctx.tree.nodes@.len(),
        p < ctx.tree.nodes@[i as int].children@.len(),
        for_position(ctx.tree.nodes@, ctx.tree.nodes@[i as int].children@, 0) == Some(p as int),
    ensures
        match r {
            Some(v) => impl_trait_name(*ctx, i as int) == Some(v@),
            None => impl_trait_name(*ctx, i as int) is None,
        },
{
    proof {
        reveal_strlit("::");
    }
    let nodes = &ctx.tree.nodes;
    let ch = &nodes[i].children;
    let mut k: usize = p;
    while k > 0
        invariant
            ctx.wf(),
            nodes == &ctx.tree.nodes,
            i < nodes@.len(),
            ch == &nodes@[i as int].children,
            k <= p < ch@.len(),
            for_position(nodes@, ch@, 0) == Some(p as int),
            last_type_before(*ctx, ch@, k as int) == last_type_before(*ctx, ch@, p as int),
        decreases k,
    {
        let c = ch[k - 1];
        if c < nodes.len() && (kind_is(ctx.tree, c, "type_identifier") || kind_is(
            ctx.tree,
            c,
            "scoped_type_identifier",
        )) {
            let t = node_text(ctx.source, ctx.tree, c);
            return Some(after_last_str(&t, "::"));
        }
        k -= 1;
    }
    None
}

fn count_equal_exec(s: &Vec<Vec<char>>, x: &Vec<char>) -> (r: usize)
    ensures
        r == count_equal(char_views(s@), x@),
{
    let ghost sv = char_views(s@);
    let mut c: usize = 0;
    let mut k: usize = 0;
    while k < s.len()
        invariant
            k <= s@.len(),
            sv == char_views(s@),
            c <= k,
            c == count_equal(sv.take(k as int), x@),
        decreases s@.len() - k,
    {
        proof {
            assert(sv.take(k + 1).drop_last() =~= sv.take(k as int));
            assert(sv[k as int] == s@[k as int]@);
        }
        if seq_eq(&s[k], x) {
            c += 1;
        }
        k += 1;
    }
    assert(sv.take(s@.len() as int) =~= sv);
    c
}

pub open spec fn trait_views(v: Seq<(Vec<char>, usize)>) -> Seq<(Seq<char>, usize)> {
    v.map_values(|p: (Vec<char>, usize)| (p.0@, p.1))
}

fn detect_single_impl_traits(ctx: &AnalysisContext, order: &Vec<usize>) -> (r: Vec<Finding>)
    requires
        ctx.wf(),
        order@ == walk_order(ctx.tree.nodes@, 0),
        forall|m: int| 0 <= m < order@.len() ==> #[trigger] order@[m] < ctx.tree.nodes@.len(),
    ensures
        views(r@) == trait_findings(
            *ctx,
            traits_over(*ctx, order@, order@.len() as int),
            impls_over(*ctx, order@, order@.len() as int),
        ),
{
    let mut traits: Vec<(Vec<char>, usize)> = Vec::new();
    let mut impls: Vec<Vec<char>> = Vec::new();
    let mut k: usize = 0;
    while k < order.len()
        invariant
            ctx.wf(),
            order@ == walk_order(ctx.tree.nodes@, 0),
            forall|m: int| 0 <= m < order@.len() ==> #[trigger] order@[m] < ctx.tree.nodes@.len(),
            k <= order@.len(),
            trait_views(traits@) == traits_over(*ctx, order@, k as int),
            char_views(impls@) == impls_over(*ctx, order@, k as int),
            forall|m: int| 0 <= m < traits@.len() ==> (#[trigger] traits@[m]).1 < ctx.tree.nodes@.len(),
        decreases order@.len() - k,
    {
        let n = order[k];
        let ghost t0 = trait_views(traits@);
        let ghost i0 = char_views(impls@);
        if kind_is(ctx.tree, n, "trait_item") {
            match trait_name_exec(ctx, n) {
                Some(x) => {
                    traits.push((x, n));
                    assert(trait_views(traits@) =~= t0.push((traits@[t0.len() as int].0@, n)));
                },
                None => {},
            }
        }
        assert(trait_views(traits@) =~= traits_over(*ctx, order@, k + 1));
        if kind_is(ctx.tree, n, "impl_item") {
            match impl_trait_name_exec(ctx, n) {
                Some(x) => {
                    impls.push(x);
                    assert(char_views(impls@) =~= i0.push(impls@[i0.len() as int]@));
                },
                None => {},
            }
        }
        assert(char_views(impls@) =~= impls_over(*ctx, order@, k + 1));
        k += 1;
    }
    let ghost tv = trait_views(traits@);
    let ghost iv = char_views(impls@);
    let mut out: Vec<Finding> = Vec::new();
    let mut j: usize = 0;
    while j < traits.len()
        invariant
            ctx.wf(),
            j <= traits@.len(),
            tv == trait_views(traits@),
            iv == char_views(impls@),
            forall|m: int| 0 <= m < traits@.len() ==> (#[trigger] traits@[m]).1 < ctx.tree.nodes@.len(),
            views(out@) == trait_findings(*ctx, tv.take(j as int), iv),
        decreases traits@.len() - j,
    {
        proof {
            assert(tv.take(j + 1).drop_last() =~= tv.take(j as int));
        }
        let name = &traits[j].0;
        let node = traits[j].1;
        let c = count_equal_exec(&impls, name);
        let ghost o = out@;
        if c <= 1 {
            let dc = decimal_exec(c);
            let mut m: Vec<char> = Vec::new();
            push_str(&mut m, "trait ");
            push_chars(&mut m, name);
            push_str(&mut m, " 仅有 ");
            push_chars(&mut m, &dc);
            push_str(&mut m, " 处实现——请考虑是否需要此抽象 | trait ");
            push_chars(&mut m, name);
            push_str(&mut m, " has only ");
            push_chars(&mut m, &dc);
            push_str(&mut m, " implementation(s) - consider if abstraction is needed");
            assert(m@ =~= trait_message(name@, c as nat));
            let f = Finding::new("R06", "over-engineering", Severity::Info, ctx.file_path, ctx.tree, node, ctx.source, string_of(&m));
            out.push(f);
            assert(views(out@) =~= views(o) + seq![f@]);
        } else {
            assert(views(out@) =~= views(o) + Seq::<FindingView>::empty());
        }
        j += 1;
    }
    assert(tv.take(traits@.len() as int) =~= tv);
    out
}

fn generics_node(ctx: &AnalysisContext, i: usize, max: usize) -> (r: Vec<Finding>)
    requires
        ctx.wf(),
        i < ctx.tree.nodes@.len(),
        max == r06_max_generics(*ctx),
    ensures
        views(r@) == (generics_at(*ctx))(i),
{
    let mut out: Vec<Finding> = Vec::new();
    let count = ctx.tree.nodes[i].named_child_count;
    if kind_is(ctx.tree, i, "type_parameters") && count > max {
        let dc = decimal_exec(count);
        let dm = decimal_exec(max);
        let mut m: Vec<char> = Vec::new();
        push_str(&mut m, "泛型过多：");
        push_chars(&mut m, &dc);
        push_str(&mut m, " 个类型参数（上限 ");
        push_chars(&mut m, &dm);
        push_str(&mut m, "） | excessive generics: ");
        push_chars(&mut m, &dc);
        push_str(&mut m, " type parameters (max ");
        push_chars(&mut m, &dm);
        push_str(&mut m, ")");
        assert(m@ =~= generics_message(count as nat, max as nat));
        let f = Finding::new("R06", "over-engineering", Severity::Info, ctx.file_path, ctx.tree, i, ctx.source, string_of(&m));
        out.push(f);
        assert(views(out@) =~= seq![f@]);
    } else {
        assert(views(out@) =~= Seq::<FindingView>::empty());
    }
    out
}

proof fn lemma_trait_findings_tagged(ctx: AnalysisContext, ts: Seq<(Seq<char>, usize)>, impls: Seq<Seq<char>>)
    ensures
        tagged(trait_findings(ctx, ts, impls), "R06"@, "over-engineering"@),
    decreases ts.len(),
{
    if ts.len() > 0 {
        lemma_trait_findings_tagged(ctx, ts.drop_last(), impls);
        let (name, n) = ts.last();
        let tail = if count_equal(impls, name) <= 1 {
            seq![r06_finding(ctx, n as int, trait_message(name, count_equal(impls, name)))]
        } else {
            seq![]
        };
        lemma_tagged_concat(trait_findings(ctx, ts.drop_last(), impls), tail, "R06"@, "over-engineering"@);
    }
}

impl OverEngineering {
    /// Every finding the rule reports carries its id and name.
    pub proof fn lemma_findings_tagged(&self, ctx: AnalysisContext)
        ensures
            tagged(self.spec_findings(ctx), self.spec_id(), self.spec_name()),
    {
        if ctx.language == Language::Rust {
            let order = walk_order(ctx.tree.nodes@, 0);
            lemma_trait_findings_tagged(
                ctx,
                traits_over(ctx, order, order.len() as int),
                impls_over(ctx, order, order.len() as int),
            );
            assert forall|n: usize| tagged(#[trigger] (generics_at(ctx))(n), self.spec_id(), self.spec_name()) by {}
            lemma_collect_tagged(order, generics_at(ctx), self.spec_id(), self.spec_name());
            lemma_tagged_concat(
                trait_findings(
                    ctx,
                    traits_over(ctx, order, order.len() as int),
                    impls_over(ctx, order, order.len() as int),
                ),
                collect(order, generics_at(ctx)),
                self.spec_id(),
                self.spec_name(),
            );
        }
    }
}

impl Rule for OverEngineering {
    open spec fn spec_id(&self) -> Seq<char> {
        "R06"@
    }

    open spec fn spec_name(&self) -> Seq<char> {
        "over-engineering"@
    }

    open spec fn spec_severity(&self) -> Severity {
        Severity::Info
    }

    open spec fn spec_total(&self) -> bool {
        true
    }

    open spec fn spec_languages(&self) -> Seq<Language> {
        seq![
            Language::Rust,
            Language::Python,
            Language::TypeScript,
            Language::TypeScriptTsx,
            Language::CSharp,
            Language::Java,
        ]
    }

    /// For Rust: the single-implementation traits, then the long type
    /// parameter lists; nothing for other languages.
    open spec fn spec_findings(&self, ctx: AnalysisContext) -> Seq<FindingView> {
        r06_findings(ctx)
    }

    fn id(&self) -> (r: &'static str) {
        "R06"
    }

    fn name(&self) -> (r: &'static str) {
        "over-engineering"
    }

    fn severity(&self) -> (r: Severity) {
        Severity::Info
    }

    fn languages(&self) -> (r: &'static [Language]) {
        &[
            Language::Rust,
            Language::Python,
            Language::TypeScript,
            Language::TypeScriptTsx,
            Language::CSharp,
            Language::Java,
        ]
    }

    fn analyze(&self, ctx: &AnalysisContext) -> (r: Result<Vec<Finding>, RuleError>)
        ensures
            r is Ok,
    {
        proof {
            self.lemma_findings_tagged(*ctx);
        }
        let mut out: Vec<Finding> = Vec::new();
        if ctx.language != Language::Rust {
            assert(views(out@) =~= Seq::<FindingView>::empty());
            return Ok(out);
        }
        let order = walk(ctx.tree, 0);
        let traits = detect_single_impl_traits(ctx, &order);
        append_findings(&mut out, traits);
        let ghost head = views(out@);
        let max = ctx.rule_config.threshold_i64("max_generics", 3) as usize;
        let mut k: usize = 0;
        while k < order.len()
            invariant
                ctx.wf(),
                order@ == walk_order(ctx.tree.nodes@, 0),
                forall|m: int| 0 <= m < order@.len() ==> #[trigger] order@[m] < ctx.tree.nodes@.len(),
                max == r06_max_generics(*ctx),
                k <= order@.len(),
                views(out@) == head + collect(order@.take(k as int), generics_at(*ctx)),
            decreases order@.len() - k,
        {
            proof {
                lemma_collect_step(order@, generics_at(*ctx), k as int);
            }
            let found = generics_node(ctx, order[k], max);
            let ghost o = views(out@);
            append_findings(&mut out, found);
            assert(views(out@) =~= head + collect(order@.take(k + 1), generics_at(*ctx)));
            k += 1;
        }
        proof {
            lemma_collect_all(order@, generics_at(*ctx));
        }
        Ok(out)
    }
}

} // verus!
