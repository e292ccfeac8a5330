//! R10: magic numbers — integer literals other than 0, 1, -1 and 2, outside
//! hash seeds of `GetHashCode`/`hashCode`. Test files are skipped.

use vstd::prelude::*;
use crate::finding::{views, Finding, FindingView, Severity, finding_at_plain};
use crate::nav::{first_child_in, first_child_in_exec, kind_in, strs};
use crate::parser::Language;
use crate::rule::{append_findings, collect, lemma_collect_all, lemma_collect_member, lemma_collect_step, AnalysisContext, Rule, RuleError, lemma_collect_tagged, tagged};
use crate::rules::common::{is_test_file, is_test_file_exec};
use crate::syntax::{lemma_walk_bounds, kind_is, text_at, node_text, walk, walk_order, SyntaxNode};
use crate::text::{eq_str, push_chars, push_str, trim, trim_exec};
use crate::unicode::{i64_value, parse_i64, parses_as_i64};

verus! {

pub struct MagicNumber;

pub open spec fn number_kinds(l: Language) -> Seq<Seq<char>> {
    match l {
        Language::Rust => seq!["integer_literal"@, "float_literal"@],
        Language::Python => seq!["integer"@, "float"@],
        Language::TypeScript | Language::TypeScriptTsx => seq!["number"@],
        Language::CSharp => seq!["integer_literal"@, "real_literal"@],
        Language::Java => seq!["decimal_integer_literal"@, "decimal_floating_point_literal"@],
    }
}

/// A number literal other than the common values 0, 1 and -1; a literal that
/// is not an integer (such as `3.14`) is magic.
pub open spec fn is_magic_number(t: Seq<char>) -> bool {
    let s = trim(t);
    !(parses_as_i64(s) && (i64_value(s) == 0 || i64_value(s) == 1 || i64_value(s) == -1))
}

/// Method `a` is `GetHashCode` or `hashCode`.
pub open spec fn is_hash_method(ctx: AnalysisContext, a: int) -> bool {
    ctx.tree.nodes@[a].kind@ == "method_declaration"@ && match first_child_in(
        ctx.tree.nodes@,
        a,
        seq!["identifier"@],
    ) {
        Some(c) => {
            let name = text_at(ctx.source.chars@, ctx.tree.nodes@[c as int]);
            name == "GetHashCode"@ || name == "hashCode"@
        },
        None => false,
    }
}

/// Node `a` or one of its ancestors is a hash method.
pub open spec fn in_hash_method_from(ctx: AnalysisContext, a: int) -> bool
    decreases a + 1,
{
    if a < 0 || a >= ctx.tree.nodes@.len() {
        false
    } else if is_hash_method(ctx, a) {
        true
    } else {
        match ctx.tree.nodes@[a].parent {
            Some(p) => (p as int) < a && in_hash_method_from(ctx, p as int),
            None => false,
        }
    }
}

pub open spec fn r10_at(ctx: AnalysisContext) -> spec_fn(usize) -> Seq<FindingView> {
    |i: usize|
        {
            let n = ctx.tree.nodes@[i as int];
            let t = text_at(ctx.source.chars@, n);
            if number_kinds(ctx.language).contains(n.kind@) && is_magic_number(t) && !in_hash_method_from(
                ctx,
                i as int,
            ) {
                seq![
                    finding_at_plain(
                        "R10"@,
                        "magic-number"@,
                        Severity::Info,
                        ctx.file_path@,
                        *ctx.tree,
                        i as int,
                        "magic literal: "@ + t,
                    ),
                ]
            } else {
                seq![]
            }
        }
}

fn is_hash_method_exec(ctx: &AnalysisContext, a: usize) -> (r: bool)
    requires
        ctx.wf(),
        a < ctx.tree.nodes@.len(),
    ensures
        r == is_hash_method(*ctx, a as int),
{
    if !kind_is(ctx.tree, a, "method_declaration") {
        return false;
    }
    let ks: &[&str] = &["identifier"];
    assert(strs(ks@) =~= seq!["identifier"@]);
    match first_child_in_exec(ctx.tree, a, ks) {
        Some(c) => {
            let name = node_text(ctx.source, ctx.tree, c);
            eq_str(&name, "GetHashCode") || eq_str(&name, "hashCode")
        },
        None => false,
    }
}

fn in_hash_method(ctx: &AnalysisContext, i: usize) -> (r: bool)
    requires
        ctx.wf(),
        i < ctx.tree.nodes@.len(),
    ensures
        r == in_hash_method_from(*ctx, i as int),
{
    let nodes = &ctx.tree.nodes;
    let mut cur: Option<usize> = Some(i);
    loop
        invariant
            ctx.wf(),
            nodes == &ctx.tree.nodes,
            i < nodes@.len(),
            match cur {
                Some(a) => a < nodes@.len() && in_hash_method_from(*ctx, a as int) == in_hash_method_from(
                    *ctx,
                    i as int,
                ),
                None => !in_hash_method_from(*ctx, i as int),
            },
        decreases match cur {
            Some(a) => a + 1,
            None => 0,
        },
    {
        match cur {
            None => {
                return false;
            },
            Some(a) => {
                if is_hash_method_exec(ctx, a) {
                    return true;
                }
                cur = match nodes[a].parent {
                    Some(p) => if p < a {
                        Some(p)
                    } else {
                        None
                    },
                    None => None,
                };
            },
        }
    }
}

fn is_magic_exec(t: &Vec<char>) -> (r: bool)
    ensures
        r == is_magic_number(t@),
{
    let s = trim_exec(t);
    match parse_i64(&s) {
        Some(v) => !(v == 0 || v == 1 || v == -1),
        None => true,
    }
}

fn r10_node(ctx: &AnalysisContext, i: usize) -> (r: Vec<Finding>)
    requires
        ctx.wf(),
        i < ctx.tree.nodes@.len(),
    ensures
        views(r@) == (r10_at(*ctx))(i),
{
    let mut out: Vec<Finding> = Vec::new();
    let nk: &[&str] = match ctx.language {
        Language::Rust => &["integer_literal", "float_literal"],
        Language::Python => &["integer", "float"],
        Language::TypeScript | Language::TypeScriptTsx => &["number"],
        Language::CSharp => &["integer_literal", "real_literal"],
        Language::Java => &["decimal_integer_literal", "decimal_floating_point_literal"],
    };
    assert(strs(nk@) =~= number_kinds(ctx.language));
    if !kind_in(&ctx.tree.nodes[i].kind, nk) {
        assert(views(out@) =~= Seq::<FindingView>::empty());
        return out;
    }
    let t = node_text(ctx.source, ctx.tree, i);
    if is_magic_exec(&t) && !in_hash_method(ctx, i) {
        let mut m: Vec<char> = Vec::new();
        push_str(&mut m, "magic literal: ");
        push_chars(&mut m, &t);
        let f = Finding::at_node("R10", "magic-number", Severity::Info, ctx.file_path, ctx.tree, i, m);
        out.push(f);
        assert(views(out@) =~= seq![f@]);
    } else {
        assert(views(out@) =~= Seq::<FindingView>::empty());
    }
    out
}

impl MagicNumber {
    /// Every finding the rule reports carries its id and name.
    pub proof fn lemma_findings_tagged(&self, ctx: AnalysisContext)
        ensures
            tagged(self.spec_findings(ctx), self.spec_id(), self.spec_name()),
    {
        assert forall|n: usize| tagged(#[trigger] (r10_at(ctx))(n), self.spec_id(), self.spec_name()) by {}
        lemma_collect_tagged(walk_order(ctx.tree.nodes@, 0), r10_at(ctx), self.spec_id(), self.spec_name());
    }
}

impl MagicNumber {
    /// Only number literals are reported: each finding stands at a number
    /// literal node of the file's language that is magic and lies outside
    /// any hash method, and a test file gives none.
    pub proof fn lemma_reports_only_number_literals(&self, ctx: AnalysisContext, i: int)
        requires
            0 <= i < self.spec_findings(ctx).len(),
        ensures
            !is_test_file(ctx.file_path@),
            exists|n: usize|
                #![trigger ctx.tree.nodes@[n as int]]
                0 <= n < ctx.tree.nodes@.len() && number_kinds(ctx.language).contains(
                    ctx.tree.nodes@[n as int].kind@,
                ) && is_magic_number(text_at(ctx.source.chars@, ctx.tree.nodes@[n as int]))
                    && !in_hash_method_from(ctx, n as int) && self.spec_findings(ctx)[i]
                    == finding_at_plain(
                    "R10"@,
                    "magic-number"@,
                    Severity::Info,
                    ctx.file_path@,
                    *ctx.tree,
                    n as int,
                    "magic literal: "@ + text_at(ctx.source.chars@, ctx.tree.nodes@[n as int]),
                ),
    {
        let order = walk_order(ctx.tree.nodes@, 0);
        lemma_collect_member(order, r10_at(ctx), i);
        let (k, j) = choose|k: int, j: int|
            0 <= k < order.len() && 0 <= j < (r10_at(ctx))(order[k]).len() && collect(order, r10_at(ctx))[i]
                == #[trigger] (r10_at(ctx))(order[k])[j];
        let n = order[k];
        assert(ctx.tree.nodes.len() == ctx.tree.nodes@.len());
        lemma_walk_bounds(ctx.tree.nodes@, 0);
        assert(n < ctx.tree.nodes@.len());
        assert((r10_at(ctx))(n).len() > 0);
        assert(ctx.tree.nodes@[n as int] == ctx.tree.nodes@[n as int]);
    }
}

impl Rule for MagicNumber {
    open spec fn spec_id(&self) -> Seq<char> {
        "R10"@
    }

    open spec fn spec_name(&self) -> Seq<char> {
        "magic-number"@
    }

    open spec fn spec_severity(&self) -> Severity {
        Severity::Info
    }

    open spec fn spec_total(&self) -> bool {
        true
    }

    open spec fn spec_languages(&self) -> Seq<Language> {
        seq![
            Language::Rust,
            Language::Python,
            Language::TypeScript,
            Language::TypeScriptTsx,
            Language::CSharp,
            Language::Java,
        ]
    }

    /// Nothing in a test file; elsewhere every number literal in walk order.
    open spec fn spec_findings(&self, ctx: AnalysisContext) -> Seq<FindingView> {
        if is_test_file(ctx.file_path@) {
            seq![]
        } else {
            collect(walk_order(ctx.tree.nodes@, 0), r10_at(ctx))
        }
    }

    fn id(&self) -> (r: &'static str) {
        "R10"
    }

    fn name(&self) -> (r: &'static str) {
        "magic-number"
    }

    fn severity(&self) -> (r: Severity) {
        Severity::Info
    }

    fn languages(&self) -> (r: &'static [Language]) {
        &[
            Language::Rust,
            Language::Python,
            Language::TypeScript,
            Language::TypeScriptTsx,
            Language::CSharp,
            Language::Java,
        ]
    }

    fn analyze(&self, ctx: &AnalysisContext) -> (r: Result<Vec<Finding>, RuleError>)
        ensures
            r is Ok,
    {
        proof {
            self.lemma_findings_tagged(*ctx);
        }
        let mut out: Vec<Finding> = Vec::new();
        if is_test_file_exec(ctx.file_path) {
            assert(views(out@) =~= Seq::<FindingView>::empty());
            return Ok(out);
        }
        let order = walk(ctx.tree, 0);
        let mut k: usize = 0;
        while k < order.len()
            invariant
                ctx.wf(),
                order@ == walk_order(ctx.tree.nodes@, 0),
                forall|m: int| 0 <= m < order@.len() ==> #[trigger] order@[m] < ctx.tree.nodes@.len(),
                k <= order@.len(),
                views(out@) == collect(order@.take(k as int), r10_at(*ctx)),
            decreases order@.len() - k,
        {
            proof {
                lemma_collect_step(order@, r10_at(*ctx), k as int);
            }
            let found = r10_node(ctx, order[k]);
            append_findings(&mut out, found);
            k += 1;
        }
        proof {
            lemma_collect_all(order@, r10_at(*ctx));
        }
        Ok(out)
    }
}

} // verus!
