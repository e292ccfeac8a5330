//! R03: public items without a doc comment.

use vstd::prelude::*;
use crate::finding::{finding_at, views, Finding, FindingView, Severity};
use crate::nav::{first_child_in, first_child_in_exec, kind_in, strs};
use crate::parser::Language;
use crate::rule::{append_findings, collect, lemma_collect_all, lemma_collect_step, AnalysisContext, Rule, RuleError, lemma_collect_tagged, tagged};
use crate::source::SourceText;
use crate::syntax::{index_in, index_in_exec, text_at, node_text, walk, walk_order, SyntaxNode, SyntaxTree};
use crate::text::{chars_of, contains, contains_str, push_chars, starts_with, starts_with_str};
use crate::unicode::string_of;

verus! {

pub struct MissingDoc;

pub open spec fn public_kinds(lang: Language) -> Seq<Seq<char>> {
    match lang {
        Language::Rust => seq![
            "function_item"@,
            "struct_item"@,
            "enum_item"@,
            "trait_item"@,
            "const_item"@,
            "static_item"@,
            "type_item"@,
        ],
        Language::Python => seq!["function_definition"@, "class_definition"@],
        Language::TypeScript | Language::TypeScriptTsx => seq![
            "function_declaration"@,
            "class_declaration"@,
            "method_definition"@,
        ],
        Language::CSharp | Language::Java => seq!["method_declaration"@, "class_declaration"@],
    }
}

pub fn public_kinds_exec(lang: Language) -> (r: &'static [&'static str])
    ensures
        strs(r@) == public_kinds(lang),
{
    let r: &'static [&'static str] = match lang {
        Language::Rust => &[
            "function_item",
            "struct_item",
            "enum_item",
            "trait_item",
            "const_item",
            "static_item",
            "type_item",
        ],
        Language::Python => &["function_definition", "class_definition"],
        Language::TypeScript | Language::TypeScriptTsx => &[
            "function_declaration",
            "class_declaration",
            "method_definition",
        ],
        Language::CSharp | Language::Java => &["method_declaration", "class_declaration"],
    };
    assert(strs(r@) =~= public_kinds(lang));
    r
}

/// Whether an item is public: a visibility modifier (Rust), defined at column
/// 0 (Python), exported (TypeScript), declared `public` (C#/Java).
pub open spec fn is_public(ctx: AnalysisContext, i: int) -> bool {
    let t = text_at(ctx.source.chars@, ctx.tree.nodes@[i]);
    match ctx.language {
        Language::Rust => first_child_in(ctx.tree.nodes@, i, seq!["visibility_modifier"@]) is Some,
        Language::Python => ctx.tree.nodes@[i].start_column == 0,
        Language::TypeScript | Language::TypeScriptTsx => contains(t, "export"@),
        Language::CSharp | Language::Java => contains(t, "public"@),
    }
}

pub open spec fn is_doc_text(t: Seq<char>) -> bool {
    starts_with(t, "///"@) || starts_with(t, "/**"@) || starts_with(t, "//!"@) || starts_with(
        t,
        "\"\"\""@,
    )
}

/// Walking back over the siblings `ch[j]`, `ch[j-1]`, ...: a doc comment is
/// found before anything other than comments and attributes.
pub open spec fn doc_scan(nodes: Seq<SyntaxNode>, src: Seq<char>, ch: Seq<usize>, j: int) -> bool
    decreases j + 1,
{
    if j < 0 || j >= ch.len() {
        false
    } else {
        let k = nodes[ch[j] as int].kind@;
        if seq!["line_comment"@, "block_comment"@, "documentation"@, "comment"@].contains(k) {
            if is_doc_text(text_at(src, nodes[ch[j] as int])) {
                true
            } else {
                doc_scan(nodes, src, ch, j - 1)
            }
        } else if seq!["attribute_item"@, "meta"@, "decorator"@].contains(k) {
            doc_scan(nodes, src, ch, j - 1)
        } else {
            false
        }
    }
}

/// The siblings before node `i`, nearest first, start with a doc comment
/// (possibly after other comments and attributes).
pub open spec fn has_doc_comment(nodes: Seq<SyntaxNode>, src: Seq<char>, i: int) -> bool {
    match nodes[i].parent {
        Some(p) => match index_in(nodes[p as int].children@, i as usize) {
            Some(j) => doc_scan(nodes, src, nodes[p as int].children@, j - 1),
            None => false,
        },
        None => false,
    }
}

pub open spec fn r03_at(ctx: AnalysisContext) -> spec_fn(usize) -> Seq<FindingView> {
    |i: usize|
        {
            let n = ctx.tree.nodes@[i as int];
            if public_kinds(ctx.language).contains(n.kind@) && is_public(ctx, i as int)
                && !has_doc_comment(ctx.tree.nodes@, ctx.source.chars@, i as int) {
                seq![
                    finding_at(
                        "R03"@,
                        "missing-doc"@,
                        Severity::Warning,
                        ctx.file_path@,
                        *ctx.tree,
                        i as int,
                        ctx.source.chars@,
                        "公开项缺少文档注释："@ + n.kind@ + " | public item without doc comment: "@
                            + n.kind@,
                    ),
                ]
            } else {
                seq![]
            }
        }
}

fn has_doc_comment_exec(src: &SourceText, tree: &SyntaxTree, i: usize) -> (r: bool)
    requires
        src.wf(),
        tree.wf(),
        i < tree.nodes@.len(),
    ensures
        r == has_doc_comment(tree.nodes@, src.chars@, i as int),
{
    let ghost nodes = tree.nodes@;
    let p = match tree.nodes[i].parent {
        Some(p) => p,
        None => {
            return false;
        },
    };
    if i == 0 {
        return false;
    }
    let ch = &tree.nodes[p].children;
    let j = match index_in_exec(ch, i) {
        Some(j) => j,
        None => {
            return false;
        },
    };
    proof {
        crate::syntax::lemma_index_in_bound(ch@, i);
    }
    let comment_kinds: &[&str] = &["line_comment", "block_comment", "documentation", "comment"];
    let attr_kinds: &[&str] = &["attribute_item", "meta", "decorator"];
    assert(strs(comment_kinds@) =~= seq!["line_comment"@, "block_comment"@, "documentation"@, "comment"@]);
    assert(strs(attr_kinds@) =~= seq!["attribute_item"@, "meta"@, "decorator"@]);
    let mut k: usize = j;
    while k > 0
        invariant
            tree.wf(),
            src.wf(),
            nodes == tree.nodes@,
            p < nodes.len(),
            i < nodes.len(),
            nodes[i as int].parent == Some(p),
            index_in(ch@, i) == Some(j as int),
            ch@ == nodes[p as int].children@,
            k <= ch@.len(),
            strs(comment_kinds@) == seq!["line_comment"@, "block_comment"@, "documentation"@, "comment"@],
            strs(attr_kinds@) == seq!["attribute_item"@, "meta"@, "decorator"@],
            doc_scan(nodes, src.chars@, ch@, k - 1) == doc_scan(nodes, src.chars@, ch@, j - 1),
        decreases k,
    {
        let s = ch[k - 1];
        assert(nodes[p as int].children@[k - 1] == s);
        assert(ch@[k - 1] == s);
        let ghost kk = nodes[s as int].kind@;
        if kind_in(&tree.nodes[s].kind, comment_kinds) {
            let t = node_text(src, tree, s);
            assert(t@ == text_at(src.chars@, nodes[s as int]));
            if starts_with_str(&t, "///") || starts_with_str(&t, "/**") || starts_with_str(&t, "//!")
                || starts_with_str(&t, "\"\"\"") {
                assert(is_doc_text(t@));
                assert(doc_scan(nodes, src.chars@, ch@, k - 1));
                return true;
            }
            assert(!is_doc_text(t@));
            assert(doc_scan(nodes, src.chars@, ch@, k - 1) == doc_scan(nodes, src.chars@, ch@, k - 2));
        } else if kind_in(&tree.nodes[s].kind, attr_kinds) {
            assert(doc_scan(nodes, src.chars@, ch@, k - 1) == doc_scan(nodes, src.chars@, ch@, k - 2));
        } else {
            assert(!doc_scan(nodes, src.chars@, ch@, k - 1));
            return false;
        }
        k -= 1;
    }
    false
}

fn is_public_exec(ctx: &AnalysisContext, i: usize) -> (r: bool)
    requires
        ctx.wf(),
        i < ctx.tree.nodes@.len(),
    ensures
        r == is_public(*ctx, i as int),
{
    match ctx.language {
        Language::Rust => {
            let vk: &[&str] = &["visibility_modifier"];
            assert(strs(vk@) =~= seq!["visibility_modifier"@]);
            first_child_in_exec(ctx.tree, i, vk).is_some()
        },
        Language::Python => ctx.tree.nodes[i].start_column == 0,
        Language::TypeScript | Language::TypeScriptTsx => {
            let t = node_text(ctx.source, ctx.tree, i);
            contains_str(&t, "export")
        },
        Language::CSharp | Language::Java => {
            let t = node_text(ctx.source, ctx.tree, i);
            contains_str(&t, "public")
        },
    }
}

fn r03_node(ctx: &AnalysisContext, i: usize) -> (r: Vec<Finding>)
    requires
        ctx.wf(),
        i < ctx.tree.nodes@.len(),
    ensures
        views(r@) == (r03_at(*ctx))(i),
{
    let mut out: Vec<Finding> = Vec::new();
    let kinds = public_kinds_exec(ctx.language);
    if kind_in(&ctx.tree.nodes[i].kind, kinds) && is_public_exec(ctx, i) && !has_doc_comment_exec(
        ctx.source,
        ctx.tree,
        i,
    ) {
        let kind = &ctx.tree.nodes[i].kind;
        let mut m = chars_of("公开项缺少文档注释：");
        push_chars(&mut m, kind);
        crate::text::push_str(&mut m, " | public item without doc comment: ");
        push_chars(&mut m, kind);
        let f = Finding::new(
            "R03",
            "missing-doc",
            Severity::Warning,
            ctx.file_path,
            ctx.tree,
            i,
            ctx.source,
            string_of(&m),
        );
        out.push(f);
        assert(views(out@) =~= seq![f@]);
    } else {
        assert(views(out@) =~= Seq::<FindingView>::empty());
    }
    out
}

impl MissingDoc {
    /// Every finding the rule reports carries its id and name.
    pub proof fn lemma_findings_tagged(&self, ctx: AnalysisContext)
        ensures
            tagged(self.spec_findings(ctx), self.spec_id(), self.spec_name()),
    {
        assert forall|n: usize| tagged(#[trigger] (r03_at(ctx))(n), self.spec_id(), self.spec_name()) by {}
        lemma_collect_tagged(walk_order(ctx.tree.nodes@, 0), r03_at(ctx), self.spec_id(), self.spec_name());
    }
}

impl Rule for MissingDoc {
    open spec fn spec_id(&self) -> Seq<char> {
        "R03"@
    }

    open spec fn spec_name(&self) -> Seq<char> {
        "missing-doc"@
    }

    open spec fn spec_severity(&self) -> Severity {
        Severity::Warning
    }

    open spec fn spec_total(&self) -> bool {
        true
    }

    open spec fn spec_languages(&self) -> Seq<Language> {
        seq![
            Language::Rust,
            Language::Python,
            Language::TypeScript,
            Language::TypeScriptTsx,
            Language::CSharp,
            Language::Java,
        ]
    }

    /// Every public item of the language's item kinds with no doc comment before it.
    open spec fn spec_findings(&self, ctx: AnalysisContext) -> Seq<FindingView> {
        collect(walk_order(ctx.tree.nodes@, 0), r03_at(ctx))
    }

    fn id(&self) -> (r: &'static str) {
        "R03"
    }

    fn name(&self) -> (r: &'static str) {
        "missing-doc"
    }

    fn severity(&self) -> (r: Severity) {
        Severity::Warning
    }

    fn languages(&self) -> (r: &'static [Language]) {
        &[
            Language::Rust,
            Language::Python,
            Language::TypeScript,
            Language::TypeScriptTsx,
            Language::CSharp,
            Language::Java,
        ]
    }

    fn analyze(&self, ctx: &AnalysisContext) -> (r: Result<Vec<Finding>, RuleError>)
        ensures
            r is Ok,
    {
        proof {
            self.lemma_findings_tagged(*ctx);
        }
        let order = walk(ctx.tree, 0);
        let mut out: Vec<Finding> = Vec::new();
        let mut k: usize = 0;
        while k < order.len()
            invariant
                ctx.wf(),
                order@ == walk_order(ctx.tree.nodes@, 0),
                forall|m: int| 0 <= m < order@.len() ==> #[trigger] order@[m] < ctx.tree.nodes@.len(),
                k <= order@.len(),
                views(out@) == collect(order@.take(k as int), r03_at(*ctx)),
            decreases order@.len() - k,
        {
            proof {
                lemma_collect_step(order@, r03_at(*ctx), k as int);
            }
            let found = r03_node(ctx, order[k]);
            append_findings(&mut out, found);
            k += 1;
        }
        proof {
            lemma_collect_all(order@, r03_at(*ctx));
        }
        Ok(out)
    }
}

} // verus!
