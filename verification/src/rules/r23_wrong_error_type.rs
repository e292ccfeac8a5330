//! R23: broad catches that return a fixed value without looking at the
//! exception, losing the error's type.
//!
//! A broad `catch`/`except` (a base exception class itself, or a bare clause)
//! whose text returns a status code, a null-like value or a generic error,
//! and whose body does not name the exception variable as a whole word.

use vstd::prelude::*;
use crate::ast::has_word;
use crate::finding::{views, Finding, FindingView, Severity, finding_at};
use crate::parser::Language;
use crate::rule::{append_findings, collect, lemma_collect_all, lemma_collect_step, AnalysisContext, Rule, RuleError, lemma_collect_tagged, tagged};
use crate::rules::common::{
    body_uses_word, clause_body, exception_var, exception_var_spec, is_broad_catch,
    is_broad_catch_spec, returns_generic_spec, returns_generic_text,
};
use crate::syntax::{kind_is, text_at, node_text, walk, walk_order};
use crate::text::{
    chars_of, contains, contains_str, push_str, starts_with, starts_with_str, trim_start, trim_start_exec,
};
use crate::unicode::string_of;

verus! {

pub struct WrongErrorTypePropagation;

pub open spec fn r23_catch_kind(l: Language) -> Seq<char> {
    match l {
        Language::Python => "except_clause"@,
        _ => "catch_clause"@,
    }
}

/// Node `i` is a broad catch clause of the file's language: it names a base
/// exception class itself, or none.
pub open spec fn r23_candidate(ctx: AnalysisContext, i: int) -> bool {
    ctx.tree.nodes@[i].kind@ == r23_catch_kind(ctx.language) && is_broad_catch_spec(
        ctx.language,
        text_at(ctx.source.chars@, ctx.tree.nodes@[i]),
    )
}

/// The clause's exception variable is named, as a whole word, in its body.
pub open spec fn r23_use(ctx: AnalysisContext, i: int) -> bool {
    let v = exception_var_spec(ctx, i);
    v.len() > 0 && has_word(clause_body(text_at(ctx.source.chars@, ctx.tree.nodes@[i])), v)
}

pub open spec fn r23_message(l: Language) -> Seq<char> {
    "宽泛 "@ + r23_catch_kind(l)
        + " 返回固定值且不引用异常变量，丢失错误类型信息 | broad catch returns fixed value without inspecting exception, loses error type info"@
}

pub open spec fn r23_at(ctx: AnalysisContext) -> spec_fn(usize) -> Seq<FindingView> {
    |i: usize|
        if r23_candidate(ctx, i as int) && !r23_use(ctx, i as int)
            && returns_generic_spec(text_at(ctx.source.chars@, ctx.tree.nodes@[i as int])) {
            seq![
                finding_at(
                    "R23"@,
                    "wrong-error-type-propagation"@,
                    Severity::Warning,
                    ctx.file_path@,
                    *ctx.tree,
                    i as int,
                    ctx.source.chars@,
                    r23_message(ctx.language),
                ),
            ]
        } else {
            seq![]
        }
}

fn r23_node(ctx: &AnalysisContext, i: usize) -> (r: Vec<Finding>)
    requires
        ctx.wf(),
        i < ctx.tree.nodes@.len(),
    ensures
        views(r@) == (r23_at(*ctx))(i),
{
    let mut out: Vec<Finding> = Vec::new();
    assert(views(out@) =~= Seq::<FindingView>::empty());
    let is_kind = match ctx.language {
        Language::Python => kind_is(ctx.tree, i, "except_clause"),
        _ => kind_is(ctx.tree, i, "catch_clause"),
    };
    if !is_kind {
        return out;
    }
    if !is_broad_catch(i, ctx) {
        return out;
    }
    let t = node_text(ctx.source, ctx.tree, i);
    let v = exception_var(i, ctx);
    let vc = chars_of(v.as_str());
    let ts = string_of(&t);
    if vc.len() > 0 && body_uses_word(ts.as_str(), v.as_str()) {
        return out;
    }
    if returns_generic_text(&t) {
        let mut m: Vec<char> = Vec::new();
        push_str(&mut m, "宽泛 ");
        match ctx.language {
            Language::Python => push_str(&mut m, "except_clause"),
            _ => push_str(&mut m, "catch_clause"),
        }
        push_str(
            &mut m,
            " 返回固定值且不引用异常变量，丢失错误类型信息 | broad catch returns fixed value without inspecting exception, loses error type info",
        );
        assert(m@ =~= r23_message(ctx.language));
        let f = Finding::new(
            "R23",
            "wrong-error-type-propagation",
            Severity::Warning,
            ctx.file_path,
            ctx.tree,
            i,
            ctx.source,
            string_of(&m),
        );
        out.push(f);
        assert(views(out@) =~= seq![f@]);
    }
    out
}

impl WrongErrorTypePropagation {
    /// Every finding the rule reports carries its id and name.
    pub proof fn lemma_findings_tagged(&self, ctx: AnalysisContext)
        ensures
            tagged(self.spec_findings(ctx), self.spec_id(), self.spec_name()),
    {
        assert forall|n: usize| tagged(#[trigger] (r23_at(ctx))(n), self.spec_id(), self.spec_name()) by {}
        lemma_collect_tagged(walk_order(ctx.tree.nodes@, 0), r23_at(ctx), self.spec_id(), self.spec_name());
    }
}

impl Rule for WrongErrorTypePropagation {
    open spec fn spec_id(&self) -> Seq<char> {
        "R23"@
    }

    open spec fn spec_name(&self) -> Seq<char> {
        "wrong-error-type-propagation"@
    }

    open spec fn spec_severity(&self) -> Severity {
        Severity::Warning
    }

    open spec fn spec_total(&self) -> bool {
        true
    }

    open spec fn spec_languages(&self) -> Seq<Language> {
        seq![
            Language::Python,
            Language::TypeScript,
            Language::TypeScriptTsx,
            Language::CSharp,
            Language::Java,
        ]
    }

    open spec fn spec_findings(&self, ctx: AnalysisContext) -> Seq<FindingView> {
        collect(walk_order(ctx.tree.nodes@, 0), r23_at(ctx))
    }

    fn id(&self) -> (r: &'static str) {
        "R23"
    }

    fn name(&self) -> (r: &'static str) {
        "wrong-error-type-propagation"
    }

    fn severity(&self) -> (r: Severity) {
        Severity::Warning
    }

    fn languages(&self) -> (r: &'static [Language]) {
        &[
            Language::Python,
            Language::TypeScript,
            Language::TypeScriptTsx,
            Language::CSharp,
            Language::Java,
        ]
    }

    fn analyze(&self, ctx: &AnalysisContext) -> (r: Result<Vec<Finding>, RuleError>)
        ensures
            r is Ok,
    {
        proof {
            self.lemma_findings_tagged(*ctx);
        }
        let order = walk(ctx.tree, 0);
        let mut out: Vec<Finding> = Vec::new();
        let mut k: usize = 0;
        while k < order.len()
            invariant
                ctx.wf(),
                order@ == walk_order(ctx.tree.nodes@, 0),
                forall|m: int| 0 <= m < order@.len() ==> #[trigger] order@[m] < ctx.tree.nodes@.len(),
                k <= order@.len(),
                views(out@) == collect(order@.take(k as int), r23_at(*ctx)),
            decreases order@.len() - k,
        {
            proof {
                lemma_collect_step(order@, r23_at(*ctx), k as int);
            }
            let found = r23_node(ctx, order[k]);
            append_findings(&mut out, found);
            k += 1;
        }
        proof {
            lemma_collect_all(order@, r23_at(*ctx));
        }
        Ok(out)
    }
}

} // verus!
