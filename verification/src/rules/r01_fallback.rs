//! R01: fallbacks that mask errors.
//!
//! Rust: calls of `unwrap_or`, `unwrap_or_default`, `unwrap_or_else`.
//! Python: bare or broad `except` clauses.
//! TypeScript/C#/Java: `catch` clauses that return.

use vstd::prelude::*;
use crate::finding::{finding_at, views, Finding, FindingView, Severity};
use crate::nav::{
    first_grandchild, first_grandchild_exec, strs, subtree_has_kind, subtree_has_kind_exec,
};
use crate::parser::Language;
use crate::rule::{append_findings, collect, lemma_collect_all, lemma_collect_has, lemma_collect_member, lemma_collect_step, AnalysisContext, Rule, RuleError, lemma_collect_tagged, tagged};
use crate::syntax::{kind_is, lemma_walk_bounds, lemma_walk_covers, text_at, node_text, walk, walk_order};
use crate::pieces::before_first_str;
use crate::text::{before_first, contains, contains_str, eq_str, starts_with, starts_with_str, trim_start, trim_start_exec};

verus! {

pub struct FallbackMasksError;

pub open spec fn r01_id() -> Seq<char> {
    "R01"@
}

pub open spec fn r01_name() -> Seq<char> {
    "fallback-masks-error"@
}

/// The method a call invokes: the field identifier of its field expression.
pub open spec fn method_name(ctx: AnalysisContext, i: int) -> Option<Seq<char>> {
    match first_grandchild(
        ctx.tree.nodes@,
        i,
        seq!["field_expression"@],
        seq!["field_identifier"@],
    ) {
        Some(g) => Some(text_at(ctx.source.chars@, ctx.tree.nodes@[g as int])),
        None => None,
    }
}

pub open spec fn fallback_message(m: Seq<char>) -> Option<Seq<char>> {
    if m == "unwrap_or_default"@ {
        Some("unwrap_or_default() 掩盖错误情况 | unwrap_or_default() masks error case"@)
    } else if m == "unwrap_or"@ {
        Some("unwrap_or() 掩盖 None/Err 情况 | unwrap_or() masks None/Err case"@)
    } else if m == "unwrap_or_else"@ {
        Some("unwrap_or_else() 可能掩盖错误情况 | unwrap_or_else() may mask error case"@)
    } else {
        None
    }
}

pub open spec fn r01_finding(ctx: AnalysisContext, i: int, sev: Severity, msg: Seq<char>) -> FindingView {
    finding_at(r01_id(), r01_name(), sev, ctx.file_path@, *ctx.tree, i, ctx.source.chars@, msg)
}

/// Rust: a call of one of the fallback methods.
pub open spec fn rust_fallback_at(ctx: AnalysisContext, i: usize) -> Seq<FindingView> {
    if ctx.tree.nodes@[i as int].kind@ == "call_expression"@ {
        match method_name(ctx, i as int) {
            Some(m) => match fallback_message(m) {
                Some(msg) => seq![r01_finding(ctx, i as int, Severity::Error, msg)],
                None => seq![],
            },
            None => seq![],
        }
    } else {
        seq![]
    }
}

/// Python: an `except` clause that is bare or catches `Exception`/`BaseException`.
pub open spec fn python_fallback_at(ctx: AnalysisContext, i: usize) -> Seq<FindingView> {
    let t = text_at(ctx.source.chars@, ctx.tree.nodes@[i as int]);
    if ctx.tree.nodes@[i as int].kind@ == "except_clause"@ && (starts_with(
        trim_start(t),
        "except:"@,
    ) || contains(t, "except Exception:"@) || contains(t, "except BaseException:"@)) {
        seq![
            r01_finding(
                ctx,
                i as int,
                Severity::Error,
                "裸/宽泛的 except 吞掉错误 | bare/broad except masks errors"@,
            ),
        ]
    } else {
        seq![]
    }
}

/// A catch body that logs: it names one of the usual logging facilities.
pub open spec fn has_logging(t: Seq<char>) -> bool {
    contains(t, "LogManager"@) || contains(t, "Logger"@) || contains(t, "logger"@) || contains(
        t,
        "ILog"@,
    ) || contains(t, "log4net"@) || contains(t, "NLog"@) || contains(t, "Serilog"@) || contains(
        t,
        "Log."@,
    ) || contains(t, "Log("@) || contains(t, "log."@) || contains(t, "log("@) || contains(
        t,
        "Debug."@,
    ) || contains(t, "Debug.WriteLine"@) || contains(t, "Debug.Print"@) || contains(t, "Trace."@)
        || contains(t, "Trace.WriteLine"@) || contains(t, "Console.Error"@) || contains(
        t,
        "Console.WriteLine"@,
    ) || contains(t, "Console.Write"@) || contains(t, ".Error("@) || contains(t, ".Warn("@)
        || contains(t, ".Warning("@) || contains(t, ".Fatal("@) || contains(t, ".Debug("@)
        || contains(t, ".Info("@)
}

/// A catch of a cancellation (`OperationCanceledException`,
/// `TaskCanceledException`) in its header, before the body's `{`: a controlled
/// cancellation, not a masked error.
pub open spec fn is_cancellation_catch(t: Seq<char>) -> bool {
    let header = before_first(t, "{"@);
    contains(header, "OperationCanceledException"@) || contains(header, "TaskCanceledException"@)
}

/// TypeScript/C#/Java: a `catch` clause, not of a cancellation, with a return
/// somewhere inside; one that logs is reported as information, one that does
/// not as an error.
pub open spec fn catch_fallback_at(ctx: AnalysisContext, i: usize) -> Seq<FindingView> {
    let t = text_at(ctx.source.chars@, ctx.tree.nodes@[i as int]);
    if ctx.tree.nodes@[i as int].kind@ == "catch_clause"@ && !is_cancellation_catch(t)
        && subtree_has_kind(ctx.tree.nodes@, i as int, seq!["return_statement"@, "return"@]) {
        if has_logging(t) {
            seq![
                r01_finding(
                    ctx,
                    i as int,
                    Severity::Info,
                    "catch 有日志但以默认返回值掩盖异常（防御式处理） | catch logs but masks exception with default return (defensive handling)"@,
                ),
            ]
        } else {
            seq![
                r01_finding(
                    ctx,
                    i as int,
                    Severity::Error,
                    "catch 以默认返回值掩盖异常 | catch with default return masks exception"@,
                ),
            ]
        }
    } else {
        seq![]
    }
}

pub open spec fn r01_at(ctx: AnalysisContext) -> spec_fn(usize) -> Seq<FindingView> {
    |i: usize|
        match ctx.language {
            Language::Rust => rust_fallback_at(ctx, i),
            Language::Python => python_fallback_at(ctx, i),
            _ => catch_fallback_at(ctx, i),
        }
}

fn is_cancellation_catch_exec(t: &Vec<char>) -> (r: bool)
    ensures
        r == is_cancellation_catch(t@),
{
    let header = before_first_str(t, "{");
    contains_str(&header, "OperationCanceledException") || contains_str(
        &header,
        "TaskCanceledException",
    )
}

pub fn has_logging_exec(t: &Vec<char>) -> (r: bool)
    ensures
        r == has_logging(t@),
{
    contains_str(t, "LogManager") || contains_str(t, "Logger") || contains_str(t, "logger")
        || contains_str(t, "ILog") || contains_str(t, "log4net") || contains_str(t, "NLog")
        || contains_str(t, "Serilog") || contains_str(t, "Log.") || contains_str(t, "Log(")
        || contains_str(t, "log.") || contains_str(t, "log(") || contains_str(t, "Debug.")
        || contains_str(t, "Debug.WriteLine") || contains_str(t, "Debug.Print") || contains_str(
        t,
        "Trace.",
    ) || contains_str(t, "Trace.WriteLine") || contains_str(t, "Console.Error") || contains_str(
        t,
        "Console.WriteLine",
    ) || contains_str(t, "Console.Write") || contains_str(t, ".Error(") || contains_str(
        t,
        ".Warn(",
    ) || contains_str(t, ".Warning(") || contains_str(t, ".Fatal(") || contains_str(t, ".Debug(")
        || contains_str(t, ".Info(")
}

fn push_r01(
    out: &mut Vec<Finding>,
    ctx: &AnalysisContext,
    i: usize,
    sev: Severity,
    msg: &str,
)
    requires
        ctx.wf(),
        i < ctx.tree.nodes@.len(),
    ensures
        views(final(out)@) == views(old(out)@) + seq![r01_finding(*ctx, i as int, sev, msg@)],
{
    let f = Finding::new(
        "R01",
        "fallback-masks-error",
        sev,
        ctx.file_path,
        ctx.tree,
        i,
        ctx.source,
        String::from_str(msg),
    );
    let ghost before = out@;
    out.push(f);
    assert(views(out@) =~= views(before) + seq![f@]);
}

fn r01_node(ctx: &AnalysisContext, i: usize) -> (r: Vec<Finding>)
    requires
        ctx.wf(),
        i < ctx.tree.nodes@.len(),
    ensures
        views(r@) == (r01_at(*ctx))(i),
{
    let mut out: Vec<Finding> = Vec::new();
    assert(views(out@) =~= Seq::<FindingView>::empty());
    match ctx.language {
        Language::Rust => {
            if kind_is(ctx.tree, i, "call_expression") {
                let outer: &[&str] = &["field_expression"];
                let inner: &[&str] = &["field_identifier"];
                assert(strs(outer@) =~= seq!["field_expression"@]);
                assert(strs(inner@) =~= seq!["field_identifier"@]);
                match first_grandchild_exec(ctx.tree, i, outer, inner) {
                    Some(g) => {
                        let m = node_text(ctx.source, ctx.tree, g);
                        assert(method_name(*ctx, i as int) == Some(m@));
                        if eq_str(&m, "unwrap_or_default") {
                            push_r01(&mut out, ctx, i, Severity::Error, "unwrap_or_default() 掩盖错误情况 | unwrap_or_default() masks error case");
                        } else if eq_str(&m, "unwrap_or") {
                            push_r01(&mut out, ctx, i, Severity::Error, "unwrap_or() 掩盖 None/Err 情况 | unwrap_or() masks None/Err case");
                        } else if eq_str(&m, "unwrap_or_else") {
                            push_r01(&mut out, ctx, i, Severity::Error, "unwrap_or_else() 可能掩盖错误情况 | unwrap_or_else() may mask error case");
                        }
                    },
                    None => {},
                }
            }
        },
        Language::Python => {
            if kind_is(ctx.tree, i, "except_clause") {
                let t = node_text(ctx.source, ctx.tree, i);
                let ts = trim_start_exec(&t);
                if starts_with_str(&ts, "except:") || contains_str(&t, "except Exception:")
                    || contains_str(&t, "except BaseException:") {
                    push_r01(&mut out, ctx, i, Severity::Error, "裸/宽泛的 except 吞掉错误 | bare/broad except masks errors");
                }
            }
        },
        _ => {
            if kind_is(ctx.tree, i, "catch_clause") && !is_cancellation_catch_exec(
                &node_text(ctx.source, ctx.tree, i),
            ) {
                let rk: &[&str] = &["return_statement", "return"];
                assert(strs(rk@) =~= seq!["return_statement"@, "return"@]);
                let ret = subtree_has_kind_exec(ctx.tree, i, rk);
                if ret {
                    let t = node_text(ctx.source, ctx.tree, i);
                    if has_logging_exec(&t) {
                        push_r01(&mut out, ctx, i, Severity::Info, "catch 有日志但以默认返回值掩盖异常（防御式处理） | catch logs but masks exception with default return (defensive handling)");
                    } else {
                        push_r01(&mut out, ctx, i, Severity::Error, "catch 以默认返回值掩盖异常 | catch with default return masks exception");
                    }
                }
            }
        },
    }
    proof {
        match ctx.language {
            Language::Rust => assert(views(out@) == rust_fallback_at(*ctx, i)),
            Language::Python => assert(views(out@) == python_fallback_at(*ctx, i)),
            _ => assert(views(out@) == catch_fallback_at(*ctx, i)),
        }
    }
    out
}

impl FallbackMasksError {
    /// Every finding the rule reports carries its id and name.
    pub proof fn lemma_findings_tagged(&self, ctx: AnalysisContext)
        ensures
            tagged(self.spec_findings(ctx), self.spec_id(), self.spec_name()),
    {
        assert forall|n: usize| tagged(#[trigger] (r01_at(ctx))(n), self.spec_id(), self.spec_name()) by {}
        lemma_collect_tagged(walk_order(ctx.tree.nodes@, 0), r01_at(ctx), self.spec_id(), self.spec_name());
    }
}

impl FallbackMasksError {
    /// In Python, every `except` clause that is bare (`except:`) or catches
    /// `Exception` or `BaseException` is reported as an error at the clause.
    pub proof fn lemma_reports_broad_except(&self, ctx: AnalysisContext, n: int)
        requires
            ctx.tree.wf(),
            ctx.language == Language::Python,
            0 <= n < ctx.tree.nodes@.len(),
            ctx.tree.nodes@[n].kind@ == "except_clause"@,
            ({
                let t = text_at(ctx.source.chars@, ctx.tree.nodes@[n]);
                starts_with(trim_start(t), "except:"@) || contains(t, "except Exception:"@) || contains(
                    t,
                    "except BaseException:"@,
                )
            }),
        ensures
            self.spec_findings(ctx).contains(
                finding_at(
                    "R01"@,
                    "fallback-masks-error"@,
                    Severity::Error,
                    ctx.file_path@,
                    *ctx.tree,
                    n,
                    ctx.source.chars@,
                    "裸/宽泛的 except 吞掉错误 | bare/broad except masks errors"@,
                ),
            ),
    {
        let order = walk_order(ctx.tree.nodes@, 0);
        let f = r01_at(ctx);
        assert(ctx.tree.nodes.len() == ctx.tree.nodes@.len());
        lemma_walk_covers(*ctx.tree, n);
        let k = choose|k: int| 0 <= k < order.len() && order[k] == n as usize;
        assert(order[k] as int == n);
        assert(f(order[k])[0] == finding_at(
            "R01"@,
            "fallback-masks-error"@,
            Severity::Error,
            ctx.file_path@,
            *ctx.tree,
            n,
            ctx.source.chars@,
            "裸/宽泛的 except 吞掉错误 | bare/broad except masks errors"@,
        ));
        lemma_collect_has(order, f, k, 0);
    }

    /// In Rust, every call of `unwrap_or`, `unwrap_or_default` or
    /// `unwrap_or_else` is reported as an error at the call.
    pub proof fn lemma_reports_rust_fallbacks(&self, ctx: AnalysisContext, n: int)
        requires
            ctx.tree.wf(),
            0 <= n < ctx.tree.nodes@.len(),
            ctx.language == Language::Rust,
            ctx.tree.nodes@[n].kind@ == "call_expression"@,
            method_name(ctx, n) == Some("unwrap_or"@) || method_name(ctx, n) == Some("unwrap_or_default"@)
                || method_name(ctx, n) == Some("unwrap_or_else"@),
        ensures
            self.spec_findings(ctx).contains(
                finding_at(
                    "R01"@,
                    "fallback-masks-error"@,
                    Severity::Error,
                    ctx.file_path@,
                    *ctx.tree,
                    n,
                    ctx.source.chars@,
                    if method_name(ctx, n) == Some("unwrap_or_default"@) {
                        "unwrap_or_default() 掩盖错误情况 | unwrap_or_default() masks error case"@
                    } else if method_name(ctx, n) == Some("unwrap_or"@) {
                        "unwrap_or() 掩盖 None/Err 情况 | unwrap_or() masks None/Err case"@
                    } else {
                        "unwrap_or_else() 可能掩盖错误情况 | unwrap_or_else() may mask error case"@
                    },
                ),
            ),
    {
        let order = walk_order(ctx.tree.nodes@, 0);
        let f = r01_at(ctx);
        assert(ctx.tree.nodes.len() == ctx.tree.nodes@.len());
        lemma_walk_covers(*ctx.tree, n);
        let k = choose|k: int| 0 <= k < order.len() && order[k] == n as usize;
        assert(order[k] as int == n);
        assert(f(order[k])[0] == finding_at(
            "R01"@,
            "fallback-masks-error"@,
            Severity::Error,
            ctx.file_path@,
            *ctx.tree,
            n,
            ctx.source.chars@,
            if method_name(ctx, n) == Some("unwrap_or_default"@) {
                        "unwrap_or_default() 掩盖错误情况 | unwrap_or_default() masks error case"@
                    } else if method_name(ctx, n) == Some("unwrap_or"@) {
                        "unwrap_or() 掩盖 None/Err 情况 | unwrap_or() masks None/Err case"@
                    } else {
                        "unwrap_or_else() 可能掩盖错误情况 | unwrap_or_else() may mask error case"@
                    },
        ));
        lemma_collect_has(order, f, k, 0);
    }

    /// In TypeScript, C# and Java, a `catch` clause that returns and does
    /// not log, and is no cancellation, is reported as an error.
    pub proof fn lemma_reports_silent_catches(&self, ctx: AnalysisContext, n: int)
        requires
            ctx.tree.wf(),
            0 <= n < ctx.tree.nodes@.len(),
            ctx.language != Language::Rust && ctx.language != Language::Python,
            ctx.tree.nodes@[n].kind@ == "catch_clause"@,
            ({
                let header = before_first(text_at(ctx.source.chars@, ctx.tree.nodes@[n]), "{"@);
                !contains(header, "OperationCanceledException"@) && !contains(header, "TaskCanceledException"@)
            }),
            subtree_has_kind(ctx.tree.nodes@, n, seq!["return_statement"@, "return"@]),
            !has_logging(text_at(ctx.source.chars@, ctx.tree.nodes@[n])),
        ensures
            self.spec_findings(ctx).contains(
                finding_at(
                    "R01"@,
                    "fallback-masks-error"@,
                    Severity::Error,
                    ctx.file_path@,
                    *ctx.tree,
                    n,
                    ctx.source.chars@,
                    "catch 以默认返回值掩盖异常 | catch with default return masks exception"@,
                ),
            ),
    {
        let order = walk_order(ctx.tree.nodes@, 0);
        let f = r01_at(ctx);
        assert(ctx.tree.nodes.len() == ctx.tree.nodes@.len());
        lemma_walk_covers(*ctx.tree, n);
        let k = choose|k: int| 0 <= k < order.len() && order[k] == n as usize;
        assert(order[k] as int == n);
        assert(f(order[k])[0] == finding_at(
            "R01"@,
            "fallback-masks-error"@,
            Severity::Error,
            ctx.file_path@,
            *ctx.tree,
            n,
            ctx.source.chars@,
            "catch 以默认返回值掩盖异常 | catch with default return masks exception"@,
        ));
        lemma_collect_has(order, f, k, 0);
    }

    /// In TypeScript, C# and Java, a `catch` clause that returns and logs, and
    /// is no cancellation, is reported as information.
    pub proof fn lemma_reports_logged_catches(&self, ctx: AnalysisContext, n: int)
        requires
            ctx.tree.wf(),
            0 <= n < ctx.tree.nodes@.len(),
            ctx.language != Language::Rust && ctx.language != Language::Python,
            ctx.tree.nodes@[n].kind@ == "catch_clause"@,
            ({
                let header = before_first(text_at(ctx.source.chars@, ctx.tree.nodes@[n]), "{"@);
                !contains(header, "OperationCanceledException"@) && !contains(header, "TaskCanceledException"@)
            }),
            subtree_has_kind(ctx.tree.nodes@, n, seq!["return_statement"@, "return"@]),
            has_logging(text_at(ctx.source.chars@, ctx.tree.nodes@[n])),
        ensures
            self.spec_findings(ctx).contains(
                finding_at(
                    "R01"@,
                    "fallback-masks-error"@,
                    Severity::Info,
                    ctx.file_path@,
                    *ctx.tree,
                    n,
                    ctx.source.chars@,
                    "catch 有日志但以默认返回值掩盖异常（防御式处理） | catch logs but masks exception with default return (defensive handling)"@,
                ),
            ),
    {
        let order = walk_order(ctx.tree.nodes@, 0);
        let f = r01_at(ctx);
        assert(ctx.tree.nodes.len() == ctx.tree.nodes@.len());
        lemma_walk_covers(*ctx.tree, n);
        let k = choose|k: int| 0 <= k < order.len() && order[k] == n as usize;
        assert(order[k] as int == n);
        assert(f(order[k])[0] == finding_at(
            "R01"@,
            "fallback-masks-error"@,
            Severity::Info,
            ctx.file_path@,
            *ctx.tree,
            n,
            ctx.source.chars@,
            "catch 有日志但以默认返回值掩盖异常（防御式处理） | catch logs but masks exception with default return (defensive handling)"@,
        ));
        lemma_collect_has(order, f, k, 0);
    }

    /// In Python nothing else is reported: each finding stands at an
    /// `except` clause that is bare or catches `Exception` or
    /// `BaseException`.
    pub proof fn lemma_python_reports_only_broad_excepts(&self, ctx: AnalysisContext, i: int)
        requires
            ctx.language == Language::Python,
            0 <= i < self.spec_findings(ctx).len(),
        ensures
            exists|n: int|
                #![trigger ctx.tree.nodes@[n]]
                0 <= n < ctx.tree.nodes@.len() && ctx.tree.nodes@[n].kind@ == "except_clause"@ && ({
                    let t = text_at(ctx.source.chars@, ctx.tree.nodes@[n]);
                    starts_with(trim_start(t), "except:"@) || contains(t, "except Exception:"@)
                        || contains(t, "except BaseException:"@)
                }) && self.spec_findings(ctx)[i] == finding_at(
                    "R01"@,
                    "fallback-masks-error"@,
                    Severity::Error,
                    ctx.file_path@,
                    *ctx.tree,
                    n,
                    ctx.source.chars@,
                    "裸/宽泛的 except 吞掉错误 | bare/broad except masks errors"@,
                ),
    {
        let order = walk_order(ctx.tree.nodes@, 0);
        let f = r01_at(ctx);
        lemma_collect_member(order, f, i);
        let (k, j) = choose|k: int, j: int|
            0 <= k < order.len() && 0 <= j < f(order[k]).len() && collect(order, f)[i] == #[trigger] f(
                order[k],
            )[j];
        let n = order[k] as int;
        assert(ctx.tree.nodes.len() == ctx.tree.nodes@.len());
        lemma_walk_bounds(ctx.tree.nodes@, 0);
        assert(n < ctx.tree.nodes@.len());
        assert(f(order[k]).len() > 0);
        assert(ctx.tree.nodes@[n] == ctx.tree.nodes@[n]);
    }
}

impl Rule for FallbackMasksError {
    open spec fn spec_id(&self) -> Seq<char> {
        r01_id()
    }

    open spec fn spec_name(&self) -> Seq<char> {
        r01_name()
    }

    open spec fn spec_severity(&self) -> Severity {
        Severity::Error
    }

    open spec fn spec_total(&self) -> bool {
        true
    }

    open spec fn spec_languages(&self) -> Seq<Language> {
        seq![
            Language::Rust,
            Language::Python,
            Language::TypeScript,
            Language::TypeScriptTsx,
            Language::CSharp,
            Language::Java,
        ]
    }

    /// Every node of the tree, in walk order, checked by the language's test.
    open spec fn spec_findings(&self, ctx: AnalysisContext) -> Seq<FindingView> {
        collect(walk_order(ctx.tree.nodes@, 0), r01_at(ctx))
    }

    fn id(&self) -> (r: &'static str) {
        "R01"
    }

    fn name(&self) -> (r: &'static str) {
        "fallback-masks-error"
    }

    fn severity(&self) -> (r: Severity) {
        Severity::Error
    }

    fn languages(&self) -> (r: &'static [Language]) {
        &[
            Language::Rust,
            Language::Python,
            Language::TypeScript,
            Language::TypeScriptTsx,
            Language::CSharp,
            Language::Java,
        ]
    }

    fn analyze(&self, ctx: &AnalysisContext) -> (r: Result<Vec<Finding>, RuleError>)
        ensures
            r is Ok,
    {
        proof {
            self.lemma_findings_tagged(*ctx);
        }
        let order = walk(ctx.tree, 0);
        let mut out: Vec<Finding> = Vec::new();
        let mut k: usize = 0;
        while k < order.len()
            invariant
                ctx.wf(),
                order@ == walk_order(ctx.tree.nodes@, 0),
                forall|m: int| 0 <= m < order@.len() ==> #[trigger] order@[m] < ctx.tree.nodes@.len(),
                k <= order@.len(),
                views(out@) == collect(order@.take(k as int), r01_at(*ctx)),
            decreases order@.len() - k,
        {
            proof {
                lemma_collect_step(order@, r01_at(*ctx), k as int);
            }
            let found = r01_node(ctx, order[k]);
            append_findings(&mut out, found);
            k += 1;
        }
        proof {
            lemma_collect_all(order@, r01_at(*ctx));
        }
        Ok(out)
    }
}

} // verus!
