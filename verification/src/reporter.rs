//! Rendering an analysis: terminal text and a Markdown summary.

use vstd::prelude::*;
use crate::analyzer::{error_views, AnalysisResult, ResultView};
use crate::rules::registry_ids;
use crate::finding::{
    severity_display_label, severity_label, views, Finding, FindingView, Location, Severity,
};
use crate::paths::{file_name, file_name_exec};
use crate::text::{chars_of, push_chars, push_str, seq_eq, trim, trim_exec};
use crate::ts::ParseError;
use crate::unicode::{decimal, decimal_exec, string_of};

verus! {

/// A report over an analysis outcome.
pub struct Report {
    pub result: AnalysisResult,
}

// ---------------------------------------------------------------------------
// Counting
// ---------------------------------------------------------------------------

/// Number of findings of severity `s`.
pub open spec fn count_severity(fs: Seq<FindingView>, s: Severity) -> nat
    decreases fs.len(),
{
    if fs.len() == 0 {
        0
    } else {
        count_severity(fs.drop_last(), s) + if fs.last().severity == s {
            1nat
        } else {
            0nat
        }
    }
}

/// Every finding has exactly one severity, so the three counts add up to the
/// number of findings.
pub proof fn lemma_counts_partition(fs: Seq<FindingView>)
    ensures
        count_severity(fs, Severity::Error) + count_severity(fs, Severity::Warning)
            + count_severity(fs, Severity::Info) == fs.len(),
    decreases fs.len(),
{
    if fs.len() > 0 {
        lemma_counts_partition(fs.drop_last());
    }
}

/// Counts the findings of each severity: errors, warnings, infos.
pub fn count_by_severity(findings: &Vec<Finding>) -> (r: (usize, usize, usize))
    ensures
        r.0 == count_severity(views(findings@), Severity::Error),
        r.1 == count_severity(views(findings@), Severity::Warning),
        r.2 == count_severity(views(findings@), Severity::Info),
{
    let ghost fs = views(findings@);
    let mut e: usize = 0;
    let mut w: usize = 0;
    let mut i: usize = 0;
    let mut k: usize = 0;
    while k < findings.len()
        invariant
            k <= findings@.len(),
            fs == views(findings@),
            e == count_severity(fs.take(k as int), Severity::Error),
            w == count_severity(fs.take(k as int), Severity::Warning),
            i == count_severity(fs.take(k as int), Severity::Info),
            e + w + i == k,
        decreases findings@.len() - k,
    {
        proof {
            assert(fs.take(k + 1).drop_last() =~= fs.take(k as int));
            lemma_counts_partition(fs.take(k as int));
        }
        match findings[k].severity {
            Severity::Error => e += 1,
            Severity::Warning => w += 1,
            Severity::Info => i += 1,
        }
        k += 1;
    }
    assert(fs.take(findings@.len() as int) =~= fs);
    (e, w, i)
}

// ---------------------------------------------------------------------------
// Terminal text
// ---------------------------------------------------------------------------

pub open spec fn color_code(s: Severity) -> Seq<char> {
    match s {
        Severity::Error => "31"@,
        Severity::Warning => "33"@,
        Severity::Info => "34"@,
    }
}

/// The display label wrapped in an ANSI color escape.
pub open spec fn colorized(s: Severity) -> Seq<char> {
    "\x1b["@ + color_code(s) + "m"@ + severity_display_label(s) + "\x1b[0m"@
}

pub open spec fn severity_shown(s: Severity, color: bool) -> Seq<char> {
    if color {
        colorized(s)
    } else {
        severity_display_label(s)
    }
}

/// `R01 错误(error) src/a.rs:3:5  message`
pub open spec fn text_line(f: FindingView, color: bool) -> Seq<char> {
    f.rule_id + " "@ + severity_shown(f.severity, color) + " "@ + f.file + ":"@ + decimal(
        f.line as nat,
    ) + ":"@ + decimal(f.column as nat) + "  "@ + f.message + "\n"@
}

pub open spec fn text_lines(fs: Seq<FindingView>, color: bool) -> Seq<char>
    decreases fs.len(),
{
    if fs.len() == 0 {
        seq![]
    } else {
        text_lines(fs.drop_last(), color) + text_line(fs.last(), color)
    }
}

pub open spec fn text_summary(r: ResultView) -> Seq<char> {
    let n = decimal(r.findings.len());
    let e = decimal(count_severity(r.findings, Severity::Error));
    let w = decimal(count_severity(r.findings, Severity::Warning));
    let i = decimal(count_severity(r.findings, Severity::Info));
    "\n发现 "@ + n + " 条问题（"@ + e + " 错误 / "@ + w + " 警告 / "@ + i + " 信息） | Found "@ + n
        + " findings ("@ + e + " errors, "@ + w + " warnings, "@ + i + " infos) in "@ + decimal(
        r.files_scanned,
    ) + " files"@ + (if r.files_skipped > 0 {
        "，跳过 "@ + decimal(r.files_skipped) + " 个 | , "@ + decimal(r.files_skipped)
            + " skipped"@
    } else {
        seq![]
    }) + "\n"@
}

pub open spec fn parse_failure_lines(pes: Seq<(Seq<char>, Seq<char>)>) -> Seq<char>
    decreases pes.len(),
{
    if pes.len() == 0 {
        seq![]
    } else {
        let (file, err) = pes.last();
        parse_failure_lines(pes.drop_last()) + "解析失败 "@ + file + "："@ + err
            + " | parse failed "@ + file + ": "@ + err + "\n"@
    }
}

/// The terminal report: one line per finding, a summary, one line per parse failure.
pub open spec fn text_report(r: ResultView, color: bool) -> Seq<char> {
    text_lines(r.findings, color) + text_summary(r) + parse_failure_lines(r.parse_errors)
}

/// What follows a finding line's severity label.
pub open spec fn line_tail(f: FindingView) -> Seq<char> {
    " "@ + f.file + ":"@ + decimal(f.line as nat) + ":"@ + decimal(f.column as nat) + "  "@
        + f.message + "\n"@
}

/// The colored report differs from the plain one only in the finding lines'
/// severity labels: each label is wrapped in its ANSI color (red 31 for
/// errors, yellow 33 for warnings, blue 34 for infos), and every other
/// character, the summary and the parse-failure lines included, is the same.
pub proof fn lemma_color_only_wraps_labels(r: ResultView, f: FindingView)
    ensures
        text_line(f, false) == f.rule_id + " "@ + severity_display_label(f.severity) + line_tail(f),
        text_line(f, true) == f.rule_id + " "@ + ("\x1b["@ + color_code(f.severity) + "m"@
            + severity_display_label(f.severity) + "\x1b[0m"@) + line_tail(f),
        color_code(Severity::Error) == "31"@,
        color_code(Severity::Warning) == "33"@,
        color_code(Severity::Info) == "34"@,
        text_report(r, true).skip(text_lines(r.findings, true).len() as int) == text_report(
            r,
            false,
        ).skip(text_lines(r.findings, false).len() as int),
{
    assert(text_line(f, false) =~= f.rule_id + " "@ + severity_display_label(f.severity)
        + line_tail(f));
    assert(text_line(f, true) =~= f.rule_id + " "@ + ("\x1b["@ + color_code(f.severity) + "m"@
        + severity_display_label(f.severity) + "\x1b[0m"@) + line_tail(f));
    let rest = text_summary(r) + parse_failure_lines(r.parse_errors);
    assert(text_report(r, true) =~= text_lines(r.findings, true) + rest);
    assert(text_report(r, false) =~= text_lines(r.findings, false) + rest);
    assert(text_report(r, true).skip(text_lines(r.findings, true).len() as int) =~= rest);
    assert(text_report(r, false).skip(text_lines(r.findings, false).len() as int) =~= rest);
}

fn push_num(out: &mut Vec<char>, n: usize)
    ensures
        final(out)@ == old(out)@ + decimal(n as nat),
{
    let d = decimal_exec(n);
    push_chars(out, &d);
}

fn severity_text(s: Severity, color: bool) -> (r: Vec<char>)
    ensures
        r@ == severity_shown(s, color),
{
    let mut out: Vec<char> = Vec::new();
    if color {
        push_str(&mut out, "\x1b[");
        match s {
            Severity::Error => push_str(&mut out, "31"),
            Severity::Warning => push_str(&mut out, "33"),
            Severity::Info => push_str(&mut out, "34"),
        }
        push_str(&mut out, "m");
        push_str(&mut out, s.display_label());
        push_str(&mut out, "\x1b[0m");
    } else {
        push_str(&mut out, s.display_label());
    }
    assert(out@ =~= severity_shown(s, color));
    out
}

/// The severity's display label in an ANSI color.
pub fn colorize(severity: Severity) -> (r: String)
    ensures
        r@ == colorized(severity),
{
    string_of(&severity_text(severity, true))
}

fn text_lines_exec(fs: &Vec<Finding>, color: bool) -> (out: Vec<char>)
    ensures
        out@ == text_lines(views(fs@), color),
{
    let mut out: Vec<char> = Vec::new();
    let mut k: usize = 0;
    while k < fs.len()
        invariant
            k <= fs@.len(),
            out@ == text_lines(views(fs@).take(k as int), color),
        decreases fs@.len() - k,
    {
        let ghost o = out@;
        proof {
            assert(views(fs@).take(k + 1).drop_last() =~= views(fs@).take(k as int));
        }
        let f = &fs[k];
        push_str(&mut out, f.rule_id);
        push_str(&mut out, " ");
        let sv = severity_text(f.severity, color);
        push_chars(&mut out, &sv);
        push_str(&mut out, " ");
        push_str(&mut out, f.location.file.as_str());
        push_str(&mut out, ":");
        push_num(&mut out, f.location.line);
        push_str(&mut out, ":");
        push_num(&mut out, f.location.column);
        push_str(&mut out, "  ");
        push_str(&mut out, f.message.as_str());
        push_str(&mut out, "\n");
        assert(out@ =~= o + text_line(f@, color));
        k += 1;
    }
    assert(views(fs@).take(fs@.len() as int) =~= views(fs@));
    out
}

fn summary_exec(result: &AnalysisResult) -> (out: Vec<char>)
    ensures
        out@ == text_summary(result@),
{
    let (e, w, i) = count_by_severity(&result.findings);
    let n = result.findings.len();
    let mut out: Vec<char> = Vec::new();
    push_str(&mut out, "\n发现 ");
    push_num(&mut out, n);
    push_str(&mut out, " 条问题（");
    push_num(&mut out, e);
    push_str(&mut out, " 错误 / ");
    push_num(&mut out, w);
    push_str(&mut out, " 警告 / ");
    push_num(&mut out, i);
    push_str(&mut out, " 信息） | Found ");
    let ghost a = out@;
    push_num(&mut out, n);
    push_str(&mut out, " findings (");
    push_num(&mut out, e);
    push_str(&mut out, " errors, ");
    push_num(&mut out, w);
    push_str(&mut out, " warnings, ");
    push_num(&mut out, i);
    push_str(&mut out, " infos) in ");
    push_num(&mut out, result.files_scanned);
    push_str(&mut out, " files");
    let ghost b = out@;
    let mut tail: Vec<char> = Vec::new();
    if result.files_skipped > 0 {
        push_str(&mut tail, "，跳过 ");
        push_num(&mut tail, result.files_skipped);
        push_str(&mut tail, " 个 | , ");
        push_num(&mut tail, result.files_skipped);
        push_str(&mut tail, " skipped");
    }
    push_chars(&mut out, &tail);
    push_str(&mut out, "\n");
    assert(out@ =~= text_summary(result@));
    out
}

fn parse_lines_exec(pes: &Vec<(String, ParseError)>) -> (out: Vec<char>)
    ensures
        out@ == parse_failure_lines(error_views(pes@)),
{
    let mut out: Vec<char> = Vec::new();
    let mut j: usize = 0;
    while j < pes.len()
        invariant
            j <= pes@.len(),
            out@ == parse_failure_lines(error_views(pes@).take(j as int)),
        decreases pes@.len() - j,
    {
        let ghost o = out@;
        proof {
            assert(error_views(pes@).take(j + 1).drop_last() =~= error_views(pes@).take(j as int));
        }
        let file = &pes[j].0;
        let err = pes[j].1.message();
        push_str(&mut out, "解析失败 ");
        push_str(&mut out, file.as_str());
        push_str(&mut out, "：");
        push_str(&mut out, err.as_str());
        push_str(&mut out, " | parse failed ");
        push_str(&mut out, file.as_str());
        push_str(&mut out, ": ");
        push_str(&mut out, err.as_str());
        push_str(&mut out, "\n");
        assert(out@ =~= o + "解析失败 "@ + file@ + "："@ + err@ + " | parse failed "@ + file@
            + ": "@ + err@ + "\n"@);
        j += 1;
    }
    assert(error_views(pes@).take(pes@.len() as int) =~= error_views(pes@));
    out
}

fn render_text_impl(result: &AnalysisResult, color: bool) -> (r: String)
    ensures
        r@ == text_report(result@, color),
{
    let mut out = text_lines_exec(&result.findings, color);
    let s = summary_exec(result);
    push_chars(&mut out, &s);
    let p = parse_lines_exec(&result.parse_errors);
    push_chars(&mut out, &p);
    string_of(&out)
}

impl Report {
    /// The terminal report without color.
    pub fn render_text(&self) -> (r: String)
        ensures
            r@ == text_report(self.result@, false),
    {
        render_text_impl(&self.result, false)
    }

    /// The terminal report with ANSI-colored severities.
    pub fn render_text_colored(&self) -> (r: String)
        ensures
            r@ == text_report(self.result@, true),
    {
        render_text_impl(&self.result, true)
    }
}


// ---------------------------------------------------------------------------
// Markdown
// ---------------------------------------------------------------------------

/// The fix suggested for each rule; empty for an unknown rule.
pub open spec fn suggestion(rule_id: Seq<char>) -> Seq<char> {
    if rule_id == "R01"@ {
        "不要静默吞掉错误：至少记录日志；能上抛的上抛，或让返回值携带错误信息。"@
    } else if rule_id == "R02"@ {
        "拆分长函数、降低嵌套、减少参数（传参对象），提高可读性与可测试性。"@
    } else if rule_id == "R03"@ {
        "为公开 API 补充文档注释；若团队文档集中在 docs/ 且不写内联注释，可在配置中禁用本规则。"@
    } else if rule_id == "R04"@ {
        "增加断言数量，覆盖边界与失败路径，而非只验证 happy path。"@
    } else if rule_id == "R05"@ {
        "断言响应体与副作用，而非仅状态码。"@
    } else if rule_id == "R06"@ {
        "评估抽象是否必要：单实现 trait/接口可先内联为具体类型。"@
    } else if rule_id == "R07"@ {
        "删除未使用的 import。"@
    } else if rule_id == "R08"@ {
        "清理 TODO/FIXME，或转成正式 issue 跟踪。"@
    } else if rule_id == "R09"@ {
        "删除注释掉的代码，历史保留在版本控制中。"@
    } else if rule_id == "R10"@ {
        "为魔法常量命名（常量/枚举），提高可维护性。"@
    } else if rule_id == "R14"@ {
        "密钥移出源码（环境变量/密钥管理），已泄露的密钥应立即轮换。"@
    } else if rule_id == "R15"@ {
        "对边界函数的输入做空值/越界校验。"@
    } else if rule_id == "R16"@ {
        "测试名描述行为而非实现；避免直接断言私有状态。"@
    } else if rule_id == "R18"@ {
        "给 async 调用补上 await，或显式处理返回的 Future。"@
    } else if rule_id == "R19"@ {
        "用 select_related/prefetch_related/include 预取关系字段，避免 N+1。"@
    } else if rule_id == "R20"@ {
        "为资源配对 close/remove，或使用 with/try-finally 保证释放。"@
    } else if rule_id == "R23"@ {
        "保留错误类型信息：区分错误码/异常类型，让调用方能正确响应。"@
    } else if rule_id == "R24"@ {
        "路径/URL 集中到配置或常量，避免散落与客户端/服务端不一致。"@
    } else if rule_id == "R28"@ {
        "移除对不可失败操作的防御性处理，简化代码。"@
    } else {
        seq![]
    }
}

/// The fix suggested for a rule (empty for an unknown rule).
pub fn suggestion_for(rule_id: &str) -> (r: &'static str)
    ensures
        r@ == suggestion(rule_id@),
{
    let id = chars_of(rule_id);
    if crate::text::eq_str(&id, "R01") {
        "不要静默吞掉错误：至少记录日志；能上抛的上抛，或让返回值携带错误信息。"
    } else if crate::text::eq_str(&id, "R02") {
        "拆分长函数、降低嵌套、减少参数（传参对象），提高可读性与可测试性。"
    } else if crate::text::eq_str(&id, "R03") {
        "为公开 API 补充文档注释；若团队文档集中在 docs/ 且不写内联注释，可在配置中禁用本规则。"
    } else if crate::text::eq_str(&id, "R04") {
        "增加断言数量，覆盖边界与失败路径，而非只验证 happy path。"
    } else if crate::text::eq_str(&id, "R05") {
        "断言响应体与副作用，而非仅状态码。"
    } else if crate::text::eq_str(&id, "R06") {
        "评估抽象是否必要：单实现 trait/接口可先内联为具体类型。"
    } else if crate::text::eq_str(&id, "R07") {
        "删除未使用的 import。"
    } else if crate::text::eq_str(&id, "R08") {
        "清理 TODO/FIXME，或转成正式 issue 跟踪。"
    } else if crate::text::eq_str(&id, "R09") {
        "删除注释掉的代码，历史保留在版本控制中。"
    } else if crate::text::eq_str(&id, "R10") {
        "为魔法常量命名（常量/枚举），提高可维护性。"
    } else if crate::text::eq_str(&id, "R14") {
        "密钥移出源码（环境变量/密钥管理），已泄露的密钥应立即轮换。"
    } else if crate::text::eq_str(&id, "R15") {
        "对边界函数的输入做空值/越界校验。"
    } else if crate::text::eq_str(&id, "R16") {
        "测试名描述行为而非实现；避免直接断言私有状态。"
    } else if crate::text::eq_str(&id, "R18") {
        "给 async 调用补上 await，或显式处理返回的 Future。"
    } else if crate::text::eq_str(&id, "R19") {
        "用 select_related/prefetch_related/include 预取关系字段，避免 N+1。"
    } else if crate::text::eq_str(&id, "R20") {
        "为资源配对 close/remove，或使用 with/try-finally 保证释放。"
    } else if crate::text::eq_str(&id, "R23") {
        "保留错误类型信息：区分错误码/异常类型，让调用方能正确响应。"
    } else if crate::text::eq_str(&id, "R24") {
        "路径/URL 集中到配置或常量，避免散落与客户端/服务端不一致。"
    } else if crate::text::eq_str(&id, "R28") {
        "移除对不可失败操作的防御性处理，简化代码。"
    } else {
        proof {
            reveal_strlit("");
        }
        ""
    }
}

/// The findings whose severity is (`keep`) or is not (`!keep`) `s`, in order.
pub open spec fn severity_filter(fs: Seq<FindingView>, s: Severity, keep: bool) -> Seq<FindingView>
    decreases fs.len(),
{
    if fs.len() == 0 {
        seq![]
    } else {
        severity_filter(fs.drop_last(), s, keep) + if (fs.last().severity == s) == keep {
            seq![fs.last()]
        } else {
            seq![]
        }
    }
}

/// A finding belongs to a group when it has the group's rule (and, when
/// `by_severity`, its severity).
pub open spec fn same_group(g: Seq<FindingView>, f: FindingView, by_severity: bool) -> bool {
    g.len() > 0 && g[0].rule_id == f.rule_id && (!by_severity || g[0].severity == f.severity)
}

/// The first group, from `j` on, that `f` belongs to.
pub open spec fn group_index(gs: Seq<Seq<FindingView>>, f: FindingView, by_severity: bool, j: int) -> Option<
    int,
>
    decreases gs.len() - j,
{
    if j < 0 || j >= gs.len() {
        None
    } else if same_group(gs[j], f, by_severity) {
        Some(j)
    } else {
        group_index(gs, f, by_severity, j + 1)
    }
}

/// Groups by rule (and severity), in order of first appearance; each group
/// keeps its findings in order.
pub open spec fn group_by(fs: Seq<FindingView>, by_severity: bool) -> Seq<Seq<FindingView>>
    decreases fs.len(),
{
    if fs.len() == 0 {
        seq![]
    } else {
        let gs = group_by(fs.drop_last(), by_severity);
        let f = fs.last();
        match group_index(gs, f, by_severity, 0) {
            Some(k) => gs.update(k, gs[k].push(f)),
            None => gs.push(seq![f]),
        }
    }
}

/// How many findings the groups hold together.
pub open spec fn total_size(gs: Seq<Seq<FindingView>>) -> nat
    decreases gs.len(),
{
    if gs.len() == 0 {
        0
    } else {
        total_size(gs.drop_last()) + gs.last().len()
    }
}

proof fn lemma_group_index(gs: Seq<Seq<FindingView>>, f: FindingView, by_severity: bool, j: int)
    ensures
        group_index(gs, f, by_severity, j) matches Some(k) ==> 0 <= j <= k < gs.len() && same_group(
            gs[k],
            f,
            by_severity,
        ),
        j >= 0 && group_index(gs, f, by_severity, j) is None ==> forall|k: int|
            j <= k < gs.len() ==> !same_group(#[trigger] gs[k], f, by_severity),
    decreases gs.len() - j,
{
    if 0 <= j < gs.len() && !same_group(gs[j], f, by_severity) {
        lemma_group_index(gs, f, by_severity, j + 1);
    }
}

proof fn lemma_total_size_update(gs: Seq<Seq<FindingView>>, k: int, g: Seq<FindingView>)
    requires
        0 <= k < gs.len(),
    ensures
        total_size(gs.update(k, g)) == total_size(gs) - gs[k].len() + g.len(),
    decreases gs.len(),
{
    let u = gs.update(k, g);
    if k == gs.len() - 1 {
        assert(u.drop_last() =~= gs.drop_last());
    } else {
        lemma_total_size_update(gs.drop_last(), k, g);
        assert(u.drop_last() =~= gs.drop_last().update(k, g));
    }
}

/// Grouping loses no finding and mixes none: the groups hold as many findings
/// as went in, and each finding of a group has the group's rule (and, when
/// grouping by severity, its severity).
pub proof fn lemma_group_by_partition(fs: Seq<FindingView>, by_severity: bool)
    ensures
        total_size(group_by(fs, by_severity)) == fs.len(),
        forall|k: int, i: int|
            0 <= k < group_by(fs, by_severity).len() && 0 <= i < group_by(fs, by_severity)[k].len()
                ==> same_group(
                group_by(fs, by_severity)[k],
                #[trigger] group_by(fs, by_severity)[k][i],
                by_severity,
            ),
    decreases fs.len(),
{
    if fs.len() > 0 {
        let gs = group_by(fs.drop_last(), by_severity);
        let f = fs.last();
        lemma_group_by_partition(fs.drop_last(), by_severity);
        lemma_group_index(gs, f, by_severity, 0);
        match group_index(gs, f, by_severity, 0) {
            Some(k) => {
                let ng = gs.update(k, gs[k].push(f));
                lemma_total_size_update(gs, k, gs[k].push(f));
                assert forall|m: int, i: int| 0 <= m < ng.len() && 0 <= i < ng[m].len() implies same_group(
                    ng[m],
                    #[trigger] ng[m][i],
                    by_severity,
                ) by {
                    if m == k {
                        assert(ng[m][0] == gs[k][0]);
                        if i < gs[k].len() {
                            assert(ng[m][i] == gs[k][i]);
                            assert(same_group(gs[k], gs[k][i], by_severity));
                        }
                    } else {
                        assert(ng[m] == gs[m]);
                        assert(same_group(gs[m], gs[m][i], by_severity));
                    }
                }
            },
            None => {
                let ng = gs.push(seq![f]);
                assert(ng.drop_last() =~= gs);
                assert forall|m: int, i: int| 0 <= m < ng.len() && 0 <= i < ng[m].len() implies same_group(
                    ng[m],
                    #[trigger] ng[m][i],
                    by_severity,
                ) by {
                    if m < gs.len() {
                        assert(ng[m] == gs[m]);
                        assert(same_group(gs[m], gs[m][i], by_severity));
                    }
                }
            },
        }
    }
}

/// Grouping gives one group per rule (and, when grouping by severity, per
/// rule and severity): no group is empty, and no finding of a later group
/// belongs to an earlier one.
#[verifier::spinoff_prover]
pub proof fn lemma_group_by_distinct(fs: Seq<FindingView>, by_severity: bool)
    ensures
        forall|k: int| 0 <= k < group_by(fs, by_severity).len() ==> (#[trigger] group_by(fs, by_severity)[k]).len() > 0,
        forall|i: int, j: int|
            0 <= i < j < group_by(fs, by_severity).len() ==> !same_group(
                #[trigger] group_by(fs, by_severity)[i],
                (#[trigger] group_by(fs, by_severity)[j])[0],
                by_severity,
            ),
    decreases fs.len(),
{
    if fs.len() > 0 {
        let gs = group_by(fs.drop_last(), by_severity);
        let f = fs.last();
        lemma_group_by_distinct(fs.drop_last(), by_severity);
        lemma_group_index(gs, f, by_severity, 0);
        match group_index(gs, f, by_severity, 0) {
            Some(k) => {
                let ng = gs.update(k, gs[k].push(f));
                assert(ng[k][0] == gs[k][0]);
                assert forall|i: int, j: int| 0 <= i < j < ng.len() implies !same_group(
                    #[trigger] ng[i],
                    (#[trigger] ng[j])[0],
                    by_severity,
                ) by {
                    assert(ng[i][0] == gs[i][0]);
                    assert(ng[j][0] == gs[j][0]);
                    assert(!same_group(gs[i], gs[j][0], by_severity));
                }
                assert forall|m: int| 0 <= m < ng.len() implies (#[trigger] ng[m]).len() > 0 by {
                    if m != k {
                        assert(ng[m] == gs[m]);
                    }
                }
            },
            None => {
                let ng = gs.push(seq![f]);
                assert forall|i: int, j: int| 0 <= i < j < ng.len() implies !same_group(
                    #[trigger] ng[i],
                    (#[trigger] ng[j])[0],
                    by_severity,
                ) by {
                    assert(ng[i] == gs[i]);
                    if j < gs.len() {
                        assert(ng[j] == gs[j]);
                    } else {
                        assert(ng[j][0] == f);
                        assert(!same_group(gs[i], f, by_severity));
                    }
                }
                assert forall|m: int| 0 <= m < ng.len() implies (#[trigger] ng[m]).len() > 0 by {
                    if m < gs.len() {
                        assert(ng[m] == gs[m]);
                    }
                }
            },
        }
    }
}

/// Every finding lies in a group.
#[verifier::spinoff_prover]
pub proof fn lemma_group_by_covers(fs: Seq<FindingView>, by_severity: bool, b: int)
    requires
        0 <= b < fs.len(),
    ensures
        exists|m: int|
            0 <= m < group_by(fs, by_severity).len() && same_group(
                #[trigger] group_by(fs, by_severity)[m],
                fs[b],
                by_severity,
            ),
    decreases fs.len(),
{
    let d = fs.drop_last();
    let gs = group_by(d, by_severity);
    let f = fs.last();
    lemma_group_index(gs, f, by_severity, 0);
    let ng = group_by(fs, by_severity);
    let last: int = match group_index(gs, f, by_severity, 0) {
        Some(k) => k,
        None => gs.len() as int,
    };
    if b < d.len() {
        lemma_group_by_covers(d, by_severity, b);
        let m = choose|m: int| 0 <= m < gs.len() && same_group(#[trigger] gs[m], d[b], by_severity);
        lemma_group_nonempty(d, by_severity, m);
        if m == last {
            assert(ng[m] == gs[m].push(f));
        } else {
            assert(ng[m] == gs[m]);
        }
        assert(same_group(ng[m], fs[b], by_severity));
    } else {
        if last < gs.len() {
            lemma_group_nonempty(d, by_severity, last);
            assert(ng[last] == gs[last].push(f));
        }
        assert(same_group(ng[last], fs[b], by_severity));
    }
}

/// Each group starts with one of the findings.
pub proof fn lemma_group_starts(fs: Seq<FindingView>, by_severity: bool, i: int)
    requires
        0 <= i < group_by(fs, by_severity).len(),
    ensures
        exists|a: int| 0 <= a < fs.len() && fs[a] == group_by(fs, by_severity)[i][0],
    decreases fs.len(),
{
    let d = fs.drop_last();
    let gs = group_by(d, by_severity);
    let f = fs.last();
    lemma_group_index(gs, f, by_severity, 0);
    let ng = group_by(fs, by_severity);
    let last: int = match group_index(gs, f, by_severity, 0) {
        Some(k) => k,
        None => gs.len() as int,
    };
    if i < gs.len() {
        lemma_group_starts(d, by_severity, i);
        lemma_group_nonempty(d, by_severity, i);
        if i == last {
            assert(ng[i] == gs[i].push(f));
        } else {
            assert(ng[i] == gs[i]);
        }
        let a = choose|a: int| 0 <= a < d.len() && d[a] == gs[i][0];
        assert(fs[a] == ng[i][0]);
    } else {
        assert(ng[i] == seq![f]);
        assert(fs[d.len() as int] == ng[i][0]);
    }
}

proof fn lemma_group_nonempty(fs: Seq<FindingView>, by_severity: bool, k: int)
    requires
        0 <= k < group_by(fs, by_severity).len(),
    ensures
        group_by(fs, by_severity)[k].len() > 0,
{
    lemma_group_by_distinct(fs, by_severity);
}

/// Groups come in order of first appearance: the finding that starts group
/// `i` comes before any finding of a later group `j`.
#[verifier::spinoff_prover]
pub proof fn lemma_group_by_order(fs: Seq<FindingView>, by_severity: bool, i: int, j: int)
    requires
        0 <= i < j < group_by(fs, by_severity).len(),
    ensures
        exists|a: int|
            0 <= a < fs.len() && fs[a] == group_by(fs, by_severity)[i][0] && forall|b: int|
                0 <= b <= a ==> !same_group(group_by(fs, by_severity)[j], #[trigger] fs[b], by_severity),
    decreases fs.len(),
{
    let d = fs.drop_last();
    let gs = group_by(d, by_severity);
    let f = fs.last();
    lemma_group_index(gs, f, by_severity, 0);
    let ng = group_by(fs, by_severity);
    let last: int = match group_index(gs, f, by_severity, 0) {
        Some(k) => k,
        None => gs.len() as int,
    };
    assert(ng[i].len() > 0 && ng[i][0] == gs[i][0]) by {
        lemma_group_nonempty(d, by_severity, i);
        if i == last {
            assert(ng[i] == gs[i].push(f));
        } else {
            assert(ng[i] == gs[i]);
        }
    }
    if j < gs.len() {
        assert(ng[j].len() > 0 && ng[j][0] == gs[j][0]) by {
            lemma_group_nonempty(d, by_severity, j);
            if j == last {
                assert(ng[j] == gs[j].push(f));
            } else {
                assert(ng[j] == gs[j]);
            }
        }
        lemma_group_by_order(d, by_severity, i, j);
        let a = choose|a: int|
            0 <= a < d.len() && d[a] == gs[i][0] && forall|b: int|
                0 <= b <= a ==> !same_group(gs[j], #[trigger] d[b], by_severity);
        assert forall|b: int| 0 <= b <= a implies !same_group(ng[j], #[trigger] fs[b], by_severity) by {
            assert(fs[b] == d[b]);
        }
        assert(fs[a] == ng[i][0]);
    } else {
        assert(group_index(gs, f, by_severity, 0) is None);
        assert(ng[j] == seq![f]);
        lemma_group_starts(d, by_severity, i);
        let a = choose|a: int| 0 <= a < d.len() && d[a] == gs[i][0];
        assert forall|b: int| 0 <= b <= a implies !same_group(ng[j], #[trigger] fs[b], by_severity) by {
            assert(fs[b] == d[b]);
            lemma_group_by_covers(d, by_severity, b);
            let m = choose|m: int| 0 <= m < gs.len() && same_group(#[trigger] gs[m], d[b], by_severity);
            assert(!same_group(gs[m], f, by_severity));
        }
        assert(fs[a] == ng[i][0]);
    }
}

/// Every rule of the registry has a fix suggestion in the Markdown report.
pub proof fn lemma_every_registered_rule_has_a_suggestion()
    ensures
        forall|k: int| 0 <= k < 19 ==> #[trigger] suggestion(registry_ids()[k]).len() > 0,
{
    reveal_strlit("R01");
    reveal_strlit("R02");
    reveal_strlit("R03");
    reveal_strlit("R04");
    reveal_strlit("R05");
    reveal_strlit("R06");
    reveal_strlit("R07");
    reveal_strlit("R08");
    reveal_strlit("R09");
    reveal_strlit("R10");
    reveal_strlit("R14");
    reveal_strlit("R15");
    reveal_strlit("R16");
    reveal_strlit("R18");
    reveal_strlit("R19");
    reveal_strlit("R20");
    reveal_strlit("R23");
    reveal_strlit("R24");
    reveal_strlit("R28");
    reveal_strlit("不要静默吞掉错误：至少记录日志；能上抛的上抛，或让返回值携带错误信息。");
    reveal_strlit("拆分长函数、降低嵌套、减少参数（传参对象），提高可读性与可测试性。");
    reveal_strlit("为公开 API 补充文档注释；若团队文档集中在 docs/ 且不写内联注释，可在配置中禁用本规则。");
    reveal_strlit("增加断言数量，覆盖边界与失败路径，而非只验证 happy path。");
    reveal_strlit("断言响应体与副作用，而非仅状态码。");
    reveal_strlit("评估抽象是否必要：单实现 trait/接口可先内联为具体类型。");
    reveal_strlit("删除未使用的 import。");
    reveal_strlit("清理 TODO/FIXME，或转成正式 issue 跟踪。");
    reveal_strlit("删除注释掉的代码，历史保留在版本控制中。");
    reveal_strlit("为魔法常量命名（常量/枚举），提高可维护性。");
    reveal_strlit("密钥移出源码（环境变量/密钥管理），已泄露的密钥应立即轮换。");
    reveal_strlit("对边界函数的输入做空值/越界校验。");
    reveal_strlit("测试名描述行为而非实现；避免直接断言私有状态。");
    reveal_strlit("给 async 调用补上 await，或显式处理返回的 Future。");
    reveal_strlit("用 select_related/prefetch_related/include 预取关系字段，避免 N+1。");
    reveal_strlit("为资源配对 close/remove，或使用 with/try-finally 保证释放。");
    reveal_strlit("保留错误类型信息：区分错误码/异常类型，让调用方能正确响应。");
    reveal_strlit("路径/URL 集中到配置或常量，避免散落与客户端/服务端不一致。");
    reveal_strlit("移除对不可失败操作的防御性处理，简化代码。");
    assert forall|k: int| 0 <= k < 19 implies #[trigger] suggestion(registry_ids()[k]).len() > 0 by {
        if k == 0 {
            assert(registry_ids()[k] == "R01"@);
        }
        if k == 1 {
            assert(registry_ids()[k] == "R02"@);
        }
        if k == 2 {
            assert(registry_ids()[k] == "R03"@);
        }
        if k == 3 {
            assert(registry_ids()[k] == "R04"@);
        }
        if k == 4 {
            assert(registry_ids()[k] == "R05"@);
        }
        if k == 5 {
            assert(registry_ids()[k] == "R06"@);
        }
        if k == 6 {
            assert(registry_ids()[k] == "R07"@);
        }
        if k == 7 {
            assert(registry_ids()[k] == "R08"@);
        }
        if k == 8 {
            assert(registry_ids()[k] == "R09"@);
        }
        if k == 9 {
            assert(registry_ids()[k] == "R10"@);
        }
        if k == 10 {
            assert(registry_ids()[k] == "R14"@);
        }
        if k == 11 {
            assert(registry_ids()[k] == "R15"@);
        }
        if k == 12 {
            assert(registry_ids()[k] == "R16"@);
        }
        if k == 13 {
            assert(registry_ids()[k] == "R18"@);
        }
        if k == 14 {
            assert(registry_ids()[k] == "R19"@);
        }
        if k == 15 {
            assert(registry_ids()[k] == "R20"@);
        }
        if k == 16 {
            assert(registry_ids()[k] == "R23"@);
        }
        if k == 17 {
            assert(registry_ids()[k] == "R24"@);
        }
        if k == 18 {
            assert(registry_ids()[k] == "R28"@);
        }
    }
}

/// A file as a report names it: its file name, else the whole path.
pub open spec fn shown_name(file: Seq<char>) -> Seq<char> {
    match file_name(file) {
        Some(n) => n,
        None => file,
    }
}

pub open spec fn name_index(cs: Seq<(Seq<char>, nat)>, name: Seq<char>, j: int) -> Option<int>
    decreases cs.len() - j,
{
    if j < 0 || j >= cs.len() {
        None
    } else if cs[j].0 == name {
        Some(j)
    } else {
        name_index(cs, name, j + 1)
    }
}

/// Findings per file name, in order of first appearance.
pub open spec fn file_counts(fs: Seq<FindingView>) -> Seq<(Seq<char>, nat)>
    decreases fs.len(),
{
    if fs.len() == 0 {
        seq![]
    } else {
        let cs = file_counts(fs.drop_last());
        let name = shown_name(fs.last().file);
        match name_index(cs, name, 0) {
            Some(k) => cs.update(k, (name, cs[k].1 + 1)),
            None => cs.push((name, 1nat)),
        }
    }
}

/// Inserts `x` after every entry whose count is at least its own.
pub open spec fn insert_by_count(s: Seq<(Seq<char>, nat)>, x: (Seq<char>, nat)) -> Seq<(Seq<char>, nat)>
    decreases s.len(),
{
    if s.len() == 0 {
        seq![x]
    } else if s.last().1 >= x.1 {
        s.push(x)
    } else {
        insert_by_count(s.drop_last(), x).push(s.last())
    }
}

/// Stable sort by count, largest first.
pub open spec fn sort_by_count(s: Seq<(Seq<char>, nat)>) -> Seq<(Seq<char>, nat)>
    decreases s.len(),
{
    if s.len() == 0 {
        seq![]
    } else {
        insert_by_count(sort_by_count(s.drop_last()), s.last())
    }
}

pub open spec fn by_count_desc(s: Seq<(Seq<char>, nat)>) -> bool {
    forall|i: int, j: int| 0 <= i < j < s.len() ==> (#[trigger] s[i]).1 >= (#[trigger] s[j]).1
}

proof fn lemma_insert_by_count(s: Seq<(Seq<char>, nat)>, x: (Seq<char>, nat))
    requires
        by_count_desc(s),
    ensures
        by_count_desc(insert_by_count(s, x)),
        insert_by_count(s, x).len() == s.len() + 1,
        forall|k: int|
            0 <= k < insert_by_count(s, x).len() ==> (#[trigger] insert_by_count(s, x)[k]).1 == x.1
                || exists|m: int| 0 <= m < s.len() && s[m] == insert_by_count(s, x)[k],
    decreases s.len(),
{
    if s.len() == 0 {
    } else if s.last().1 >= x.1 {
        let r = s.push(x);
        assert forall|k: int| 0 <= k < r.len() implies (#[trigger] r[k]).1 == x.1 || exists|m: int|
            0 <= m < s.len() && s[m] == r[k] by {
            if k < s.len() {
                assert(r[k] == s[k]);
            }
        }
        assert forall|i: int, j: int| 0 <= i < j < r.len() implies (#[trigger] r[i]).1 >= (
        #[trigger] r[j]).1 by {
            if j == s.len() {
                assert(r[i] == s[i]);
                assert(s[i].1 >= s[s.len() - 1].1);
            } else {
                assert(r[i] == s[i] && r[j] == s[j]);
            }
        }
    } else {
        let d = s.drop_last();
        assert(by_count_desc(d)) by {
            assert forall|i: int, j: int| 0 <= i < j < d.len() implies (#[trigger] d[i]).1 >= (
            #[trigger] d[j]).1 by {
                assert(d[i] == s[i] && d[j] == s[j]);
            }
        }
        lemma_insert_by_count(d, x);
        let t = insert_by_count(d, x);
        let r = t.push(s.last());
        assert forall|k: int| 0 <= k < r.len() implies (#[trigger] r[k]).1 == x.1 || exists|m: int|
            0 <= m < s.len() && s[m] == r[k] by {
            if k < t.len() {
                assert(r[k] == t[k]);
                if t[k].1 != x.1 {
                    let m = choose|m: int| 0 <= m < d.len() && d[m] == t[k];
                    assert(s[m] == d[m]);
                }
            } else {
                assert(s[s.len() - 1] == r[k]);
            }
        }
        assert forall|i: int, j: int| 0 <= i < j < r.len() implies (#[trigger] r[i]).1 >= (
        #[trigger] r[j]).1 by {
            if j == t.len() {
                assert(r[i] == t[i]);
                if t[i].1 != x.1 {
                    let m = choose|m: int| 0 <= m < d.len() && d[m] == t[i];
                    assert(s[m] == d[m]);
                    assert(s[m].1 >= s[s.len() - 1].1);
                }
            } else {
                assert(r[i] == t[i] && r[j] == t[j]);
            }
        }
    }
}

/// Sorting by count puts the files with more findings first.
pub proof fn lemma_sort_by_count_desc(s: Seq<(Seq<char>, nat)>)
    ensures
        by_count_desc(sort_by_count(s)),
    decreases s.len(),
{
    if s.len() > 0 {
        lemma_sort_by_count_desc(s.drop_last());
        lemma_insert_by_count(sort_by_count(s.drop_last()), s.last());
    }
}

/// The `limit` files with the most findings (ties in order of first appearance).
pub open spec fn top_files_spec(fs: Seq<FindingView>, limit: nat) -> Seq<(Seq<char>, nat)> {
    let s = sort_by_count(file_counts(fs));
    if s.len() <= limit {
        s
    } else {
        s.take(limit as int)
    }
}


pub open spec fn group_views(gs: Seq<Vec<Finding>>) -> Seq<Seq<FindingView>> {
    gs.map_values(|g: Vec<Finding>| views(g@))
}

pub open spec fn count_views(v: Seq<(Vec<char>, usize)>) -> Seq<(Seq<char>, nat)> {
    v.map_values(|p: (Vec<char>, usize)| (p.0@, p.1 as nat))
}

fn copy_findings(fs: &Vec<Finding>) -> (r: Vec<Finding>)
    ensures
        views(r@) == views(fs@),
        r@.len() == fs@.len(),
{
    let mut out: Vec<Finding> = Vec::new();
    let mut k: usize = 0;
    while k < fs.len()
        invariant
            k <= fs@.len(),
            out@.len() == k,
            views(out@) == views(fs@).take(k as int),
        decreases fs@.len() - k,
    {
        let ghost o = out@;
        out.push(fs[k].duplicate());
        assert(views(out@) =~= views(fs@).take(k + 1));
        k += 1;
    }
    assert(views(fs@).take(fs@.len() as int) =~= views(fs@));
    out
}

/// The findings whose severity is (or, with `keep` false, is not) `s`.
fn filter_severity(fs: &Vec<Finding>, s: Severity, keep: bool) -> (r: Vec<Finding>)
    ensures
        views(r@) == severity_filter(views(fs@), s, keep),
{
    let ghost fv = views(fs@);
    let mut out: Vec<Finding> = Vec::new();
    let mut k: usize = 0;
    while k < fs.len()
        invariant
            k <= fs@.len(),
            fv == views(fs@),
            views(out@) == severity_filter(fv.take(k as int), s, keep),
        decreases fs@.len() - k,
    {
        let ghost o = out@;
        proof {
            assert(fv.take(k + 1).drop_last() =~= fv.take(k as int));
        }
        if (fs[k].severity == s) == keep {
            out.push(fs[k].duplicate());
            assert(views(out@) =~= views(o) + seq![fv[k as int]]);
        } else {
            assert(views(out@) =~= views(o) + Seq::<FindingView>::empty());
        }
        k += 1;
    }
    assert(fv.take(fs@.len() as int) =~= fv);
    out
}

fn same_group_exec(g: &Vec<Finding>, f: &Finding, by_severity: bool) -> (r: bool)
    requires
        g@.len() > 0,
    ensures
        r == same_group(views(g@), f@, by_severity),
{
    let a = chars_of(g[0].rule_id);
    let b = chars_of(f.rule_id);
    seq_eq(&a, &b) && (!by_severity || g[0].severity == f.severity)
}

fn find_group(gs: &Vec<Vec<Finding>>, f: &Finding, by_severity: bool) -> (r: Option<usize>)
    requires
        forall|m: int| 0 <= m < gs@.len() ==> (#[trigger] gs@[m]).len() > 0,
    ensures
        match r {
            Some(j) => j < gs@.len() && group_index(group_views(gs@), f@, by_severity, 0) == Some(
                j as int,
            ),
            None => group_index(group_views(gs@), f@, by_severity, 0) is None,
        },
{
    let ghost gv = group_views(gs@);
    let mut j: usize = 0;
    while j < gs.len()
        invariant
            j <= gs@.len(),
            gv == group_views(gs@),
            forall|m: int| 0 <= m < gs@.len() ==> (#[trigger] gs@[m]).len() > 0,
            group_index(gv, f@, by_severity, j as int) == group_index(gv, f@, by_severity, 0),
        decreases gs@.len() - j,
    {
        assert(gv[j as int] == views(gs@[j as int]@));
        if same_group_exec(&gs[j], f, by_severity) {
            return Some(j);
        }
        j += 1;
    }
    None
}

proof fn lemma_name_index(cs: Seq<(Seq<char>, nat)>, name: Seq<char>, j: int)
    requires
        0 <= j,
    ensures
        match name_index(cs, name, j) {
            Some(k) => j <= k < cs.len() && cs[k].0 == name,
            None => forall|k: int| j <= k < cs.len() ==> (#[trigger] cs[k]).0 != name,
        },
    decreases cs.len() - j,
{
    if j < cs.len() && cs[j].0 != name {
        lemma_name_index(cs, name, j + 1);
    }
}

fn find_name(cs: &Vec<(Vec<char>, usize)>, name: &Vec<char>) -> (r: Option<usize>)
    ensures
        match r {
            Some(j) => j < cs@.len() && name_index(count_views(cs@), name@, 0) == Some(j as int),
            None => name_index(count_views(cs@), name@, 0) is None,
        },
{
    let ghost cv = count_views(cs@);
    let mut j: usize = 0;
    while j < cs.len()
        invariant
            j <= cs@.len(),
            cv == count_views(cs@),
            name_index(cv, name@, j as int) == name_index(cv, name@, 0),
        decreases cs@.len() - j,
    {
        assert(cv[j as int] == (cs@[j as int].0@, cs@[j as int].1 as nat));
        if seq_eq(&cs[j].0, name) {
            return Some(j);
        }
        j += 1;
    }
    None
}

/// Groups findings by rule (and severity), keeping first-appearance order.
fn group_findings(fs: &Vec<Finding>, by_severity: bool) -> (r: Vec<Vec<Finding>>)
    ensures
        group_views(r@) == group_by(views(fs@), by_severity),
        forall|m: int| 0 <= m < r@.len() ==> (#[trigger] r@[m]).len() > 0,
{
    let ghost fv = views(fs@);
    let mut gs: Vec<Vec<Finding>> = Vec::new();
    let mut k: usize = 0;
    while k < fs.len()
        invariant
            k <= fs@.len(),
            fv == views(fs@),
            group_views(gs@) == group_by(fv.take(k as int), by_severity),
            forall|m: int| 0 <= m < gs@.len() ==> (#[trigger] gs@[m]).len() > 0,
        decreases fs@.len() - k,
    {
        let ghost gv = group_views(gs@);
        proof {
            assert(fv.take(k + 1).drop_last() =~= fv.take(k as int));
            assert(fv.take(k + 1).last() == fs@[k as int]@);
        }
        let f = &fs[k];
        let found = find_group(&gs, f, by_severity);
        if let Some(j) = found {
            let mut g = copy_findings(&gs[j]);
            g.push(f.duplicate());
            let ghost old_gs = gs@;
            gs.set(j, g);
            proof {
                assert(views(g@) =~= gv[j as int].push(f@));
                assert(group_views(gs@) =~= gv.update(j as int, gv[j as int].push(f@)));
            }
        } else {
            let mut g: Vec<Finding> = Vec::new();
            g.push(f.duplicate());
            gs.push(g);
            proof {
                assert(views(g@) =~= seq![f@]);
                assert(group_views(gs@) =~= gv.push(seq![f@]));
            }
        }
        k += 1;
    }
    assert(fv.take(fs@.len() as int) =~= fv);
    gs
}

fn shown_name_exec(file: &String) -> (r: Vec<char>)
    ensures
        r@ == shown_name(file@),
{
    let p = chars_of(file.as_str());
    match file_name_exec(&p) {
        Some(n) => n,
        None => p,
    }
}

/// Findings per shown file name, in order of first appearance.
fn file_counts_exec(fs: &Vec<Finding>) -> (r: Vec<(Vec<char>, usize)>)
    ensures
        count_views(r@) == file_counts(views(fs@)),
{
    let ghost fv = views(fs@);
    let mut cs: Vec<(Vec<char>, usize)> = Vec::new();
    let mut k: usize = 0;
    while k < fs.len()
        invariant
            k <= fs@.len(),
            fv == views(fs@),
            count_views(cs@) == file_counts(fv.take(k as int)),
            forall|m: int| 0 <= m < cs@.len() ==> (#[trigger] cs@[m]).1 <= k,
        decreases fs@.len() - k,
    {
        let ghost cv = count_views(cs@);
        proof {
            assert(fv.take(k + 1).drop_last() =~= fv.take(k as int));
            assert(fv.take(k + 1).last() == fs@[k as int]@);
        }
        let name = shown_name_exec(&fs[k].location.file);
        let found = find_name(&cs, &name);
        if let Some(j) = found {
            let c = cs[j].1;
            let n2 = cs[j].0.clone();
            cs.set(j, (n2, c + 1));
            proof {
                lemma_name_index(cv, name@, 0);
                assert(count_views(cs@) =~= cv.update(j as int, (name@, cv[j as int].1 + 1)));
            }
        } else {
            cs.push((name, 1));
            proof {
                assert(count_views(cs@) =~= cv.push((name@, 1nat)));
            }
        }
        k += 1;
    }
    assert(fv.take(fs@.len() as int) =~= fv);
    cs
}

proof fn lemma_insert_step(cv: Seq<(Seq<char>, nat)>, x: (Seq<char>, nat), p: int)
    requires
        0 < p <= cv.len(),
        cv[p - 1].1 < x.1,
    ensures
        insert_by_count(cv.take(p), x) + cv.skip(p) == insert_by_count(cv.take(p - 1), x) + cv.skip(
            p - 1,
        ),
{
    assert(cv.take(p).drop_last() =~= cv.take(p - 1));
    assert(cv.take(p).last() == cv[p - 1]);
    assert(insert_by_count(cv.take(p), x) == insert_by_count(cv.take(p - 1), x).push(cv[p - 1]));
    assert(cv.skip(p - 1) =~= seq![cv[p - 1]] + cv.skip(p));
    assert(insert_by_count(cv.take(p - 1), x).push(cv[p - 1]) + cv.skip(p) =~= insert_by_count(
        cv.take(p - 1),
        x,
    ) + cv.skip(p - 1));
}

/// Inserts an entry after every entry whose count is at least its own.
fn insert_count(s: &mut Vec<(Vec<char>, usize)>, x: (Vec<char>, usize))
    ensures
        count_views(final(s)@) == insert_by_count(count_views(old(s)@), (x.0@, x.1 as nat)),
{
    let ghost cv = count_views(s@);
    let ghost xv = (x.0@, x.1 as nat);
    let mut p: usize = s.len();
    assert(cv.take(p as int) =~= cv);
    assert(cv.skip(p as int) =~= Seq::<(Seq<char>, nat)>::empty());
    while p > 0 && s[p - 1].1 < x.1
        invariant
            p <= s@.len(),
            cv == count_views(s@),
            xv == (x.0@, x.1 as nat),
            insert_by_count(cv.take(p as int), xv) + cv.skip(p as int) == insert_by_count(cv, xv),
        decreases p,
    {
        proof {
            assert(cv[p - 1] == (s@[p - 1].0@, s@[p - 1].1 as nat));
            lemma_insert_step(cv, xv, p as int);
        }
        p -= 1;
    }
    proof {
        if p == 0 {
            assert(cv.take(0) =~= Seq::<(Seq<char>, nat)>::empty());
        } else {
            assert(cv.take(p as int).last() == cv[p - 1]);
        }
    }
    s.insert(p, x);
    assert(count_views(s@) =~= cv.take(p as int).push(xv) + cv.skip(p as int));
    proof {
        if p == 0 {
            assert(insert_by_count(cv.take(0), xv) =~= seq![xv]);
            assert(cv.take(0).push(xv) =~= seq![xv]);
        }
    }
}

/// Stable sort by count, largest first.
fn sort_counts(v: &Vec<(Vec<char>, usize)>) -> (r: Vec<(Vec<char>, usize)>)
    ensures
        count_views(r@) == sort_by_count(count_views(v@)),
{
    let ghost cv = count_views(v@);
    let mut out: Vec<(Vec<char>, usize)> = Vec::new();
    let mut k: usize = 0;
    while k < v.len()
        invariant
            k <= v@.len(),
            cv == count_views(v@),
            count_views(out@) == sort_by_count(cv.take(k as int)),
        decreases v@.len() - k,
    {
        proof {
            assert(cv.take(k + 1).drop_last() =~= cv.take(k as int));
        }
        let x = (v[k].0.clone(), v[k].1);
        insert_count(&mut out, x);
        k += 1;
    }
    assert(cv.take(v@.len() as int) =~= cv);
    out
}

/// Findings per file, most first, at most `limit` files.
fn top_files(fs: &Vec<Finding>, limit: usize) -> (r: Vec<(Vec<char>, usize)>)
    ensures
        count_views(r@) == top_files_spec(views(fs@), limit as nat),
{
    let counts = file_counts_exec(fs);
    let mut sorted = sort_counts(&counts);
    let ghost sv = count_views(sorted@);
    sorted.truncate(limit);
    proof {
        if limit < sv.len() {
            assert(count_views(sorted@) =~= sv.take(limit as int));
        }
    }
    sorted
}


/// The title, the scanned path and the file counts.
pub open spec fn md_intro(r: ResultView, scan: Seq<char>) -> Seq<char> {
    "# CodeReviewer 报告\n\n扫描路径："@ + scan + "\n\n文件 "@ + decimal(r.files_scanned)
        + " 个（跳过 "@ + decimal(r.files_skipped) + " 个）"@
}

/// The total number of findings.
pub open spec fn md_total(r: ResultView) -> Seq<char> {
    " | 共 "@ + decimal(r.findings.len()) + " 条问题"@
}

/// The table of findings per severity.
pub open spec fn md_stats(r: ResultView) -> Seq<char> {
    "\n\n## 统计\n\n| 严重级 | 数量 |\n|---|---|\n| error | "@ + decimal(
        count_severity(r.findings, Severity::Error),
    ) + " |\n| warning | "@ + decimal(count_severity(r.findings, Severity::Warning))
        + " |\n| info | "@ + decimal(count_severity(r.findings, Severity::Info)) + " |\n\n"@
}

pub open spec fn md_header(r: ResultView, scan: Seq<char>) -> Seq<char> {
    md_intro(r, scan) + md_total(r) + md_stats(r)
}

pub open spec fn md_parse_lines(pes: Seq<(Seq<char>, Seq<char>)>) -> Seq<char>
    decreases pes.len(),
{
    if pes.len() == 0 {
        seq![]
    } else {
        md_parse_lines(pes.drop_last()) + "- "@ + pes.last().0 + "："@ + pes.last().1 + "\n"@
    }
}

pub open spec fn md_parse_section(pes: Seq<(Seq<char>, Seq<char>)>) -> Seq<char> {
    if pes.len() == 0 {
        seq![]
    } else {
        "## 解析失败（"@ + decimal(pes.len()) + " 个）\n\n"@ + md_parse_lines(pes) + "\n"@
    }
}

pub open spec fn md_top_lines(ts: Seq<(Seq<char>, nat)>) -> Seq<char>
    decreases ts.len(),
{
    if ts.len() == 0 {
        seq![]
    } else {
        md_top_lines(ts.drop_last()) + "- "@ + ts.last().0 + " — "@ + decimal(ts.last().1)
            + " 处\n"@
    }
}

pub open spec fn snippet_text(f: FindingView) -> Seq<char> {
    trim(
        match f.snippet {
            Some(s) => s,
            None => seq![],
        },
    )
}

pub open spec fn md_example_lines(fs: Seq<FindingView>) -> Seq<char>
    decreases fs.len(),
{
    if fs.len() == 0 {
        seq![]
    } else {
        md_example_lines(fs.drop_last()) + "- "@ + fs.last().file + ":"@ + decimal(
            fs.last().line as nat,
        ) + " — "@ + snippet_text(fs.last()) + "\n"@
    }
}

pub open spec fn first_three(g: Seq<FindingView>) -> Seq<FindingView> {
    if g.len() <= 3 {
        g
    } else {
        g.take(3)
    }
}

/// One rule's error findings: count, suggestion, busiest files, examples.
pub open spec fn md_error_group(g: Seq<FindingView>) -> Seq<char> {
    let sug = suggestion(g[0].rule_id);
    "### "@ + g[0].rule_id + " "@ + g[0].rule_name + " — "@ + decimal(g.len()) + " 处\n\n"@ + (
    if sug.len() > 0 {
        "**修复建议**："@ + sug + "\n\n"@
    } else {
        seq![]
    }) + "涉及最多的文件：\n\n"@ + md_top_lines(top_files_spec(g, 5)) + "\n示例：\n\n"@
        + md_example_lines(first_three(g)) + "\n"@
}

pub open spec fn md_error_groups(gs: Seq<Seq<FindingView>>) -> Seq<char>
    decreases gs.len(),
{
    if gs.len() == 0 {
        seq![]
    } else {
        md_error_groups(gs.drop_last()) + md_error_group(gs.last())
    }
}

pub open spec fn md_errors_section(fs: Seq<FindingView>) -> Seq<char> {
    let errs = severity_filter(fs, Severity::Error, true);
    "## 最严重问题（error 级）\n\n"@ + if errs.len() == 0 {
        "无 error 级问题。\n\n"@
    } else {
        md_error_groups(group_by(errs, false))
    }
}

pub open spec fn md_other_rows(gs: Seq<Seq<FindingView>>) -> Seq<char>
    decreases gs.len(),
{
    if gs.len() == 0 {
        seq![]
    } else {
        let g = gs.last();
        md_other_rows(gs.drop_last()) + "| "@ + g[0].rule_id + " "@ + g[0].rule_name + " | "@
            + severity_label(g[0].severity) + " | "@ + decimal(g.len()) + " |\n"@
    }
}

pub open spec fn md_others_section(fs: Seq<FindingView>) -> Seq<char> {
    "## 其他问题一览\n\n| 规则 | 严重级 | 数量 |\n|---|---|---|\n"@ + md_other_rows(
        group_by(severity_filter(fs, Severity::Error, false), true),
    )
}

/// The Markdown summary: statistics, parse failures, error findings grouped
/// by rule with a suggestion, the busiest files and examples, then a table of
/// the other findings by rule and severity.
pub open spec fn markdown_report(r: ResultView, scan: Seq<char>) -> Seq<char> {
    md_header(r, scan) + md_parse_section(r.parse_errors) + md_errors_section(r.findings)
        + md_others_section(r.findings)
}

fn md_header_exec(result: &AnalysisResult, scan: &str) -> (out: Vec<char>)
    ensures
        out@ == md_header(result@, scan@),
{
    let (e, w, i) = count_by_severity(&result.findings);
    let mut out: Vec<char> = Vec::new();
    push_str(&mut out, "# CodeReviewer 报告\n\n扫描路径：");
    push_str(&mut out, scan);
    push_str(&mut out, "\n\n文件 ");
    push_num(&mut out, result.files_scanned);
    push_str(&mut out, " 个（跳过 ");
    push_num(&mut out, result.files_skipped);
    push_str(&mut out, " 个）");
    let ghost intro = out@;
    assert(intro =~= md_intro(result@, scan@));
    push_str(&mut out, " | 共 ");
    push_num(&mut out, result.findings.len());
    push_str(&mut out, " 条问题");
    assert(out@ =~= intro + md_total(result@));
    let ghost head = out@;
    push_str(&mut out, "\n\n## 统计\n\n| 严重级 | 数量 |\n|---|---|\n| error | ");
    push_num(&mut out, e);
    push_str(&mut out, " |\n| warning | ");
    push_num(&mut out, w);
    push_str(&mut out, " |\n| info | ");
    push_num(&mut out, i);
    push_str(&mut out, " |\n\n");
    assert(out@ =~= head + md_stats(result@));
    assert(out@ =~= md_header(result@, scan@));
    out
}

fn md_parse_exec(pes: &Vec<(String, ParseError)>) -> (out: Vec<char>)
    ensures
        out@ == md_parse_section(error_views(pes@)),
{
    let mut out: Vec<char> = Vec::new();
    if pes.len() == 0 {
        assert(out@ =~= md_parse_section(error_views(pes@)));
        return out;
    }
    push_str(&mut out, "## 解析失败（");
    push_num(&mut out, pes.len());
    push_str(&mut out, " 个）\n\n");
    let ghost head = out@;
    let ghost ev = error_views(pes@);
    let mut j: usize = 0;
    while j < pes.len()
        invariant
            j <= pes@.len(),
            ev == error_views(pes@),
            out@ == head + md_parse_lines(ev.take(j as int)),
        decreases pes@.len() - j,
    {
        let ghost o = out@;
        proof {
            assert(ev.take(j + 1).drop_last() =~= ev.take(j as int));
        }
        let err = pes[j].1.message();
        push_str(&mut out, "- ");
        push_str(&mut out, pes[j].0.as_str());
        push_str(&mut out, "：");
        push_str(&mut out, err.as_str());
        push_str(&mut out, "\n");
        assert(out@ =~= o + "- "@ + ev[j as int].0 + "："@ + ev[j as int].1 + "\n"@);
        j += 1;
    }
    assert(ev.take(pes@.len() as int) =~= ev);
    push_str(&mut out, "\n");
    assert(out@ =~= md_parse_section(ev));
    out
}

fn md_top_exec(ts: &Vec<(Vec<char>, usize)>) -> (out: Vec<char>)
    ensures
        out@ == md_top_lines(count_views(ts@)),
{
    let ghost tv = count_views(ts@);
    let mut out: Vec<char> = Vec::new();
    let mut j: usize = 0;
    while j < ts.len()
        invariant
            j <= ts@.len(),
            tv == count_views(ts@),
            out@ == md_top_lines(tv.take(j as int)),
        decreases ts@.len() - j,
    {
        let ghost o = out@;
        proof {
            assert(tv.take(j + 1).drop_last() =~= tv.take(j as int));
        }
        push_str(&mut out, "- ");
        push_chars(&mut out, &ts[j].0);
        push_str(&mut out, " — ");
        push_num(&mut out, ts[j].1);
        push_str(&mut out, " 处\n");
        assert(out@ =~= o + "- "@ + tv[j as int].0 + " — "@ + decimal(tv[j as int].1) + " 处\n"@);
        j += 1;
    }
    assert(tv.take(ts@.len() as int) =~= tv);
    out
}

fn md_examples_exec(g: &Vec<Finding>) -> (out: Vec<char>)
    ensures
        out@ == md_example_lines(first_three(views(g@))),
{
    let ghost gv = views(g@);
    let n: usize = if g.len() <= 3 { g.len() } else { 3 };
    assert(first_three(gv) =~= gv.take(n as int));
    let mut out: Vec<char> = Vec::new();
    let mut j: usize = 0;
    while j < n
        invariant
            j <= n <= g@.len(),
            gv == views(g@),
            out@ == md_example_lines(gv.take(j as int)),
        decreases n - j,
    {
        let ghost o = out@;
        proof {
            assert(gv.take(j + 1).drop_last() =~= gv.take(j as int));
        }
        let f = &g[j];
        push_str(&mut out, "- ");
        push_str(&mut out, f.location.file.as_str());
        push_str(&mut out, ":");
        push_num(&mut out, f.location.line);
        push_str(&mut out, " — ");
        let sn: Vec<char> = match &f.snippet {
            Some(s) => chars_of(s.as_str()),
            None => Vec::new(),
        };
        let st = trim_exec(&sn);
        push_chars(&mut out, &st);
        push_str(&mut out, "\n");
        assert(st@ == snippet_text(f@));
        assert(out@ =~= o + "- "@ + f@.file + ":"@ + decimal(f@.line as nat) + " — "@
            + snippet_text(f@) + "\n"@);
        j += 1;
    }
    assert(gv.take(n as int) =~= first_three(gv));
    out
}

fn md_group_exec(g: &Vec<Finding>) -> (out: Vec<char>)
    requires
        g@.len() > 0,
    ensures
        out@ == md_error_group(views(g@)),
{
    let ghost gv = views(g@);
    let mut out: Vec<char> = Vec::new();
    push_str(&mut out, "### ");
    push_str(&mut out, g[0].rule_id);
    push_str(&mut out, " ");
    push_str(&mut out, g[0].rule_name);
    push_str(&mut out, " — ");
    push_num(&mut out, g.len());
    push_str(&mut out, " 处\n\n");
    let sug = suggestion_for(g[0].rule_id);
    let sc = chars_of(sug);
    if sc.len() > 0 {
        push_str(&mut out, "**修复建议**：");
        push_str(&mut out, sug);
        push_str(&mut out, "\n\n");
    }
    let ghost a = out@;
    push_str(&mut out, "涉及最多的文件：\n\n");
    let tops = top_files(g, 5);
    let tl = md_top_exec(&tops);
    push_chars(&mut out, &tl);
    push_str(&mut out, "\n示例：\n\n");
    let ex = md_examples_exec(g);
    push_chars(&mut out, &ex);
    push_str(&mut out, "\n");
    assert(out@ =~= md_error_group(gv));
    out
}

fn md_errors_exec(fs: &Vec<Finding>) -> (out: Vec<char>)
    ensures
        out@ == md_errors_section(views(fs@)),
{
    let mut out: Vec<char> = Vec::new();
    push_str(&mut out, "## 最严重问题（error 级）\n\n");
    let errs = filter_severity(fs, Severity::Error, true);
    if errs.len() == 0 {
        push_str(&mut out, "无 error 级问题。\n\n");
        assert(out@ =~= md_errors_section(views(fs@)));
        return out;
    }
    let gs = group_findings(&errs, false);
    let ghost gv = group_views(gs@);
    let ghost head = out@;
    let mut k: usize = 0;
    while k < gs.len()
        invariant
            k <= gs@.len(),
            gv == group_views(gs@),
            forall|m: int| 0 <= m < gs@.len() ==> (#[trigger] gs@[m]).len() > 0,
            out@ == head + md_error_groups(gv.take(k as int)),
        decreases gs@.len() - k,
    {
        let ghost o = out@;
        proof {
            assert(gv.take(k + 1).drop_last() =~= gv.take(k as int));
            assert(gv[k as int] == views(gs@[k as int]@));
        }
        let part = md_group_exec(&gs[k]);
        push_chars(&mut out, &part);
        assert(out@ =~= head + md_error_groups(gv.take(k + 1)));
        k += 1;
    }
    assert(gv.take(gs@.len() as int) =~= gv);
    assert(out@ =~= md_errors_section(views(fs@)));
    out
}

fn md_others_exec(fs: &Vec<Finding>) -> (out: Vec<char>)
    ensures
        out@ == md_others_section(views(fs@)),
{
    let mut out: Vec<char> = Vec::new();
    push_str(&mut out, "## 其他问题一览\n\n| 规则 | 严重级 | 数量 |\n|---|---|---|\n");
    let others = filter_severity(fs, Severity::Error, false);
    let gs = group_findings(&others, true);
    let ghost gv = group_views(gs@);
    let ghost head = out@;
    let mut k: usize = 0;
    while k < gs.len()
        invariant
            k <= gs@.len(),
            gv == group_views(gs@),
            forall|m: int| 0 <= m < gs@.len() ==> (#[trigger] gs@[m]).len() > 0,
            out@ == head + md_other_rows(gv.take(k as int)),
        decreases gs@.len() - k,
    {
        let ghost o = out@;
        proof {
            assert(gv.take(k + 1).drop_last() =~= gv.take(k as int));
            assert(gv[k as int] == views(gs@[k as int]@));
        }
        let g = &gs[k];
        push_str(&mut out, "| ");
        push_str(&mut out, g[0].rule_id);
        push_str(&mut out, " ");
        push_str(&mut out, g[0].rule_name);
        push_str(&mut out, " | ");
        push_str(&mut out, g[0].severity.label());
        push_str(&mut out, " | ");
        push_num(&mut out, g.len());
        push_str(&mut out, " |\n");
        assert(out@ =~= head + md_other_rows(gv.take(k + 1)));
        k += 1;
    }
    assert(gv.take(gs@.len() as int) =~= gv);
    out
}

impl Report {
    /// The Markdown summary of the analysis of `scan_path`.
    pub fn render_markdown(&self, scan_path: &str) -> (r: String)
        ensures
            r@ == markdown_report(self.result@, scan_path@),
    {
        let mut out = md_header_exec(&self.result, scan_path);
        let p = md_parse_exec(&self.result.parse_errors);
        push_chars(&mut out, &p);
        let e = md_errors_exec(&self.result.findings);
        push_chars(&mut out, &e);
        let o = md_others_exec(&self.result.findings);
        push_chars(&mut out, &o);
        string_of(&out)
    }
}

} // verus!

verus! {

/// How many of the findings a report shows under the file name `name`.
pub open spec fn name_count(fs: Seq<FindingView>, name: Seq<char>) -> nat
    decreases fs.len(),
{
    if fs.len() == 0 {
        0
    } else {
        name_count(fs.drop_last(), name) + if shown_name(fs.last().file) == name {
            1nat
        } else {
            0nat
        }
    }
}

/// No file name occurs twice.
pub open spec fn names_distinct(s: Seq<(Seq<char>, nat)>) -> bool {
    forall|i: int, j: int| 0 <= i < j < s.len() ==> (#[trigger] s[i]).0 != (#[trigger] s[j]).0
}

/// The per-file counts hold one entry for each file name that has findings,
/// counting exactly that name's findings.
#[verifier::spinoff_prover]
pub proof fn lemma_file_counts(fs: Seq<FindingView>)
    ensures
        names_distinct(file_counts(fs)),
        forall|k: int|
            0 <= k < file_counts(fs).len() ==> (#[trigger] file_counts(fs)[k]).1 == name_count(
                fs,
                file_counts(fs)[k].0,
            ),
        forall|name: Seq<char>|
            #![trigger name_count(fs, name)]
            name_count(fs, name) > 0 <==> exists|k: int|
                0 <= k < file_counts(fs).len() && (#[trigger] file_counts(fs)[k]).0 == name,
    decreases fs.len(),
{
    if fs.len() > 0 {
        let d = fs.drop_last();
        lemma_file_counts(d);
        let cs = file_counts(d);
        let n0 = shown_name(fs.last().file);
        lemma_name_index(cs, n0, 0);
        let r = file_counts(fs);
        match name_index(cs, n0, 0) {
            Some(k) => {
                assert(r == cs.update(k, (n0, cs[k].1 + 1)));
                assert forall|m: int| 0 <= m < r.len() implies (#[trigger] r[m]).1 == name_count(fs, r[m].0) by {
                    if m != k {
                        assert(r[m] == cs[m]);
                        assert(cs[m].0 != n0) by {
                            if m < k {
                                assert(cs[m].0 != cs[k].0);
                            } else {
                                assert(cs[k].0 != cs[m].0);
                            }
                        }
                    }
                }
                assert forall|name: Seq<char>| #![trigger name_count(fs, name)] name_count(fs, name) > 0
                    <==> exists|m: int| 0 <= m < r.len() && (#[trigger] r[m]).0 == name by {
                    assert(name_count(fs, name) == name_count(d, name) + if n0 == name { 1nat } else { 0nat });
                    if name_count(fs, name) > 0 {
                        if n0 == name {
                            assert(r[k].0 == name);
                        } else {
                            assert(name_count(d, name) > 0);
                            let m = choose|m: int| 0 <= m < cs.len() && (#[trigger] cs[m]).0 == name;
                            assert(r[m].0 == name);
                        }
                    }
                    if exists|m: int| 0 <= m < r.len() && (#[trigger] r[m]).0 == name {
                        let m = choose|m: int| 0 <= m < r.len() && (#[trigger] r[m]).0 == name;
                        if m != k {
                            assert(cs[m].0 == name);
                        }
                    }
                }
            },
            None => {
                assert(r == cs.push((n0, 1nat)));
                assert(name_count(d, n0) == 0) by {
                    if name_count(d, n0) > 0 {
                        let m = choose|m: int| 0 <= m < cs.len() && (#[trigger] cs[m]).0 == n0;
                    }
                }
                assert forall|m: int| 0 <= m < r.len() implies (#[trigger] r[m]).1 == name_count(fs, r[m].0) by {
                    if m < cs.len() {
                        assert(r[m] == cs[m]);
                        assert(cs[m].0 != n0);
                    }
                }
                assert forall|name: Seq<char>| #![trigger name_count(fs, name)] name_count(fs, name) > 0
                    <==> exists|m: int| 0 <= m < r.len() && (#[trigger] r[m]).0 == name by {
                    if name_count(fs, name) > 0 {
                        if n0 == name {
                            assert(r[cs.len() as int].0 == name);
                        } else {
                            assert(name_count(d, name) > 0);
                            let m = choose|m: int| 0 <= m < cs.len() && (#[trigger] cs[m]).0 == name;
                            assert(r[m].0 == name);
                        }
                    }
                    if exists|m: int| 0 <= m < r.len() && (#[trigger] r[m]).0 == name {
                        let m = choose|m: int| 0 <= m < r.len() && (#[trigger] r[m]).0 == name;
                        if m < cs.len() {
                            assert(cs[m].0 == name);
                        }
                    }
                }
                assert forall|i: int, j: int| 0 <= i < j < r.len() implies (#[trigger] r[i]).0 != (
                #[trigger] r[j]).0 by {
                    if j < cs.len() {
                        assert(r[i] == cs[i] && r[j] == cs[j]);
                    } else {
                        assert(r[i] == cs[i]);
                    }
                }
            },
        }
    }
}


proof fn lemma_insert_shape(s: Seq<(Seq<char>, nat)>, x: (Seq<char>, nat))
    ensures
        exists|p: int| 0 <= p <= s.len() && insert_by_count(s, x) == s.take(p).push(x) + s.skip(p),
    decreases s.len(),
{
    if s.len() == 0 {
        assert(insert_by_count(s, x) =~= s.take(0).push(x) + s.skip(0));
    } else if s.last().1 >= x.1 {
        let p = s.len() as int;
        assert(insert_by_count(s, x) =~= s.take(p).push(x) + s.skip(p));
    } else {
        let d = s.drop_last();
        lemma_insert_shape(d, x);
        let p = choose|p: int| 0 <= p <= d.len() && insert_by_count(d, x) == d.take(p).push(x) + d.skip(p);
        assert(insert_by_count(s, x) =~= s.take(p).push(x) + s.skip(p));
    }
}

/// The entries of `t` with `x` placed at `p`.
pub open spec fn placed(t: Seq<(Seq<char>, nat)>, x: (Seq<char>, nat), p: int, i: int) -> (Seq<char>, nat) {
    if i < p {
        t[i]
    } else if i == p {
        x
    } else {
        t[i - 1]
    }
}

proof fn lemma_placed(t: Seq<(Seq<char>, nat)>, x: (Seq<char>, nat), p: int)
    requires
        0 <= p <= t.len(),
    ensures
        (t.take(p).push(x) + t.skip(p)).len() == t.len() + 1,
        forall|i: int|
            0 <= i <= t.len() ==> #[trigger] (t.take(p).push(x) + t.skip(p))[i] == placed(t, x, p, i),
{
    let r = t.take(p).push(x) + t.skip(p);
    assert forall|i: int| 0 <= i <= t.len() implies #[trigger] r[i] == placed(t, x, p, i) by {
        if i < p {
            assert(r[i] == t.take(p)[i]);
        } else if i == p {
            assert(r[i] == t.take(p).push(x)[i]);
        } else {
            assert(r[i] == t.skip(p)[i - p - 1]);
        }
    }
}

proof fn lemma_placed_distinct(t: Seq<(Seq<char>, nat)>, x: (Seq<char>, nat), p: int, r: Seq<(Seq<char>, nat)>)
    requires
        0 <= p <= t.len(),
        r.len() == t.len() + 1,
        forall|i: int| 0 <= i <= t.len() ==> #[trigger] r[i] == placed(t, x, p, i),
        names_distinct(t),
        forall|k: int| 0 <= k < t.len() ==> (#[trigger] t[k]).0 != x.0,
    ensures
        names_distinct(r),
{
    assert forall|i: int, j: int| 0 <= i < j < r.len() implies (#[trigger] r[i]).0 != (#[trigger] r[j]).0 by {
        assert(r[i] == placed(t, x, p, i));
        assert(r[j] == placed(t, x, p, j));
        if i != p && j != p {
            let i2 = if i < p { i } else { i - 1 };
            let j2 = if j < p { j } else { j - 1 };
            assert(t[i2].0 != t[j2].0);
        } else if i == p {
            assert(t[j - 1].0 != x.0);
        } else {
            assert(t[i].0 != x.0);
        }
    }
}

/// Every entry of `t` is an entry of `s`.
#[verifier::opaque]
pub open spec fn entries_within(t: Seq<(Seq<char>, nat)>, s: Seq<(Seq<char>, nat)>) -> bool {
    forall|k: int| 0 <= k < t.len() ==> exists|m: int| 0 <= m < s.len() && #[trigger] t[k] == s[m]
}

/// Every entry of `s` is an entry of `t`.
#[verifier::opaque]
pub open spec fn entries_cover(t: Seq<(Seq<char>, nat)>, s: Seq<(Seq<char>, nat)>) -> bool {
    forall|m: int| 0 <= m < s.len() ==> exists|k: int| 0 <= k < t.len() && t[k] == #[trigger] s[m]
}

/// What inserting the last entry into the rearranged rest keeps.
proof fn lemma_insert_keeps_entries(
    s: Seq<(Seq<char>, nat)>,
    t: Seq<(Seq<char>, nat)>,
    p: int,
    r: Seq<(Seq<char>, nat)>,
)
    requires
        s.len() > 0,
        t.len() == s.len() - 1,
        0 <= p <= t.len(),
        r.len() == s.len(),
        forall|i: int| 0 <= i <= t.len() ==> #[trigger] r[i] == placed(t, s.last(), p, i),
        entries_within(t, s.drop_last()),
        entries_cover(t, s.drop_last()),
    ensures
        entries_within(r, s),
        entries_cover(r, s),
{
    reveal(entries_within);
    reveal(entries_cover);
    let x = s.last();
    let d = s.drop_last();
    assert forall|k: int| 0 <= k < r.len() implies exists|m: int| 0 <= m < s.len() && #[trigger] r[k] == s[m] by {
        assert(r[k] == placed(t, x, p, k));
        if k == p {
            assert(r[k] == s[s.len() - 1]);
        } else {
            let k2 = if k < p { k } else { k - 1 };
            let m = choose|m: int| 0 <= m < d.len() && #[trigger] t[k2] == d[m];
            assert(d[m] == s[m]);
            assert(r[k] == s[m]);
        }
    }
    assert forall|m: int| 0 <= m < s.len() implies exists|k: int| 0 <= k < r.len() && r[k] == #[trigger] s[m] by {
        if m == s.len() - 1 {
            assert(r[p] == placed(t, x, p, p));
        } else {
            assert(d[m] == s[m]);
            let k2 = choose|k: int| 0 <= k < t.len() && t[k] == #[trigger] d[m];
            if k2 < p {
                assert(r[k2] == placed(t, x, p, k2));
            } else {
                assert(r[k2 + 1] == placed(t, x, p, k2 + 1));
            }
        }
    }
}

/// Sorting by count rearranges the entries: the same entries, each as often,
/// and file names stay distinct.
#[verifier::spinoff_prover]
pub proof fn lemma_sort_by_count_permutes(s: Seq<(Seq<char>, nat)>)
    ensures
        sort_by_count(s).len() == s.len(),
        entries_within(sort_by_count(s), s),
        entries_cover(sort_by_count(s), s),
        names_distinct(s) ==> names_distinct(sort_by_count(s)),
    decreases s.len(),
{
    if s.len() == 0 {
        reveal(entries_within);
        reveal(entries_cover);
    } else {
        let d = s.drop_last();
        let x = s.last();
        lemma_sort_by_count_permutes(d);
        let t = sort_by_count(d);
        lemma_insert_shape(t, x);
        let p = choose|p: int| 0 <= p <= t.len() && insert_by_count(t, x) == t.take(p).push(x) + t.skip(p);
        let r = sort_by_count(s);
        assert(r == t.take(p).push(x) + t.skip(p));
        lemma_placed(t, x, p);
        lemma_insert_keeps_entries(s, t, p, r);
        if names_distinct(s) {
            assert(names_distinct(d)) by {
                assert forall|i: int, j: int| 0 <= i < j < d.len() implies (#[trigger] d[i]).0 != (#[trigger] d[j]).0 by {
                    assert(d[i] == s[i] && d[j] == s[j]);
                }
            }
            assert forall|k: int| 0 <= k < t.len() implies (#[trigger] t[k]).0 != x.0 by {
                reveal(entries_within);
                let m = choose|m: int| 0 <= m < d.len() && #[trigger] t[k] == d[m];
                assert(d[m] == s[m]);
                assert(s[m].0 != s[s.len() - 1].0);
            }
            lemma_placed_distinct(t, x, p, r);
        }
    }
}

/// The files a report lists first: at most `limit` of them, as many as that
/// allows, each file name once with the number of its findings, the counts
/// largest first, and no file left out that has more findings than one
/// listed.
#[verifier::spinoff_prover]
pub proof fn lemma_top_files(fs: Seq<FindingView>, limit: nat)
    ensures
        top_files_spec(fs, limit).len() == if file_counts(fs).len() <= limit {
            file_counts(fs).len()
        } else {
            limit
        },
        names_distinct(top_files_spec(fs, limit)),
        by_count_desc(top_files_spec(fs, limit)),
        forall|k: int|
            0 <= k < top_files_spec(fs, limit).len() ==> (#[trigger] top_files_spec(fs, limit)[k]).1 == name_count(
                fs,
                top_files_spec(fs, limit)[k].0,
            ) && top_files_spec(fs, limit)[k].1 > 0,
        forall|name: Seq<char>, k: int|
            #![trigger name_count(fs, name), top_files_spec(fs, limit)[k]]
            0 <= k < top_files_spec(fs, limit).len() && name_count(fs, name) > top_files_spec(fs, limit)[k].1
                ==> exists|j: int| 0 <= j < top_files_spec(fs, limit).len() && (#[trigger] top_files_spec(fs, limit)[j]).0 == name,
{
    let cs = file_counts(fs);
    let s = sort_by_count(cs);
    let r = top_files_spec(fs, limit);
    lemma_file_counts(fs);
    lemma_sort_by_count_permutes(cs);
    lemma_sort_by_count_desc(cs);
    assert forall|k: int| 0 <= k < s.len() implies (#[trigger] s[k]).1 == name_count(fs, s[k].0) && s[k].1 > 0 by {
        reveal(entries_within);
        let m = choose|m: int| 0 <= m < cs.len() && #[trigger] s[k] == cs[m];
        assert(cs[m].1 == name_count(fs, cs[m].0));
        assert(name_count(fs, cs[m].0) > 0);
    }
    assert forall|k: int| 0 <= k < r.len() implies #[trigger] r[k] == s[k] by {}
    assert(names_distinct(r)) by {
        assert forall|i: int, j: int| 0 <= i < j < r.len() implies (#[trigger] r[i]).0 != (#[trigger] r[j]).0 by {
            assert(r[i] == s[i] && r[j] == s[j]);
        }
    }
    assert(by_count_desc(r)) by {
        assert forall|i: int, j: int| 0 <= i < j < r.len() implies (#[trigger] r[i]).1 >= (#[trigger] r[j]).1 by {
            assert(r[i] == s[i] && r[j] == s[j]);
        }
    }
    assert forall|name: Seq<char>, k: int|
        #![trigger name_count(fs, name), r[k]]
        0 <= k < r.len() && name_count(fs, name) > r[k].1 implies exists|j: int| 0 <= j < r.len() && (#[trigger] r[j]).0 == name by {
        assert(name_count(fs, name) > 0);
        let m = choose|m: int| 0 <= m < cs.len() && (#[trigger] cs[m]).0 == name;
        assert(exists|j: int| 0 <= j < s.len() && s[j] == #[trigger] cs[m]) by {
            reveal(entries_cover);
        }
        let j = choose|j: int| 0 <= j < s.len() && s[j] == #[trigger] cs[m];
        if j >= r.len() {
            assert(s[k].1 >= s[j].1);
            assert(s[j].1 == name_count(fs, name));
        } else {
            assert(r[j].0 == name);
        }
    }
}



/// The Markdown report opens with its title, the scanned path, the numbers
/// of scanned and skipped files, the total number of findings (the count of
/// all of them, whatever their severity, which is the sum of the error,
/// warning and info rows) and the table of findings per severity.
pub proof fn lemma_markdown_total(r: ResultView, scan: Seq<char>)
    ensures
        ({
            let h = "# CodeReviewer 报告\n\n扫描路径："@ + scan + "\n\n文件 "@ + decimal(r.files_scanned)
                + " 个（跳过 "@ + decimal(r.files_skipped) + " 个）"@ + " | 共 "@ + decimal(r.findings.len())
                + " 条问题"@ + "\n\n## 统计\n\n| 严重级 | 数量 |\n|---|---|\n| error | "@ + decimal(
                count_severity(r.findings, Severity::Error),
            ) + " |\n| warning | "@ + decimal(count_severity(r.findings, Severity::Warning))
                + " |\n| info | "@ + decimal(count_severity(r.findings, Severity::Info)) + " |\n\n"@;
            markdown_report(r, scan).take(h.len() as int) == h
        }),
        r.findings.len() == count_severity(r.findings, Severity::Error) + count_severity(
            r.findings,
            Severity::Warning,
        ) + count_severity(r.findings, Severity::Info),
{
    lemma_counts_partition(r.findings);
    let h0 = "# CodeReviewer 报告\n\n扫描路径："@ + scan + "\n\n文件 "@ + decimal(r.files_scanned)
        + " 个（跳过 "@ + decimal(r.files_skipped) + " 个）"@ + " | 共 "@ + decimal(r.findings.len())
        + " 条问题"@;
    let h = h0 + "\n\n## 统计\n\n| 严重级 | 数量 |\n|---|---|\n| error | "@ + decimal(
        count_severity(r.findings, Severity::Error),
    ) + " |\n| warning | "@ + decimal(count_severity(r.findings, Severity::Warning))
        + " |\n| info | "@ + decimal(count_severity(r.findings, Severity::Info)) + " |\n\n"@;
    let rest = md_parse_section(r.parse_errors) + md_errors_section(r.findings) + md_others_section(
        r.findings,
    );
    assert(h0 =~= md_intro(r, scan) + md_total(r));
    assert(h =~= h0 + md_stats(r));
    assert(markdown_report(r, scan) =~= h + rest);
    assert((h + rest).take(h.len() as int) =~= h);
}

} // verus!
