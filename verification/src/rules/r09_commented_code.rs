//! R09: blocks of commented-out code.
//!
//! Consecutive comment lines whose content looks like code (at least two of
//! `; { } = ( ) < >`), not counting explanatory notes.

use vstd::prelude::*;
use crate::config::threshold_value;
use crate::finding::{views, Finding, FindingView, Severity};
use crate::parser::Language;
use crate::rule::{tagged, AnalysisContext, Rule, RuleError};
use crate::source::lines;
use crate::text::{
    chars_of, push_chars, push_str, starts_with, starts_with_str, strip_prefix_or_keep, trim,
    trim_exec, trim_start, trim_start_exec,
};
use crate::pieces::strip_prefix_or_keep_str;
use crate::unicode::{decimal, decimal_exec};

verus! {

pub struct CommentedCode;

pub open spec fn comment_prefix(l: Language) -> Seq<char> {
    match l {
        Language::Python => "#"@,
        _ => "//"@,
    }
}

/// Number of characters of `s` that belong to `set`.
pub open spec fn count_in(s: Seq<char>, set: Seq<char>) -> nat
    decreases s.len(),
{
    if s.len() == 0 {
        0
    } else {
        count_in(s.drop_last(), set) + if set.contains(s.last()) {
            1nat
        } else {
            0nat
        }
    }
}

pub open spec fn starts_with_doc_marker(c: Seq<char>) -> bool {
    starts_with(c, "注意"@) || starts_with(c, "说明"@) || starts_with(c, "警告"@) || starts_with(
        c,
        "备注"@,
    ) || starts_with(c, "TODO"@) || starts_with(c, "FIXME"@) || starts_with(c, "HACK"@)
        || starts_with(c, "XXX"@) || starts_with(c, "NOTE"@) || starts_with(c, "Note"@)
}

pub open spec fn code_signals() -> Seq<char> {
    seq![';', '{', '}', '=', '(', ')', '<', '>']
}

/// Comment content that reads as code rather than as a note.
pub open spec fn looks_like_code(c: Seq<char>) -> bool {
    c.len() > 0 && !starts_with_doc_marker(c) && count_in(c, code_signals()) >= 2
}

/// The run of code-like comment lines starting at line `j`: how many there
/// are, and where scanning resumes (past a comment line that is not code, at
/// the first line that is not a comment).
pub open spec fn code_run(ls: Seq<Seq<char>>, prefix: Seq<char>, j: int) -> (nat, int)
    decreases ls.len() - j,
{
    if j < 0 || j >= ls.len() {
        (0, j)
    } else {
        let t = trim_start(ls[j]);
        if starts_with(t, prefix) {
            if looks_like_code(trim(strip_prefix_or_keep(t, prefix))) {
                let (c, n) = code_run(ls, prefix, j + 1);
                (c + 1, n)
            } else {
                (0, j + 1)
            }
        } else {
            (0, j)
        }
    }
}

pub open spec fn r09_message(count: nat, min: nat) -> Seq<char> {
    "注释掉的代码块："@ + decimal(count) + " 行（下限 "@ + decimal(min)
        + "） | commented-out code block: "@ + decimal(count) + " lines (min "@ + decimal(min)
        + ")"@
}

/// The blocks reported from line `i` on.
pub open spec fn r09_scan(
    ls: Seq<Seq<char>>,
    prefix: Seq<char>,
    min: nat,
    file: Seq<char>,
    i: int,
) -> Seq<FindingView>
    decreases ls.len() - i,
{
    if i < 0 || i >= ls.len() {
        seq![]
    } else if starts_with(trim_start(ls[i]), prefix) {
        let (c, n) = code_run(ls, prefix, i);
        (if c >= min {
            seq![
                FindingView {
                    rule_id: "R09"@,
                    rule_name: "commented-out-code"@,
                    severity: Severity::Warning,
                    file,
                    line: i + 1,
                    column: 1,
                    message: r09_message(c, min),
                    snippet: None,
                },
            ]
        } else {
            seq![]
        }) + if i < n <= ls.len() {
            r09_scan(ls, prefix, min, file, n)
        } else {
            seq![]
        }
    } else {
        r09_scan(ls, prefix, min, file, i + 1)
    }
}

pub open spec fn r09_min(ctx: AnalysisContext) -> nat {
    threshold_value(ctx.rule_config.thresholds@, "min_block_lines"@, 3) as usize as nat
}

pub fn count_code_signals(c: &Vec<char>) -> (r: usize)
    ensures
        r == count_in(c@, code_signals()),
{
    let set: Vec<char> = vec![';', '{', '}', '=', '(', ')', '<', '>'];
    assert(set@ =~= code_signals());
    let mut n: usize = 0;
    let mut i: usize = 0;
    while i < c.len()
        invariant
            i <= c.len(),
            set@ == code_signals(),
            n == count_in(c@.take(i as int), code_signals()),
            n <= i,
        decreases c.len() - i,
    {
        assert(c@.take(i + 1).drop_last() =~= c@.take(i as int));
        let ch = c[i];
        let hit = ch == ';' || ch == '{' || ch == '}' || ch == '=' || ch == '(' || ch == ')' || ch
            == '<' || ch == '>';
        proof {
            if hit {
                assert(set@.contains(ch));
            } else {
                assert(!set@.contains(ch));
            }
        }
        if hit {
            n += 1;
        }
        i += 1;
    }
    assert(c@.take(c@.len() as int) =~= c@);
    n
}

pub fn looks_like_code_exec(c: &Vec<char>) -> (r: bool)
    ensures
        r == looks_like_code(c@),
{
    if c.len() == 0 {
        return false;
    }
    if starts_with_str(c, "注意") || starts_with_str(c, "说明") || starts_with_str(c, "警告")
        || starts_with_str(c, "备注") || starts_with_str(c, "TODO") || starts_with_str(c, "FIXME")
        || starts_with_str(c, "HACK") || starts_with_str(c, "XXX") || starts_with_str(c, "NOTE")
        || starts_with_str(c, "Note") {
        return false;
    }
    count_code_signals(c) >= 2
}

fn code_run_exec(ls: &Vec<Vec<char>>, prefix: &str, j0: usize) -> (r: (usize, usize))
    requires
        j0 <= ls@.len(),
    ensures
        r.0 as nat == code_run(ls@.map_values(|l: Vec<char>| l@), prefix@, j0 as int).0,
        r.1 as int == code_run(ls@.map_values(|l: Vec<char>| l@), prefix@, j0 as int).1,
{
    let ghost lv = ls@.map_values(|l: Vec<char>| l@);
    let mut count: usize = 0;
    let mut j: usize = j0;
    loop
        invariant
            j0 <= j <= ls@.len(),
            lv == ls@.map_values(|l: Vec<char>| l@),
            count == j - j0,
            code_run(lv, prefix@, j0 as int).0 == count + code_run(lv, prefix@, j as int).0,
            code_run(lv, prefix@, j0 as int).1 == code_run(lv, prefix@, j as int).1,
        decreases ls@.len() - j,
    {
        if j >= ls.len() {
            return (count, j);
        }
        assert(lv[j as int] == ls@[j as int]@);
        let t = trim_start_exec(&ls[j]);
        if starts_with_str(&t, prefix) {
            let stripped = strip_prefix_or_keep_str(&t, prefix);
            let content = trim_exec(&stripped);
            if looks_like_code_exec(&content) {
                count += 1;
                j += 1;
            } else {
                return (count, j + 1);
            }
        } else {
            return (count, j);
        }
    }
}

fn r09_message_exec(count: usize, min: usize) -> (r: Vec<char>)
    ensures
        r@ == r09_message(count as nat, min as nat),
{
    let c = decimal_exec(count);
    let m = decimal_exec(min);
    let mut r = chars_of("注释掉的代码块：");
    push_chars(&mut r, &c);
    push_str(&mut r, " 行（下限 ");
    push_chars(&mut r, &m);
    push_str(&mut r, "） | commented-out code block: ");
    push_chars(&mut r, &c);
    push_str(&mut r, " lines (min ");
    push_chars(&mut r, &m);
    push_str(&mut r, ")");
    r
}

proof fn lemma_r09_scan_tagged(ls: Seq<Seq<char>>, prefix: Seq<char>, min: nat, file: Seq<char>, i: int)
    ensures
        tagged(r09_scan(ls, prefix, min, file, i), "R09"@, "commented-out-code"@),
    decreases ls.len() - i,
{
    if 0 <= i < ls.len() {
        if starts_with(trim_start(ls[i]), prefix) {
            let (c, n) = code_run(ls, prefix, i);
            if i < n <= ls.len() {
                lemma_r09_scan_tagged(ls, prefix, min, file, n);
            }
            let s = r09_scan(ls, prefix, min, file, i);
            assert forall|j: int| 0 <= j < s.len() implies (#[trigger] s[j]).rule_id == "R09"@
                && s[j].rule_name == "commented-out-code"@ by {
                if c >= min && j == 0 {
                } else if c >= min {
                    assert(s[j] == r09_scan(ls, prefix, min, file, n)[j - 1]);
                } else {
                    assert(s[j] == r09_scan(ls, prefix, min, file, n)[j]);
                }
            }
        } else {
            lemma_r09_scan_tagged(ls, prefix, min, file, i + 1);
        }
    }
}

impl CommentedCode {
    /// Every finding the rule reports carries its id and name.
    pub proof fn lemma_findings_tagged(&self, ctx: AnalysisContext)
        ensures
            tagged(self.spec_findings(ctx), self.spec_id(), self.spec_name()),
    {
        lemma_r09_scan_tagged(lines(ctx.source.chars@), comment_prefix(ctx.language), r09_min(ctx), ctx.file_path@, 0);
    }
}

impl Rule for CommentedCode {
    open spec fn spec_id(&self) -> Seq<char> {
        "R09"@
    }

    open spec fn spec_name(&self) -> Seq<char> {
        "commented-out-code"@
    }

    open spec fn spec_severity(&self) -> Severity {
        Severity::Warning
    }

    open spec fn spec_total(&self) -> bool {
        true
    }

    open spec fn spec_languages(&self) -> Seq<Language> {
        seq![
            Language::Rust,
            Language::Python,
            Language::TypeScript,
            Language::TypeScriptTsx,
            Language::CSharp,
            Language::Java,
        ]
    }

    /// The blocks of at least `min_block_lines` (default 3) code-like comment
    /// lines, each reported at its first line.
    open spec fn spec_findings(&self, ctx: AnalysisContext) -> Seq<FindingView> {
        r09_scan(
            lines(ctx.source.chars@),
            comment_prefix(ctx.language),
            r09_min(ctx),
            ctx.file_path@,
            0,
        )
    }

    fn id(&self) -> (r: &'static str) {
        "R09"
    }

    fn name(&self) -> (r: &'static str) {
        "commented-out-code"
    }

    fn severity(&self) -> (r: Severity) {
        Severity::Warning
    }

    fn languages(&self) -> (r: &'static [Language]) {
        &[
            Language::Rust,
            Language::Python,
            Language::TypeScript,
            Language::TypeScriptTsx,
            Language::CSharp,
            Language::Java,
        ]
    }

    fn analyze(&self, ctx: &AnalysisContext) -> (r: Result<Vec<Finding>, RuleError>)
        ensures
            r is Ok,
    {
        proof {
            self.lemma_findings_tagged(*ctx);
        }
        let min = ctx.rule_config.threshold_i64("min_block_lines", 3) as usize;
        let ls = &ctx.source.lines;
        let ghost lv = ls@.map_values(|l: Vec<char>| l@);
        let prefix: &str = match ctx.language {
            Language::Python => "#",
            _ => "//",
        };
        let ghost total = r09_scan(lv, prefix@, min as nat, ctx.file_path@, 0);
        let mut out: Vec<Finding> = Vec::new();
        let mut i: usize = 0;
        while i < ls.len()
            invariant
                ctx.wf(),
                lv == ls@.map_values(|l: Vec<char>| l@),
                lv == lines(ctx.source.chars@),
                prefix@ == comment_prefix(ctx.language),
                min as nat == r09_min(*ctx),
                i <= ls@.len(),
                total == r09_scan(lv, prefix@, min as nat, ctx.file_path@, 0),
                views(out@) + r09_scan(lv, prefix@, min as nat, ctx.file_path@, i as int) == total,
            decreases ls@.len() - i,
        {
            assert(lv[i as int] == ls@[i as int]@);
            let t = trim_start_exec(&ls[i]);
            if starts_with_str(&t, prefix) {
                let (c, n) = code_run_exec(ls, prefix, i);
                proof {
                    lemma_code_run_advances(lv, prefix@, i as int);
                }
                if c >= min {
                    let f = Finding::plain(
                        "R09",
                        "commented-out-code",
                        Severity::Warning,
                        ctx.file_path,
                        i + 1,
                        1,
                        r09_message_exec(c, min),
                        None,
                    );
                    let ghost before = out@;
                    out.push(f);
                    assert(views(out@) =~= views(before) + seq![f@]);
                }
                i = n;
            } else {
                i += 1;
            }
        }
        assert(r09_scan(lv, prefix@, min as nat, ctx.file_path@, i as int) =~= Seq::<FindingView>::empty());
        assert(views(out@) =~= total);
        Ok(out)
    }
}

/// Scanning a comment line always moves past it.
proof fn lemma_code_run_advances(ls: Seq<Seq<char>>, prefix: Seq<char>, j: int)
    requires
        0 <= j < ls.len(),
        starts_with(trim_start(ls[j]), prefix),
    ensures
        j < code_run(ls, prefix, j).1 <= ls.len(),
        code_run(ls, prefix, j).0 <= code_run(ls, prefix, j).1 - j,
{
    lemma_code_run_bounds(ls, prefix, j);
}

proof fn lemma_code_run_bounds(ls: Seq<Seq<char>>, prefix: Seq<char>, j: int)
    requires
        0 <= j <= ls.len(),
    ensures
        j <= code_run(ls, prefix, j).1 <= ls.len(),
        code_run(ls, prefix, j).0 <= code_run(ls, prefix, j).1 - j,
        j < ls.len() && starts_with(trim_start(ls[j]), prefix) ==> j < code_run(ls, prefix, j).1,
    decreases ls.len() - j,
{
    if j < ls.len() {
        lemma_code_run_bounds(ls, prefix, j + 1);
    }
}

} // verus!
