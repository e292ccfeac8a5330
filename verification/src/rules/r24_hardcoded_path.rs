//! R24: hardcoded absolute paths and non-local URLs in string literals, on
//! lines that do not read the environment or configuration. Test files are
//! skipped.

use vstd::prelude::*;
use crate::finding::{views, Finding, FindingView, Severity, finding_at_plain};
use crate::nav::{kind_in, strs};
use crate::parser::Language;
use crate::pieces::{before_any_exec, split_str};
use crate::rule::{append_findings, collect, lemma_collect_all, lemma_collect_step, AnalysisContext, Rule, RuleError, lemma_collect_tagged, tagged};
use crate::rules::common::{is_test_file, is_test_file_exec};
use crate::rules::r14_hardcoded_secret::{r14_literal_kinds, strip_pair_exec, strip_quotes};
use crate::rules::r15_missing_validation::{contains_any, contains_any_exec};
use crate::source::line_at;
use crate::syntax::{text_at, node_text, walk, walk_order};
use crate::text::{
    before_any, contains, contains_str, eq_str, push_chars, push_str, split, starts_with,
    starts_with_str, trim_exec,
};
use crate::unicode::{is_ascii_alpha, is_ascii_alpha_exec, utf8_len, utf8_len_wide};

verus! {

pub struct HardcodedPathOrUrl;

/// What a literal hardcodes.
#[derive(Clone, Copy, PartialEq, Eq, Structural)]
pub enum Hardcoded {
    Path,
    Url,
}

/// A Unix absolute path (not `//`), or a drive path such as `C:\` or `C:/`.
pub open spec fn is_absolute_path(s: Seq<char>) -> bool {
    if s.len() == 0 {
        false
    } else if s[0] == '/' {
        !starts_with(s, "//"@)
    } else {
        s.len() >= 3 && s[1] == ':' && (s[2] == '\\' || s[2] == '/') && is_ascii_alpha(s[0])
    }
}

pub open spec fn classify_literal(s: Seq<char>) -> Option<Hardcoded> {
    if utf8_len(s) < 8 || contains(s, "{}"@) || contains(s, "{0}"@) || contains(s, "{1}"@) {
        None
    } else if s == "https://"@ || s == "http://"@ || s == "/**"@ || s == "/*"@ {
        None
    } else if starts_with(s, "https://"@) || starts_with(s, "http://"@) {
        Some(Hardcoded::Url)
    } else if is_absolute_path(s) {
        Some(Hardcoded::Path)
    } else {
        None
    }
}

pub open spec fn env_signals(l: Language) -> Seq<Seq<char>> {
    match l {
        Language::Rust => seq!["env::var"@, "env!"@, "std::env"@],
        Language::Python => seq!["os.environ"@, "os.getenv"@, "dotenv"@, "config("@],
        Language::TypeScript | Language::TypeScriptTsx => seq!["process.env"@, "dotenv"@, "config("@],
        Language::CSharp => seq!["Environment.GetEnvironmentVariable"@, "Configuration"@],
        Language::Java => seq!["System.getenv"@, "getProperty"@],
    }
}

pub open spec fn hardcoded_words(k: Hardcoded) -> (Seq<char>, Seq<char>) {
    match k {
        Hardcoded::Path => ("路径"@, "path"@),
        Hardcoded::Url => ("URL"@, "URL"@),
    }
}

pub open spec fn r24_message(k: Hardcoded, inner: Seq<char>) -> Seq<char> {
    "硬编码"@ + hardcoded_words(k).0 + "："@ + inner + " | hardcoded "@ + hardcoded_words(k).1 + ": "@
        + inner
}

pub open spec fn r24_at(ctx: AnalysisContext) -> spec_fn(usize) -> Seq<FindingView> {
    |i: usize|
        {
            let n = ctx.tree.nodes@[i as int];
            let inner = strip_quotes(text_at(ctx.source.chars@, n));
            if r14_literal_kinds(ctx.language).contains(n.kind@) {
                match classify_literal(inner) {
                    Some(k) => if contains_any(
                        line_at(ctx.source.chars@, n.start_row as int),
                        env_signals(ctx.language),
                    ) {
                        seq![]
                    } else {
                        seq![
                            finding_at_plain(
                                "R24"@,
                                "hardcoded-path-or-url"@,
                                Severity::Warning,
                                ctx.file_path@,
                                *ctx.tree,
                                i as int,
                                r24_message(k, inner),
                            ),
                        ]
                    },
                    None => seq![],
                }
            } else {
                seq![]
            }
        }
}

fn is_absolute_path_exec(s: &Vec<char>) -> (r: bool)
    ensures
        r == is_absolute_path(s@),
{
    if s.len() == 0 {
        return false;
    }
    if s[0] == '/' {
        return !starts_with_str(s, "//");
    }
    s.len() >= 3 && s[1] == ':' && (s[2] == '\\' || s[2] == '/') && is_ascii_alpha_exec(s[0])
}

fn classify_exec(s: &Vec<char>) -> (r: Option<Hardcoded>)
    ensures
        r == classify_literal(s@),
{
    if utf8_len_wide(s) < 8 || contains_str(s, "{}") || contains_str(s, "{0}") || contains_str(s, "{1}") {
        return None;
    }
    if eq_str(s, "https://") || eq_str(s, "http://") || eq_str(s, "/**") || eq_str(s, "/*") {
        return None;
    }
    if starts_with_str(s, "https://") || starts_with_str(s, "http://") {
        return Some(Hardcoded::Url);
    }
    if is_absolute_path_exec(s) {
        Some(Hardcoded::Path)
    } else {
        None
    }
}

fn r24_node(ctx: &AnalysisContext, i: usize) -> (r: Vec<Finding>)
    requires
        ctx.wf(),
        i < ctx.tree.nodes@.len(),
    ensures
        views(r@) == (r24_at(*ctx))(i),
{
    let mut out: Vec<Finding> = Vec::new();
    let lk: &[&str] = match ctx.language {
        Language::Python => &["string"],
        Language::TypeScript | Language::TypeScriptTsx => &["string", "template_string"],
        _ => &["string_literal"],
    };
    assert(strs(lk@) =~= r14_literal_kinds(ctx.language));
    if !kind_in(&ctx.tree.nodes[i].kind, lk) {
        assert(views(out@) =~= Seq::<FindingView>::empty());
        return out;
    }
    let t = node_text(ctx.source, ctx.tree, i);
    let inner = strip_pair_exec(strip_pair_exec(trim_exec(&t), '"'), '\'');
    match classify_exec(&inner) {
        None => {
            assert(views(out@) =~= Seq::<FindingView>::empty());
        },
        Some(k) => {
            let line = ctx.source.line(ctx.tree.nodes[i].start_row);
            let es: &[&str] = match ctx.language {
                Language::Rust => &["env::var", "env!", "std::env"],
                Language::Python => &["os.environ", "os.getenv", "dotenv", "config("],
                Language::TypeScript | Language::TypeScriptTsx => &["process.env", "dotenv", "config("],
                Language::CSharp => &["Environment.GetEnvironmentVariable", "Configuration"],
                Language::Java => &["System.getenv", "getProperty"],
            };
            assert(strs(es@) =~= env_signals(ctx.language));
            if contains_any_exec(&line, es) {
                assert(views(out@) =~= Seq::<FindingView>::empty());
                return out;
            }
            let mut m: Vec<char> = Vec::new();
            push_str(&mut m, "硬编码");
            match k {
                Hardcoded::Path => push_str(&mut m, "路径"),
                Hardcoded::Url => push_str(&mut m, "URL"),
            }
            push_str(&mut m, "：");
            push_chars(&mut m, &inner);
            push_str(&mut m, " | hardcoded ");
            match k {
                Hardcoded::Path => push_str(&mut m, "path"),
                Hardcoded::Url => push_str(&mut m, "URL"),
            }
            push_str(&mut m, ": ");
            push_chars(&mut m, &inner);
            assert(m@ =~= r24_message(k, inner@));
            let f = Finding::at_node("R24", "hardcoded-path-or-url", Severity::Warning, ctx.file_path, ctx.tree, i, m);
            out.push(f);
            assert(views(out@) =~= seq![f@]);
        },
    }
    out
}

impl HardcodedPathOrUrl {
    /// Every finding the rule reports carries its id and name.
    pub proof fn lemma_findings_tagged(&self, ctx: AnalysisContext)
        ensures
            tagged(self.spec_findings(ctx), self.spec_id(), self.spec_name()),
    {
        assert forall|n: usize| tagged(#[trigger] (r24_at(ctx))(n), self.spec_id(), self.spec_name()) by {}
        lemma_collect_tagged(walk_order(ctx.tree.nodes@, 0), r24_at(ctx), self.spec_id(), self.spec_name());
    }
}

impl Rule for HardcodedPathOrUrl {
    open spec fn spec_id(&self) -> Seq<char> {
        "R24"@
    }

    open spec fn spec_name(&self) -> Seq<char> {
        "hardcoded-path-or-url"@
    }

    open spec fn spec_severity(&self) -> Severity {
        Severity::Warning
    }

    open spec fn spec_total(&self) -> bool {
        true
    }

    open spec fn spec_languages(&self) -> Seq<Language> {
        seq![
            Language::Rust,
            Language::Python,
            Language::TypeScript,
            Language::TypeScriptTsx,
            Language::CSharp,
            Language::Java,
        ]
    }

    /// Nothing in a test file; elsewhere every literal in walk order.
    open spec fn spec_findings(&self, ctx: AnalysisContext) -> Seq<FindingView> {
        if is_test_file(ctx.file_path@) {
            seq![]
        } else {
            collect(walk_order(ctx.tree.nodes@, 0), r24_at(ctx))
        }
    }

    fn id(&self) -> (r: &'static str) {
        "R24"
    }

    fn name(&self) -> (r: &'static str) {
        "hardcoded-path-or-url"
    }

    fn severity(&self) -> (r: Severity) {
        Severity::Warning
    }

    fn languages(&self) -> (r: &'static [Language]) {
        &[
            Language::Rust,
            Language::Python,
            Language::TypeScript,
            Language::TypeScriptTsx,
            Language::CSharp,
            Language::Java,
        ]
    }

    fn analyze(&self, ctx: &AnalysisContext) -> (r: Result<Vec<Finding>, RuleError>)
        ensures
            r is Ok,
    {
        proof {
            self.lemma_findings_tagged(*ctx);
        }
        let mut out: Vec<Finding> = Vec::new();
        if is_test_file_exec(ctx.file_path) {
            assert(views(out@) =~= Seq::<FindingView>::empty());
            return Ok(out);
        }
        let order = walk(ctx.tree, 0);
        let mut k: usize = 0;
        while k < order.len()
            invariant
                ctx.wf(),
                order@ == walk_order(ctx.tree.nodes@, 0),
                forall|m: int| 0 <= m < order@.len() ==> #[trigger] order@[m] < ctx.tree.nodes@.len(),
                k <= order@.len(),
                views(out@) == collect(order@.take(k as int), r24_at(*ctx)),
            decreases order@.len() - k,
        {
            proof {
                lemma_collect_step(order@, r24_at(*ctx), k as int);
            }
            let found = r24_node(ctx, order[k]);
            append_findings(&mut out, found);
            k += 1;
        }
        proof {
            lemma_collect_all(order@, r24_at(*ctx));
        }
        Ok(out)
    }
}

} // verus!
