//! Running the rules over one parsed file, and what an analysis reports.

use vstd::prelude::*;
use crate::config::{excludes_name, rule_entry, Config, RuleConfig};
use crate::finding::{finding_plain, severity_rank, views, Finding, FindingView, Severity};
use crate::pieces::{split_str, trim_end_char_exec};
use crate::parser::Language;
use crate::rule::{tagged, AnalysisContext, Rule, RuleError};
use crate::source::SourceText;
use crate::syntax::SyntaxTree;
use crate::nav::{kind_in, strs};
use crate::source::lines;
use crate::text::{chars_of, contains, push_str, seq_eq, split, trim, trim_end_char, trim_exec};
use crate::unicode::string_of;
use crate::ts::{parse_error_text, parsed_rows, syntax_tree, tree_of, ParseError};

verus! {

/// The outcome of analysing a set of files.
pub struct AnalysisResult {
    pub findings: Vec<Finding>,
    pub files_scanned: usize,
    pub files_skipped: usize,
    pub parse_errors: Vec<(String, ParseError)>,
}

/// An analysis outcome as plain values; each parse error as its file and message.
pub struct ResultView {
    pub findings: Seq<FindingView>,
    pub files_scanned: nat,
    pub files_skipped: nat,
    pub parse_errors: Seq<(Seq<char>, Seq<char>)>,
}

pub open spec fn error_views(s: Seq<(String, ParseError)>) -> Seq<(Seq<char>, Seq<char>)> {
    s.map_values(|p: (String, ParseError)| (p.0@, parse_error_text(p.1)))
}

impl View for AnalysisResult {
    type V = ResultView;

    open spec fn view(&self) -> ResultView {
        ResultView {
            findings: views(self.findings@),
            files_scanned: self.files_scanned as nat,
            files_skipped: self.files_skipped as nat,
            parse_errors: error_views(self.parse_errors@),
        }
    }
}

} // verus!

verus! {

/// The text a rule failure reads as.
pub open spec fn rule_error_text(e: RuleError) -> Seq<char> {
    match e {
        RuleError::Failed(m) => m@,
        RuleError::Panic => "panicked"@,
    }
}

/// The finding that stands for a rule that failed on a file.
pub open spec fn failure_view(id: Seq<char>, name: Seq<char>, file: Seq<char>, msg: Seq<char>) -> FindingView {
    finding_plain(id, name, Severity::Info, file, 1, 1, "rule failed: "@ + msg)
}

/// A rule's failure on a file, reported as an info finding at line 1.
pub fn rule_failure_finding(id: &'static str, name: &'static str, file: &str, msg: &str) -> (r: Finding)
    ensures
        r@ == failure_view(id@, name@, file@, msg@),
{
    let mut m: Vec<char> = Vec::new();
    push_str(&mut m, "rule failed: ");
    push_str(&mut m, msg);
    Finding::plain(id, name, Severity::Info, file, 1, 1, m, None)
}

/// What one rule's run on a file reports: its findings, or one failure finding.
pub fn outcome_findings(
    id: &'static str,
    name: &'static str,
    file: &str,
    outcome: Result<Vec<Finding>, RuleError>,
) -> (r: Vec<Finding>)
    ensures
        match outcome {
            Ok(v) => views(r@) == views(v@),
            Err(e) => views(r@) == seq![failure_view(id@, name@, file@, rule_error_text(e))],
        },
{
    match outcome {
        Ok(v) => v,
        Err(e) => {
            let f = match e {
                RuleError::Failed(m) => rule_failure_finding(id, name, file, m.as_str()),
                RuleError::Panic => rule_failure_finding(id, name, file, "panicked"),
            };
            let mut out: Vec<Finding> = Vec::new();
            out.push(f);
            assert(views(out@) =~= seq![f@]);
            out
        },
    }
}

/// A rule runs on a file when the configuration does not disable it, it
/// supports the file's language, and its `exclude_files` do not name the file.
pub open spec fn rule_runs(config: Config, id: Seq<char>, langs: Seq<Language>, language: Language, file: Seq<char>) -> bool {
    &&& match rule_entry(config.rules@, id) {
        Some(j) => config.rules@[j].1.enabled && !excludes_name(config.rules@[j].1.exclude_files@, file),
        None => true,
    }
    &&& langs.contains(language)
}

/// The settings a rule reads: its entry, else the defaults.
pub open spec fn settings_for(config: Config, id: Seq<char>, rc: RuleConfig) -> bool {
    match rule_entry(config.rules@, id) {
        Some(j) => rc == config.rules@[j].1,
        None => !rc.enabled && rc.severity is None && rc.thresholds@.len() == 0
            && rc.exclude_files@.len() == 0,
    }
}

/// How one rule's run went: not run, its findings, or a failure message.
pub enum RunView {
    Skipped,
    Found(Seq<FindingView>),
    Failed(Seq<char>),
}

pub open spec fn run_findings(id: Seq<char>, name: Seq<char>, file: Seq<char>, r: RunView) -> Seq<FindingView> {
    match r {
        RunView::Skipped => seq![],
        RunView::Found(fs) => fs,
        RunView::Failed(m) => seq![failure_view(id, name, file, m)],
    }
}

/// The findings of the runs, rule after rule.
pub open spec fn combine<R: Rule>(rules: Seq<R>, file: Seq<char>, runs: Seq<RunView>) -> Seq<FindingView>
    decreases runs.len(),
{
    if runs.len() == 0 || rules.len() < runs.len() {
        seq![]
    } else {
        let k = runs.len() - 1;
        combine(rules, file, runs.drop_last()) + run_findings(
            rules[k].spec_id(),
            rules[k].spec_name(),
            file,
            runs.last(),
        )
    }
}

/// Run `k` is what rule `k` may give on the file: skipped exactly when the
/// rule does not run; when it runs, either the findings its specification
/// names, read with its settings, or a failure, and never a failure for a
/// rule that cannot fail.
pub open spec fn run_fits<R: Rule>(
    rules: Seq<R>,
    k: int,
    config: Config,
    source: &SourceText,
    tree: &SyntaxTree,
    language: Language,
    file: &str,
    run: RunView,
    rc: &RuleConfig,
) -> bool {
    &&& settings_for(config, rules[k].spec_id(), *rc)
    &&& (run is Skipped <==> !rule_runs(config, rules[k].spec_id(), rules[k].spec_languages(), language, file@))
    &&& (run matches RunView::Found(fs) ==> fs == rules[k].spec_findings(
        AnalysisContext { source, tree, language, file_path: file, rule_config: rc },
    ))
    &&& (run matches RunView::Found(fs) ==> tagged(fs, rules[k].spec_id(), rules[k].spec_name()))
    &&& (rules[k].spec_total() ==> !(run is Failed))
}

/// `findings` is what the runs give, each run fitting its rule.
pub open spec fn runs_explain<R: Rule>(
    rules: Seq<R>,
    config: Config,
    source: &SourceText,
    tree: &SyntaxTree,
    language: Language,
    file: &str,
    runs: Seq<RunView>,
    cfgs: Seq<RuleConfig>,
    findings: Seq<FindingView>,
) -> bool {
    &&& runs.len() == rules.len()
    &&& cfgs.len() == rules.len()
    &&& forall|k: int|
        0 <= k < rules.len() ==> run_fits(
            rules,
            k,
            config,
            source,
            tree,
            language,
            file,
            #[trigger] runs[k],
            &cfgs[k],
        )
    &&& findings == combine(rules, file@, runs)
}

fn lang_in(langs: &[Language], l: Language) -> (r: bool)
    ensures
        r == langs@.contains(l),
{
    let mut k: usize = 0;
    while k < langs.len()
        invariant
            k <= langs@.len(),
            forall|m: int| 0 <= m < k ==> langs@[m] != l,
        decreases langs@.len() - k,
    {
        if langs[k] == l {
            return true;
        }
        k += 1;
    }
    false
}

/// Runs every rule on one parsed file: skipped rules give nothing, a rule
/// that fails gives one failure finding, the others give their findings.
pub fn analyze_file<R: Rule>(
    rules: &Vec<R>,
    config: &Config,
    source: &SourceText,
    tree: &SyntaxTree,
    language: Language,
    file: &str,
) -> (r: Vec<Finding>)
    requires
        source.wf(),
        tree.wf(),
    ensures
        exists|runs: Seq<RunView>, cfgs: Seq<RuleConfig>|
            #[trigger] runs_explain(rules@, *config, source, tree, language, file, runs, cfgs, views(r@)),
        forall|i: int| 0 <= i < r@.len() ==> from_rule(rules@, #[trigger] views(r@)[i]),
{
    let default_cfg = RuleConfig::default();
    let mut out: Vec<Finding> = Vec::new();
    let ghost mut runs: Seq<RunView> = seq![];
    let ghost mut cfgs: Seq<RuleConfig> = seq![];
    let mut k: usize = 0;
    while k < rules.len()
        invariant
            source.wf(),
            tree.wf(),
            k <= rules@.len(),
            runs.len() == k,
            cfgs.len() == k,
            !default_cfg.enabled && default_cfg.severity is None && default_cfg.thresholds@.len() == 0
                && default_cfg.exclude_files@.len() == 0,
            forall|m: int|
                0 <= m < k ==> run_fits(
                    rules@,
                    m,
                    *config,
                    source,
                    tree,
                    language,
                    file,
                    #[trigger] runs[m],
                    &cfgs[m],
                ),
            views(out@) == combine(rules@, file@, runs),
        decreases rules@.len() - k,
    {
        let ghost old_runs = runs;
        let rule = &rules[k];
        let id = rule.id();
        let entry = config.rule_index(id);
        let rc: &RuleConfig = match entry {
            Some(j) => &config.rules[j].1,
            None => &default_cfg,
        };
        let enabled = match entry {
            Some(j) => config.rules[j].1.is_enabled() && !config.rules[j].1.excludes_file(file),
            None => true,
        };
        let runs_here = enabled && lang_in(rule.languages(), language);
        let ghost run: RunView;
        if runs_here {
            let ctx = AnalysisContext {
                source,
                tree,
                language,
                file_path: file,
                rule_config: rc,
            };
            let outcome = rule.analyze(&ctx);
            proof {
                run = match &outcome {
                    Ok(v) => RunView::Found(views(v@)),
                    Err(e) => RunView::Failed(rule_error_text(*e)),
                };
                assert(run matches RunView::Found(fs) ==> fs == rules@[k as int].spec_findings(AnalysisContext { source, tree, language, file_path: file, rule_config: rc }));
                assert(run matches RunView::Found(fs) ==> tagged(fs, rules@[k as int].spec_id(), rules@[k as int].spec_name()));
                assert(rules@[k as int].spec_total() ==> !(run is Failed));
            }
            let found = outcome_findings(id, rule.name(), file, outcome);
            let ghost o = out@;
            let mut found = found;
            out.append(&mut found);
            assert(views(out@) =~= views(o) + run_findings(rule.spec_id(), rule.spec_name(), file@, run));
        } else {
            proof {
                run = RunView::Skipped;
            }
            assert(views(out@) =~= views(out@) + run_findings(rule.spec_id(), rule.spec_name(), file@, run));
        }
        proof {
            runs = runs.push(run);
            cfgs = cfgs.push(*rc);
            assert(runs.drop_last() =~= old_runs);
            assert(settings_for(*config, rules@[k as int].spec_id(), *rc));
            assert(run is Skipped <==> !rule_runs(*config, rules@[k as int].spec_id(), rules@[k as int].spec_languages(), language, file@));
            assert(run_fits(rules@, k as int, *config, source, tree, language, file, run, rc));

        }
        k += 1;
    }
    assert(runs_explain(rules@, *config, source, tree, language, file, runs, cfgs, views(out@)));
    proof {
        lemma_findings_from_rules(rules@, *config, source, tree, language, file, runs, cfgs, views(out@));
    }
    out
}

} // verus!

verus! {

/// Three-way comparison: -1, 0 or 1.
pub open spec fn three_way(a: int, b: int) -> int {
    if a < b {
        -1
    } else if a > b {
        1
    } else {
        0
    }
}

/// Lexicographic comparison of texts by code point (the byte order of UTF-8).
pub open spec fn text_order(a: Seq<char>, b: Seq<char>) -> int
    decreases a.len(),
{
    if a.len() == 0 {
        if b.len() == 0 {
            0
        } else {
            -1
        }
    } else if b.len() == 0 {
        1
    } else if a[0] != b[0] {
        three_way(a[0] as u32 as int, b[0] as u32 as int)
    } else {
        text_order(a.skip(1), b.skip(1))
    }
}

/// The component a `/`-separated segment stands for, as `Path::components`
/// reads a Unix path: 1 the root, 2 a leading `.`, 3 `..`, 4 a name; empty
/// segments and inner `.` stand for none.
pub open spec fn segment_component(seg: Seq<char>, first: bool) -> Option<(nat, Seq<char>)> {
    if seg.len() == 0 {
        None
    } else if seg == "."@ {
        if first {
            Some((2nat, seg))
        } else {
            None
        }
    } else if seg == ".."@ {
        Some((3nat, seg))
    } else {
        Some((4nat, seg))
    }
}

pub open spec fn segment_components(segs: Seq<Seq<char>>) -> Seq<(nat, Seq<char>)>
    decreases segs.len(),
{
    if segs.len() == 0 {
        seq![]
    } else {
        segment_components(segs.drop_last()) + match segment_component(
            segs.last(),
            segs.len() == 1,
        ) {
            Some(c) => seq![c],
            None => seq![],
        }
    }
}

/// `Path::components` of a Unix path.
pub open spec fn path_components(p: Seq<char>) -> Seq<(nat, Seq<char>)> {
    (if p.len() > 0 && p[0] == '/' {
        seq![(1nat, "/"@)]
    } else {
        seq![]
    }) + segment_components(split(p, "/"@))
}

pub open spec fn component_order(a: (nat, Seq<char>), b: (nat, Seq<char>)) -> int {
    if a.0 != b.0 {
        three_way(a.0 as int, b.0 as int)
    } else {
        text_order(a.1, b.1)
    }
}

pub open spec fn components_order(a: Seq<(nat, Seq<char>)>, b: Seq<(nat, Seq<char>)>) -> int
    decreases a.len(),
{
    if a.len() == 0 {
        if b.len() == 0 {
            0
        } else {
            -1
        }
    } else if b.len() == 0 {
        1
    } else if component_order(a[0], b[0]) != 0 {
        component_order(a[0], b[0])
    } else {
        components_order(a.skip(1), b.skip(1))
    }
}

/// How `Path` orders paths: component by component.
pub open spec fn path_order(a: Seq<char>, b: Seq<char>) -> int {
    components_order(path_components(a), path_components(b))
}

/// Report order: the later severity first (info, warning, error), then by
/// file, then by line.
pub open spec fn finding_order(a: FindingView, b: FindingView) -> int {
    let c = three_way(severity_rank(b.severity), severity_rank(a.severity));
    if c != 0 {
        c
    } else {
        let d = path_order(a.file, b.file);
        if d != 0 {
            d
        } else {
            three_way(a.line, b.line)
        }
    }
}

/// Inserts `x` after every finding that does not order after it.
pub open spec fn insert_finding(s: Seq<FindingView>, x: FindingView) -> Seq<FindingView>
    decreases s.len(),
{
    if s.len() == 0 {
        seq![x]
    } else if finding_order(s.last(), x) <= 0 {
        s.push(x)
    } else {
        insert_finding(s.drop_last(), x).push(s.last())
    }
}

/// Stable sort in report order.
pub open spec fn sort_findings_spec(s: Seq<FindingView>) -> Seq<FindingView>
    decreases s.len(),
{
    if s.len() == 0 {
        seq![]
    } else {
        insert_finding(sort_findings_spec(s.drop_last()), s.last())
    }
}

fn three_way_exec(a: usize, b: usize) -> (r: i8)
    ensures
        r == three_way(a as int, b as int),
{
    if a < b {
        -1
    } else if a > b {
        1
    } else {
        0
    }
}

fn text_order_exec(a: &Vec<char>, b: &Vec<char>) -> (r: i8)
    ensures
        r == text_order(a@, b@),
{
    let mut i: usize = 0;
    assert(a@.skip(0) =~= a@);
    assert(b@.skip(0) =~= b@);
    while i < a.len() && i < b.len() && a[i] == b[i]
        invariant
            i <= a@.len(),
            i <= b@.len(),
            text_order(a@.skip(i as int), b@.skip(i as int)) == text_order(a@, b@),
        decreases a@.len() - i,
    {
        assert(a@.skip(i as int).skip(1) =~= a@.skip(i + 1));
        assert(b@.skip(i as int).skip(1) =~= b@.skip(i + 1));
        i += 1;
    }
    let ghost sa = a@.skip(i as int);
    let ghost sb = b@.skip(i as int);
    if i == a.len() {
        assert(sa.len() == 0);
        if i == b.len() {
            0
        } else {
            -1
        }
    } else if i == b.len() {
        assert(sb.len() == 0);
        1
    } else {
        assert(sa[0] == a@[i as int] && sb[0] == b@[i as int]);
        let x: u32 = a[i] as u32;
        let y: u32 = b[i] as u32;
        three_way_exec(x as usize, y as usize)
    }
}

pub open spec fn comp_views(v: Seq<(usize, Vec<char>)>) -> Seq<(nat, Seq<char>)> {
    v.map_values(|c: (usize, Vec<char>)| (c.0 as nat, c.1@))
}

pub fn path_components_exec(p: &Vec<char>) -> (r: Vec<(usize, Vec<char>)>)
    ensures
        comp_views(r@) == path_components(p@),
{
    proof {
        reveal_strlit("/");
        reveal_strlit(".");
        reveal_strlit("..");
    }
    let mut out: Vec<(usize, Vec<char>)> = Vec::new();
    if p.len() > 0 && p[0] == '/' {
        let mut root: Vec<char> = Vec::new();
        root.push('/');
        assert(root@ =~= "/"@);
        out.push((1, root));
        assert(comp_views(out@) =~= seq![(1nat, "/"@)]);
    } else {
        assert(comp_views(out@) =~= Seq::<(nat, Seq<char>)>::empty());
    }
    let ghost head = comp_views(out@);
    assert(head =~= (if p@.len() > 0 && p@[0] == '/' {
        seq![(1nat, "/"@)]
    } else {
        Seq::<(nat, Seq<char>)>::empty()
    }));
    let segs = split_str(p, "/");
    let ghost sv = segs@.map_values(|v: Vec<char>| v@);
    let mut k: usize = 0;
    while k < segs.len()
        invariant
            k <= segs@.len(),
            sv == segs@.map_values(|v: Vec<char>| v@),
            comp_views(out@) == head + segment_components(sv.take(k as int)),
        decreases segs@.len() - k,
    {
        let ghost o = comp_views(out@);
        proof {
            assert(sv.take(k + 1).drop_last() =~= sv.take(k as int));
            assert(sv.take(k + 1).last() == segs@[k as int]@);
        }
        let seg = &segs[k];
        let ghost sc = segment_component(seg@, k == 0);
        if seg.len() == 0 {
            assert(seg@ =~= Seq::<char>::empty());
            assert(comp_views(out@) =~= o);
        } else if crate::text::eq_str(seg, ".") {
            if k == 0 {
                out.push((2, seg.clone()));
                assert(comp_views(out@) =~= o.push((2nat, seg@)));
            } else {
                assert(comp_views(out@) =~= o);
            }
        } else if crate::text::eq_str(seg, "..") {
            out.push((3, seg.clone()));
            assert(comp_views(out@) =~= o.push((3nat, seg@)));
        } else {
            out.push((4, seg.clone()));
            assert(comp_views(out@) =~= o.push((4nat, seg@)));
        }
        assert(segment_components(sv.take(k + 1)) =~= segment_components(sv.take(k as int)) + match sc {
            Some(c) => seq![c],
            None => seq![],
        });
        assert(comp_views(out@) =~= head + segment_components(sv.take(k + 1)));
        k += 1;
    }
    assert(sv.take(segs@.len() as int) =~= sv);
    out
}

fn components_order_exec(a: &Vec<(usize, Vec<char>)>, b: &Vec<(usize, Vec<char>)>) -> (r: i8)
    ensures
        r == components_order(comp_views(a@), comp_views(b@)),
{
    let ghost av = comp_views(a@);
    let ghost bv = comp_views(b@);
    let mut i: usize = 0;
    assert(av.skip(0) =~= av);
    assert(bv.skip(0) =~= bv);
    while i < a.len() && i < b.len()
        invariant
            i <= a@.len(),
            i <= b@.len(),
            av == comp_views(a@),
            bv == comp_views(b@),
            components_order(av.skip(i as int), bv.skip(i as int)) == components_order(av, bv),
        decreases a@.len() - i,
    {
        let ghost sa = av.skip(i as int);
        let ghost sb = bv.skip(i as int);
        assert(sa[0] == av[i as int] && sb[0] == bv[i as int]);
        let c: i8 = if a[i].0 != b[i].0 {
            three_way_exec(a[i].0, b[i].0)
        } else {
            text_order_exec(&a[i].1, &b[i].1)
        };
        if c != 0 {
            return c;
        }
        assert(sa.skip(1) =~= av.skip(i + 1));
        assert(sb.skip(1) =~= bv.skip(i + 1));
        i += 1;
    }
    if i == a.len() {
        if i == b.len() {
            0
        } else {
            -1
        }
    } else {
        1
    }
}

fn finding_order_exec(a: &Finding, b: &Finding) -> (r: i8)
    ensures
        r == finding_order(a@, b@),
{
    let c = three_way_exec(b.severity.rank() as usize, a.severity.rank() as usize);
    if c != 0 {
        return c;
    }
    let pa = path_components_exec(&chars_of(a.location.file.as_str()));
    let pb = path_components_exec(&chars_of(b.location.file.as_str()));
    let d = components_order_exec(&pa, &pb);
    if d != 0 {
        return d;
    }
    three_way_exec(a.location.line, b.location.line)
}

proof fn lemma_insert_finding_step(s: Seq<FindingView>, x: FindingView, p: int)
    requires
        0 < p <= s.len(),
        finding_order(s[p - 1], x) > 0,
    ensures
        insert_finding(s.take(p), x) + s.skip(p) == insert_finding(s.take(p - 1), x) + s.skip(p - 1),
{
    assert(s.take(p).drop_last() =~= s.take(p - 1));
    assert(s.take(p).last() == s[p - 1]);
    assert(s.skip(p - 1) =~= seq![s[p - 1]] + s.skip(p));
    assert(insert_finding(s.take(p - 1), x).push(s[p - 1]) + s.skip(p) =~= insert_finding(
        s.take(p - 1),
        x,
    ) + s.skip(p - 1));
}

fn insert_in_order(s: &mut Vec<Finding>, x: Finding)
    ensures
        views(final(s)@) == insert_finding(views(old(s)@), x@),
{
    let ghost sv = views(s@);
    let mut p: usize = s.len();
    assert(sv.take(p as int) =~= sv);
    assert(sv.skip(p as int) =~= Seq::<FindingView>::empty());
    while p > 0 && finding_order_exec(&s[p - 1], &x) > 0
        invariant
            p <= s@.len(),
            sv == views(s@),
            insert_finding(sv.take(p as int), x@) + sv.skip(p as int) == insert_finding(sv, x@),
        decreases p,
    {
        proof {
            lemma_insert_finding_step(sv, x@, p as int);
        }
        p -= 1;
    }
    proof {
        if p == 0 {
            assert(sv.take(0) =~= Seq::<FindingView>::empty());
            assert(insert_finding(sv.take(0), x@) =~= seq![x@]);
        } else {
            assert(sv.take(p as int).last() == sv[p - 1]);
        }
    }
    let ghost xv = x@;
    s.insert(p, x);
    assert(views(s@) =~= sv.take(p as int).push(xv) + sv.skip(p as int));
    proof {
        if p == 0 {
            assert(sv.take(0).push(xv) =~= seq![xv]);
        }
    }
}

/// The findings in report order: info before warning before error, then by
/// file path, then by line; findings that tie keep their order.
pub fn sort_findings(findings: &Vec<Finding>) -> (r: Vec<Finding>)
    ensures
        views(r@) == sort_findings_spec(views(findings@)),
{
    let ghost fv = views(findings@);
    let mut out: Vec<Finding> = Vec::new();
    let mut k: usize = 0;
    while k < findings.len()
        invariant
            k <= findings@.len(),
            fv == views(findings@),
            views(out@) == sort_findings_spec(fv.take(k as int)),
        decreases findings@.len() - k,
    {
        proof {
            assert(fv.take(k + 1).drop_last() =~= fv.take(k as int));
        }
        insert_in_order(&mut out, findings[k].duplicate());
        k += 1;
    }
    assert(fv.take(findings@.len() as int) =~= fv);
    out
}

} // verus!

verus! {

/// Glob match where `*` stands for any run of characters.
pub open spec fn glob_match(p: Seq<char>, s: Seq<char>) -> bool
    decreases p.len(), s.len(),
{
    if p.len() == 0 {
        s.len() == 0
    } else if p[0] == '*' {
        glob_match(p.skip(1), s) || (s.len() > 0 && glob_match(p, s.skip(1)))
    } else {
        s.len() > 0 && p[0] == s[0] && glob_match(p.skip(1), s.skip(1))
    }
}

fn glob_from(p: &Vec<char>, i: usize, s: &Vec<char>, j: usize) -> (r: bool)
    requires
        i <= p@.len(),
        j <= s@.len(),
    ensures
        r == glob_match(p@.skip(i as int), s@.skip(j as int)),
    decreases p@.len() - i, s@.len() - j,
{
    let ghost ps = p@.skip(i as int);
    let ghost ss = s@.skip(j as int);
    if i == p.len() {
        assert(ps.len() == 0);
        return j == s.len();
    }
    assert(ps[0] == p@[i as int]);
    assert(ps.skip(1) =~= p@.skip(i + 1));
    if j < s.len() {
        assert(ss[0] == s@[j as int]);
        assert(ss.skip(1) =~= s@.skip(j + 1));
    }
    if p[i] == '*' {
        if glob_from(p, i + 1, s, j) {
            return true;
        }
        j < s.len() && glob_from(p, i, s, j + 1)
    } else {
        j < s.len() && p[i] == s[j] && glob_from(p, i + 1, s, j + 1)
    }
}

/// Whether one of the global exclude patterns names a part of the path.
pub fn is_excluded(path: &str, patterns: &Vec<String>) -> (r: bool)
    ensures
        r == exists|k: int| 0 <= k < patterns@.len() && names_part(path@, #[trigger] patterns@[k]@),
{
    let mut k: usize = 0;
    while k < patterns.len()
        invariant
            k <= patterns@.len(),
            forall|m: int| 0 <= m < k ==> !names_part(path@, #[trigger] patterns@[m]@),
        decreases patterns@.len() - k,
    {
        if names_part_exec(path, patterns[k].as_str()) {
            return true;
        }
        k += 1;
    }
    false
}

} // verus!

verus! {

/// Directories that are never scanned.
pub open spec fn default_excluded_dirs() -> Seq<Seq<char>> {
    seq![
        "node_modules"@, "target"@, "obj"@, "bin"@, "dist"@, "build"@, "out"@, ".git"@, ".vscode"@,
        ".idea"@, "__pycache__"@, ".pytest_cache"@, "vendor"@, ".next"@, ".nuxt"@, "coverage"@,
        ".cache"@,
    ]
}

/// Some `/`-separated part of the path is one of the default directories.
pub open spec fn default_excluded(path: Seq<char>) -> bool {
    let segs = split(path, "/"@);
    exists|k: int| 0 <= k < segs.len() && default_excluded_dirs().contains(#[trigger] segs[k])
}

/// A pattern names a part of the path (a `/`-separated component): a pattern
/// with `*` matches a part as a glob, `dir/` and plain names equal one.
pub open spec fn names_part(path: Seq<char>, pat: Seq<char>) -> bool {
    let segs = split(path, "/"@);
    let p = trim_end_char(pat, '/');
    exists|k: int|
        0 <= k < segs.len() && if pat.contains('*') {
            glob_match(p, #[trigger] segs[k])
        } else {
            segs[k] == p
        }
}

/// The patterns of an ignore file: its trimmed lines, without blank lines,
/// comments (`#`) and negations (`!`), which are not supported.
pub open spec fn ignore_patterns(ls: Seq<Seq<char>>) -> Seq<Seq<char>>
    decreases ls.len(),
{
    if ls.len() == 0 {
        seq![]
    } else {
        let t = trim(ls.last());
        ignore_patterns(ls.drop_last()) + if t.len() == 0 || t[0] == '#' || t[0] == '!' {
            seq![]
        } else {
            seq![t]
        }
    }
}

/// The patterns of a `.gitignore` text.
pub fn parse_ignore_file(text: &str) -> (r: Vec<String>)
    requires
        4 * text@.len() + 1 <= usize::MAX,
    ensures
        r@.map_values(|s: String| s@) == ignore_patterns(lines(text@)),
{
    let src = SourceText::new(text);
    let ls = &src.lines;
    let ghost lv = ls@.map_values(|l: Vec<char>| l@);
    let mut out: Vec<String> = Vec::new();
    let mut k: usize = 0;
    while k < ls.len()
        invariant
            lv == ls@.map_values(|l: Vec<char>| l@),
            lv == lines(text@),
            k <= ls@.len(),
            out@.map_values(|s: String| s@) == ignore_patterns(lv.take(k as int)),
        decreases ls@.len() - k,
    {
        proof {
            assert(lv.take(k + 1).drop_last() =~= lv.take(k as int));
            assert(lv[k as int] == ls@[k as int]@);
        }
        let t = trim_exec(&ls[k]);
        let ghost o = out@.map_values(|s: String| s@);
        if t.len() == 0 || t[0] == '#' || t[0] == '!' {
            assert(out@.map_values(|s: String| s@) =~= o + Seq::<Seq<char>>::empty());
        } else {
            let s = string_of(&t);
            out.push(s);
            assert(out@.map_values(|s: String| s@) =~= o + seq![t@]);
        }
        k += 1;
    }
    assert(lv.take(ls@.len() as int) =~= lv);
    out
}

fn segment_matches(seg: &Vec<char>, pat: &Vec<char>, p: &Vec<char>, star: bool) -> (r: bool)
    requires
        star == pat@.contains('*'),
        p@ == trim_end_char(pat@, '/'),
    ensures
        r == (if pat@.contains('*') {
            glob_match(p@, seg@)
        } else {
            seg@ == p@
        }),
{
    if star {
        assert(p@.skip(0) =~= p@);
        assert(seg@.skip(0) =~= seg@);
        glob_from(p, 0, seg, 0)
    } else {
        seq_eq(seg, p)
    }
}

fn has_star(pat: &Vec<char>) -> (r: bool)
    ensures
        r == pat@.contains('*'),
{
    let mut k: usize = 0;
    while k < pat.len()
        invariant
            k <= pat@.len(),
            forall|m: int| 0 <= m < k ==> pat@[m] != '*',
        decreases pat@.len() - k,
    {
        if pat[k] == '*' {
            assert(pat@[k as int] == '*');
            return true;
        }
        k += 1;
    }
    false
}

/// Whether an ignore pattern names a part of the path.
pub fn names_part_exec(path: &str, pat: &str) -> (r: bool)
    ensures
        r == names_part(path@, pat@),
{
    proof {
        reveal_strlit("/");
    }
    let pc = chars_of(path);
    let pt = chars_of(pat);
    let star = has_star(&pt);
    let p = trim_end_char_exec(&pt, '/');
    let segs = split_str(&pc, "/");
    let ghost sv = segs@.map_values(|v: Vec<char>| v@);
    let mut k: usize = 0;
    while k < segs.len()
        invariant
            k <= segs@.len(),
            sv == segs@.map_values(|v: Vec<char>| v@),
            sv == split(path@, "/"@),
            star == pt@.contains('*'),
            pt@ == pat@,
            p@ == trim_end_char(pat@, '/'),
            forall|m: int|
                0 <= m < k ==> !(if pat@.contains('*') {
                    glob_match(p@, #[trigger] sv[m])
                } else {
                    sv[m] == p@
                }),
        decreases segs@.len() - k,
    {
        assert(sv[k as int] == segs@[k as int]@);
        if segment_matches(&segs[k], &pt, &p, star) {
            return true;
        }
        k += 1;
    }
    false
}

/// Whether a path lies under one of the default directories.
pub fn default_excluded_exec(path: &str) -> (r: bool)
    ensures
        r == default_excluded(path@),
{
    proof {
        reveal_strlit("/");
    }
    let ds: &[&str] = &[
        "node_modules", "target", "obj", "bin", "dist", "build", "out", ".git", ".vscode", ".idea",
        "__pycache__", ".pytest_cache", "vendor", ".next", ".nuxt", "coverage", ".cache",
    ];
    assert(strs(ds@) =~= default_excluded_dirs());
    let pc = chars_of(path);
    let segs = split_str(&pc, "/");
    let ghost sv = segs@.map_values(|v: Vec<char>| v@);
    let mut k: usize = 0;
    while k < segs.len()
        invariant
            k <= segs@.len(),
            sv == segs@.map_values(|v: Vec<char>| v@),
            sv == split(path@, "/"@),
            strs(ds@) == default_excluded_dirs(),
            forall|m: int| 0 <= m < k ==> !default_excluded_dirs().contains(#[trigger] sv[m]),
        decreases segs@.len() - k,
    {
        assert(sv[k as int] == segs@[k as int]@);
        if kind_in(&segs[k], ds) {
            return true;
        }
        k += 1;
    }
    false
}

/// A path the scan skips: under a default directory, excluded by the
/// configuration, or named by an ignore-file pattern.
pub open spec fn skipped_path(path: Seq<char>, config_patterns: Seq<String>, ignore: Seq<String>) -> bool {
    default_excluded(path) || (exists|k: int|
        0 <= k < config_patterns.len() && names_part(path, #[trigger] config_patterns[k]@)) || (exists|k: int|
        0 <= k < ignore.len() && names_part(path, #[trigger] ignore[k]@))
}

/// Whether the scan skips a path.
pub fn skip_path(path: &str, config_patterns: &Vec<String>, ignore: &Vec<String>) -> (r: bool)
    ensures
        r == skipped_path(path@, config_patterns@, ignore@),
{
    if default_excluded_exec(path) || is_excluded(path, config_patterns) {
        return true;
    }
    let mut k: usize = 0;
    while k < ignore.len()
        invariant
            k <= ignore@.len(),
            forall|m: int| 0 <= m < k ==> !names_part(path@, #[trigger] ignore@[m]@),
        decreases ignore@.len() - k,
    {
        if names_part_exec(path, ignore[k].as_str()) {
            return true;
        }
        k += 1;
    }
    false
}

} // verus!

verus! {

proof fn lemma_char_code(x: char, y: char)
    ensures
        x != y ==> (x as u32) != (y as u32),
{
}

proof fn lemma_text_antisym(a: Seq<char>, b: Seq<char>)
    ensures
        text_order(a, b) == -text_order(b, a),
        text_order(a, b) == 0 ==> a == b,
    decreases a.len(),
{
    if a.len() > 0 && b.len() > 0 {
        lemma_char_code(a[0], b[0]);
        if a[0] == b[0] {
            lemma_text_antisym(a.skip(1), b.skip(1));
            if text_order(a, b) == 0 {
                assert(a =~= seq![a[0]] + a.skip(1));
                assert(b =~= seq![b[0]] + b.skip(1));
            }
        }
    }
    if a.len() == 0 && b.len() == 0 {
        assert(a =~= b);
    }
}

proof fn lemma_text_trans(a: Seq<char>, b: Seq<char>, c: Seq<char>)
    requires
        text_order(a, b) <= 0,
        text_order(b, c) <= 0,
    ensures
        text_order(a, c) <= 0,
    decreases a.len(),
{
    if a.len() > 0 && b.len() > 0 && c.len() > 0 {
        lemma_char_code(a[0], b[0]);
        lemma_char_code(b[0], c[0]);
        lemma_char_code(a[0], c[0]);
        if a[0] == b[0] && b[0] == c[0] {
            lemma_text_trans(a.skip(1), b.skip(1), c.skip(1));
        }
    }
}

proof fn lemma_component_props(x: (nat, Seq<char>), y: (nat, Seq<char>), z: (nat, Seq<char>))
    ensures
        component_order(x, y) == -component_order(y, x),
        component_order(x, y) == 0 ==> x == y,
        component_order(x, y) <= 0 && component_order(y, z) <= 0 ==> component_order(x, z) <= 0,
{
    lemma_text_antisym(x.1, y.1);
    if x.0 == y.0 && y.0 == z.0 && component_order(x, y) <= 0 && component_order(y, z) <= 0 {
        lemma_text_trans(x.1, y.1, z.1);
    }
}

proof fn lemma_components_antisym(a: Seq<(nat, Seq<char>)>, b: Seq<(nat, Seq<char>)>)
    ensures
        components_order(a, b) == -components_order(b, a),
        components_order(a, b) == 0 ==> a == b,
    decreases a.len(),
{
    if a.len() > 0 && b.len() > 0 {
        lemma_component_props(a[0], b[0], b[0]);
        if component_order(a[0], b[0]) == 0 {
            lemma_components_antisym(a.skip(1), b.skip(1));
            if components_order(a, b) == 0 {
                assert(a =~= seq![a[0]] + a.skip(1));
                assert(b =~= seq![b[0]] + b.skip(1));
            }
        }
    }
    if a.len() == 0 && b.len() == 0 {
        assert(a =~= b);
    }
}

proof fn lemma_components_trans(a: Seq<(nat, Seq<char>)>, b: Seq<(nat, Seq<char>)>, c: Seq<(nat, Seq<char>)>)
    requires
        components_order(a, b) <= 0,
        components_order(b, c) <= 0,
    ensures
        components_order(a, c) <= 0,
    decreases a.len(),
{
    if a.len() > 0 && b.len() > 0 && c.len() > 0 {
        lemma_component_props(a[0], b[0], c[0]);
        lemma_component_props(b[0], c[0], a[0]);
        lemma_component_props(a[0], c[0], b[0]);
        if component_order(a[0], b[0]) == 0 && component_order(b[0], c[0]) == 0 {
            lemma_components_trans(a.skip(1), b.skip(1), c.skip(1));
        }
    }
}

/// Report order never disagrees with itself: swapping two findings flips
/// their comparison.
pub proof fn lemma_finding_order_antisym(a: FindingView, b: FindingView)
    ensures
        finding_order(a, b) == -finding_order(b, a),
{
    lemma_components_antisym(path_components(a.file), path_components(b.file));
}

/// Report order is transitive.
pub proof fn lemma_finding_order_trans(a: FindingView, b: FindingView, c: FindingView)
    requires
        finding_order(a, b) <= 0,
        finding_order(b, c) <= 0,
    ensures
        finding_order(a, c) <= 0,
{
    let (pa, pb, pc) = (path_components(a.file), path_components(b.file), path_components(c.file));
    lemma_components_antisym(pa, pb);
    lemma_components_antisym(pb, pc);
    lemma_components_antisym(pa, pc);
    if components_order(pa, pb) <= 0 && components_order(pb, pc) <= 0 {
        lemma_components_trans(pa, pb, pc);
    }
}

/// In report order: no finding is followed by one that comes before it.
pub open spec fn in_report_order(s: Seq<FindingView>) -> bool {
    forall|i: int, j: int| 0 <= i < j < s.len() ==> finding_order(#[trigger] s[i], #[trigger] s[j]) <= 0
}

proof fn lemma_insert_elements(s: Seq<FindingView>, x: FindingView)
    ensures
        insert_finding(s, x).len() == s.len() + 1,
        forall|k: int|
            0 <= k < insert_finding(s, x).len() ==> #[trigger] insert_finding(s, x)[k] == x
                || s.contains(insert_finding(s, x)[k]),
    decreases s.len(),
{
    if s.len() > 0 && finding_order(s.last(), x) > 0 {
        lemma_insert_elements(s.drop_last(), x);
        let t = insert_finding(s.drop_last(), x);
        assert forall|k: int| 0 <= k < t.push(s.last()).len() implies #[trigger] t.push(s.last())[k] == x
            || s.contains(t.push(s.last())[k]) by {
            if k == t.len() {
                assert(s[s.len() - 1] == s.last());
            } else {
                assert(t.push(s.last())[k] == t[k]);
                if s.drop_last().contains(t[k]) {
                    let j = choose|j: int| 0 <= j < s.drop_last().len() && s.drop_last()[j] == t[k];
                    assert(s[j] == t[k]);
                }
            }
        }
    } else if s.len() > 0 {
        assert forall|k: int| 0 <= k < s.push(x).len() implies #[trigger] s.push(x)[k] == x
            || s.contains(s.push(x)[k]) by {
            if k < s.len() {
                assert(s.push(x)[k] == s[k]);
            }
        }
    }
}

proof fn lemma_insert_sorted(s: Seq<FindingView>, x: FindingView)
    requires
        in_report_order(s),
    ensures
        in_report_order(insert_finding(s, x)),
    decreases s.len(),
{
    if s.len() == 0 {
        return;
    }
    if finding_order(s.last(), x) <= 0 {
        assert forall|i: int, j: int| 0 <= i < j < s.push(x).len() implies finding_order(
            #[trigger] s.push(x)[i],
            #[trigger] s.push(x)[j],
        ) <= 0 by {
            if j == s.len() {
                if i < s.len() - 1 {
                    assert(finding_order(s[i], s[s.len() - 1]) <= 0);
                    lemma_finding_order_trans(s[i], s.last(), x);
                }
            } else {
                assert(finding_order(s[i], s[j]) <= 0);
            }
        }
    } else {
        let d = s.drop_last();
        assert(in_report_order(d)) by {
            assert forall|i: int, j: int| 0 <= i < j < d.len() implies finding_order(#[trigger] d[i], #[trigger] d[j]) <= 0 by {
                assert(finding_order(s[i], s[j]) <= 0);
            }
        }
        lemma_insert_sorted(d, x);
        lemma_insert_elements(d, x);
        lemma_finding_order_antisym(s.last(), x);
        let t = insert_finding(d, x);
        assert forall|i: int, j: int| 0 <= i < j < t.push(s.last()).len() implies finding_order(
            #[trigger] t.push(s.last())[i],
            #[trigger] t.push(s.last())[j],
        ) <= 0 by {
            if j == t.len() {
                let e = t[i];
                assert(t.push(s.last())[i] == e);
                if e != x {
                    assert(d.contains(e));
                    let m = choose|m: int| 0 <= m < d.len() && d[m] == e;
                    assert(finding_order(s[m], s[s.len() - 1]) <= 0);
                }
            } else {
                assert(finding_order(t[i], t[j]) <= 0);
            }
        }
    }
}

/// The report order of `sort_findings`: its result is in report order.
pub proof fn lemma_sorted_in_report_order(s: Seq<FindingView>)
    ensures
        in_report_order(sort_findings_spec(s)),
    decreases s.len(),
{
    if s.len() > 0 {
        lemma_sorted_in_report_order(s.drop_last());
        lemma_insert_sorted(sort_findings_spec(s.drop_last()), s.last());
    }
}

/// Sorting findings that are already in report order leaves them as they are.
pub proof fn lemma_sort_keeps_sorted(s: Seq<FindingView>)
    requires
        in_report_order(s),
    ensures
        sort_findings_spec(s) == s,
    decreases s.len(),
{
    if s.len() > 0 {
        let d = s.drop_last();
        assert(in_report_order(d)) by {
            assert forall|i: int, j: int| 0 <= i < j < d.len() implies finding_order(
                #[trigger] d[i],
                #[trigger] d[j],
            ) <= 0 by {
                assert(d[i] == s[i] && d[j] == s[j]);
            }
        }
        lemma_sort_keeps_sorted(d);
        if d.len() > 0 {
            assert(d.last() == s[s.len() - 2]);
            assert(finding_order(s[s.len() - 2], s[s.len() - 1]) <= 0);
        }
        assert(d.push(s.last()) =~= s);
    }
}

/// Sorting twice gives what sorting once gives.
pub proof fn lemma_sort_idempotent(s: Seq<FindingView>)
    ensures
        sort_findings_spec(sort_findings_spec(s)) == sort_findings_spec(s),
{
    lemma_sorted_in_report_order(s);
    lemma_sort_keeps_sorted(sort_findings_spec(s));
}

proof fn lemma_insert_multiset(s: Seq<FindingView>, x: FindingView)
    ensures
        insert_finding(s, x).to_multiset() == s.to_multiset().insert(x),
    decreases s.len(),
{
    broadcast use vstd::seq_lib::group_to_multiset_ensures;
    if s.len() == 0 {
        assert(seq![x] =~= Seq::<FindingView>::empty().push(x));
    } else if finding_order(s.last(), x) > 0 {
        lemma_insert_multiset(s.drop_last(), x);
        assert(s =~= s.drop_last().push(s.last()));
        assert(s.to_multiset() =~= s.drop_last().to_multiset().insert(s.last()));
        assert(insert_finding(s, x).to_multiset() =~= s.to_multiset().insert(x));
    }
}

/// Sorting loses and adds nothing: the result holds the same findings, each
/// as many times.
pub proof fn lemma_sort_is_permutation(s: Seq<FindingView>)
    ensures
        sort_findings_spec(s).to_multiset() == s.to_multiset(),
    decreases s.len(),
{
    broadcast use vstd::seq_lib::group_to_multiset_ensures;
    if s.len() > 0 {
        lemma_sort_is_permutation(s.drop_last());
        lemma_insert_multiset(sort_findings_spec(s.drop_last()), s.last());
        assert(s =~= s.drop_last().push(s.last()));
    }
}

} // verus!

verus! {

/// A text the analysis can index: four positions per character, and one more,
/// fit in a `usize`.
pub open spec fn fits_in_index(text: Seq<char>) -> bool {
    4 * text.len() + 1 <= usize::MAX
}

/// `found` is what the rules report on a file with this text in `language`:
/// the outcome of `analyze_file` on the tree tree-sitter parses from it.
pub open spec fn file_explains<R: Rule>(
    rules: Seq<R>,
    config: Config,
    text: Seq<char>,
    language: Language,
    file: &str,
    found: Seq<FindingView>,
) -> bool {
    exists|src: SourceText, tree: SyntaxTree, runs: Seq<RunView>, cfgs: Seq<RuleConfig>|
        src.wf() && src.chars@ == text && tree.wf() && tree_of(tree, parsed_rows(text, language))
            && #[trigger] runs_explain(
            rules,
            config,
            &src,
            &tree,
            language,
            file,
            runs,
            cfgs,
            found,
        )
}

impl AnalysisResult {
    /// The outcome of analysing no file.
    pub fn new() -> (r: AnalysisResult)
        ensures
            r@.findings == Seq::<FindingView>::empty(),
            r@.files_scanned == 0,
            r@.files_skipped == 0,
            r@.parse_errors == Seq::<(Seq<char>, Seq<char>)>::empty(),
    {
        let r = AnalysisResult {
            findings: Vec::new(),
            files_scanned: 0,
            files_skipped: 0,
            parse_errors: Vec::new(),
        };
        assert(views(r.findings@) =~= Seq::<FindingView>::empty());
        assert(error_views(r.parse_errors@) =~= Seq::<(Seq<char>, Seq<char>)>::empty());
        r
    }

    /// The same outcome with its findings in report order.
    pub fn sorted(self) -> (r: AnalysisResult)
        ensures
            r@.findings == sort_findings_spec(self@.findings),
            r@.files_scanned == self@.files_scanned,
            r@.files_skipped == self@.files_skipped,
            r@.parse_errors == self@.parse_errors,
    {
        let findings = sort_findings(&self.findings);
        AnalysisResult {
            findings,
            files_scanned: self.files_scanned,
            files_skipped: self.files_skipped,
            parse_errors: self.parse_errors,
        }
    }
}

/// One file's step: it is counted once, as scanned or as skipped; findings
/// are only appended; a parse error is recorded only for a skipped file.
pub open spec fn file_step(before: ResultView, after: ResultView) -> bool {
    &&& after.files_scanned + after.files_skipped == before.files_scanned + before.files_skipped + 1
    &&& after.files_scanned >= before.files_scanned
    &&& after.files_skipped >= before.files_skipped
    &&& after.findings.len() >= before.findings.len()
    &&& after.findings.take(before.findings.len() as int) == before.findings
    &&& after.parse_errors.len() <= before.parse_errors.len() + (after.files_skipped - before.files_skipped)
    &&& after.findings.len() > before.findings.len() ==> after.files_scanned == before.files_scanned + 1
}

/// Over a run of files, each a step, every file is counted once, as scanned
/// or skipped; the findings only grow; and there are no more parse errors
/// than skipped files.
pub proof fn lemma_file_steps(views: Seq<ResultView>)
    requires
        views.len() > 0,
        forall|k: int| 0 <= k < views.len() - 1 ==> file_step(#[trigger] views[k], views[k + 1]),
    ensures
        views.last().files_scanned + views.last().files_skipped == views[0].files_scanned
            + views[0].files_skipped + views.len() - 1,
        views.last().parse_errors.len() <= views[0].parse_errors.len() + (views.last().files_skipped
            - views[0].files_skipped),
        views.last().files_skipped >= views[0].files_skipped,
        views.last().findings.len() >= views[0].findings.len(),
        views.last().findings.take(views[0].findings.len() as int) == views[0].findings,
    decreases views.len(),
{
    if views.len() > 1 {
        let d = views.drop_last();
        assert forall|k: int| 0 <= k < d.len() - 1 implies file_step(#[trigger] d[k], d[k + 1]) by {
            assert(d[k] == views[k] && d[k + 1] == views[k + 1]);
        }
        lemma_file_steps(d);
        let a = d.last();
        let b = views.last();
        assert(file_step(views[views.len() - 2], views[views.len() - 1]));
        assert(a == views[views.len() - 2]);
        assert(d[0] == views[0]);
        let n0 = views[0].findings.len() as int;
        assert(b.findings.take(n0) =~= b.findings.take(a.findings.len() as int).take(n0));
    }
}

/// A set of rules together with the configuration they run under.
pub struct Analyzer<R> {
    rules: Vec<R>,
    config: Config,
}

impl<R: Rule> Analyzer<R> {
    pub closed spec fn rules_view(&self) -> Seq<R> {
        self.rules@
    }

    pub closed spec fn config_view(&self) -> Config {
        self.config
    }

    pub fn new(rules: Vec<R>, config: Config) -> (r: Analyzer<R>)
        ensures
            r.rules_view() == rules@,
            r.config_view() == config,
    {
        Analyzer { rules, config }
    }

    /// The configuration the rules run under.
    pub fn config(&self) -> (r: &Config)
        ensures
            *r == self.config_view(),
    {
        &self.config
    }

    /// Adds one file to `result`. A file that could not be read or parsed is
    /// skipped, its error recorded; a text too long to index is skipped; any
    /// other file is analysed, its findings appended, and counted as scanned.
    pub fn add_file(
        &self,
        result: &mut AnalysisResult,
        file: &str,
        parsed: Result<(Language, String), ParseError>,
    )
        requires
            old(result).files_scanned < usize::MAX,
            old(result).files_skipped < usize::MAX,
        ensures
            file_step(old(result)@, final(result)@),
            match parsed {
                Err(e) => {
                    &&& final(result)@.findings == old(result)@.findings
                    &&& final(result)@.files_scanned == old(result)@.files_scanned
                    &&& final(result)@.files_skipped == old(result)@.files_skipped + 1
                    &&& final(result)@.parse_errors == old(result)@.parse_errors.push(
                        (file@, parse_error_text(e)),
                    )
                },
                Ok((language, text)) => {
                    &&& final(result)@.parse_errors == old(result)@.parse_errors
                    &&& if fits_in_index(text@) {
                        &&& final(result)@.files_scanned == old(result)@.files_scanned + 1
                        &&& final(result)@.files_skipped == old(result)@.files_skipped
                        &&& exists|found: Seq<FindingView>|
                            final(result)@.findings == old(result)@.findings + found
                                && #[trigger] file_explains(
                                self.rules_view(),
                                self.config_view(),
                                text@,
                                language,
                                file,
                                found,
                            )
                    } else {
                        &&& final(result)@.findings == old(result)@.findings
                        &&& final(result)@.files_scanned == old(result)@.files_scanned
                        &&& final(result)@.files_skipped == old(result)@.files_skipped + 1
                    }
                },
            },
    {
        match parsed {
            Err(e) => {
                let name = string_of(&chars_of(file));
                let ghost old_errors = result.parse_errors@;
                result.parse_errors.push((name, e));
                assert(error_views(result.parse_errors@) =~= error_views(old_errors).push(
                    (file@, parse_error_text(e)),
                ));
                result.files_skipped = result.files_skipped + 1;
                assert(result@.findings.take(old(result)@.findings.len() as int) =~= old(result)@.findings);
            },
            Ok((language, text)) => {
                let cs = chars_of(text.as_str());
                if cs.len() > (usize::MAX - 1) / 4 {
                    result.files_skipped = result.files_skipped + 1;
                    assert(result@.findings.take(old(result)@.findings.len() as int) =~= old(result)@.findings);
                } else {
                    let src = SourceText::new(text.as_str());
                    let st = syntax_tree(text.as_str(), language);
                    let mut found = analyze_file(&self.rules, &self.config, &src, &st, language, file);
                    let ghost fv = views(found@);
                    assert(file_explains(self.rules_view(), self.config_view(), text@, language, file, fv));
                    let ghost before = result.findings@;
                    result.findings.append(&mut found);
                    assert(views(result.findings@) =~= views(before) + fv);
                    result.files_scanned = result.files_scanned + 1;
                    assert(result@.findings.take(old(result)@.findings.len() as int) =~= old(result)@.findings);
                }
            },
        }
    }
}

} // verus!

verus! {

/// The finding carries the id and name of one of the rules.
pub open spec fn from_rule<R: Rule>(rules: Seq<R>, f: FindingView) -> bool {
    exists|k: int|
        0 <= k < rules.len() && f.rule_id == (#[trigger] rules[k]).spec_id() && f.rule_name
            == rules[k].spec_name()
}

proof fn lemma_combine_from_rules<R: Rule>(rules: Seq<R>, file: Seq<char>, runs: Seq<RunView>)
    requires
        runs.len() <= rules.len(),
        forall|k: int|
            0 <= k < runs.len() ==> (#[trigger] runs[k] matches RunView::Found(fs) ==> tagged(
                fs,
                rules[k].spec_id(),
                rules[k].spec_name(),
            )),
    ensures
        forall|i: int|
            0 <= i < combine(rules, file, runs).len() ==> from_rule(
                rules,
                #[trigger] combine(rules, file, runs)[i],
            ),
    decreases runs.len(),
{
    if runs.len() > 0 {
        let k = runs.len() - 1;
        let prev = runs.drop_last();
        assert forall|j: int| 0 <= j < prev.len() implies (#[trigger] prev[j] matches RunView::Found(fs)
            ==> tagged(fs, rules[j].spec_id(), rules[j].spec_name())) by {
            assert(prev[j] == runs[j]);
        }
        lemma_combine_from_rules(rules, file, prev);
        let c = combine(rules, file, prev);
        let t = run_findings(rules[k].spec_id(), rules[k].spec_name(), file, runs.last());
        assert(runs[k] == runs.last());
        assert(tagged(t, rules[k].spec_id(), rules[k].spec_name()));
        assert forall|i: int| 0 <= i < (c + t).len() implies from_rule(rules, #[trigger] (c + t)[i]) by {
            if i < c.len() {
                assert((c + t)[i] == c[i]);
            } else {
                assert((c + t)[i] == t[i - c.len()]);
                assert((c + t)[i].rule_id == rules[k].spec_id());
            }
        }
        assert(combine(rules, file, runs) == c + t);
    }
}

/// Every finding of a file's analysis comes from one of the rules: it carries
/// that rule's id and name (a rule that failed is reported under its own id
/// and name too).
pub proof fn lemma_findings_from_rules<R: Rule>(
    rules: Seq<R>,
    config: Config,
    source: &SourceText,
    tree: &SyntaxTree,
    language: Language,
    file: &str,
    runs: Seq<RunView>,
    cfgs: Seq<RuleConfig>,
    findings: Seq<FindingView>,
)
    requires
        runs_explain(rules, config, source, tree, language, file, runs, cfgs, findings),
    ensures
        forall|i: int| 0 <= i < findings.len() ==> from_rule(rules, #[trigger] findings[i]),
{
    assert forall|k: int| 0 <= k < runs.len() implies (#[trigger] runs[k] matches RunView::Found(fs)
        ==> tagged(fs, rules[k].spec_id(), rules[k].spec_name())) by {
        assert(run_fits(rules, k, config, source, tree, language, file, runs[k], &cfgs[k]));
    }
    lemma_combine_from_rules(rules, file@, runs);
}

} // verus!

verus! {

/// Rules that cannot fail give no failure finding: each run is skipped or
/// gives its rule's findings.
pub proof fn lemma_total_rules_never_fail<R: Rule>(
    rules: Seq<R>,
    config: Config,
    source: &SourceText,
    tree: &SyntaxTree,
    language: Language,
    file: &str,
    runs: Seq<RunView>,
    cfgs: Seq<RuleConfig>,
    findings: Seq<FindingView>,
)
    requires
        runs_explain(rules, config, source, tree, language, file, runs, cfgs, findings),
        forall|k: int| 0 <= k < rules.len() ==> (#[trigger] rules[k]).spec_total(),
    ensures
        forall|k: int| 0 <= k < runs.len() ==> !(#[trigger] runs[k] is Failed),
{
    assert forall|k: int| 0 <= k < runs.len() implies !(#[trigger] runs[k] is Failed) by {
        assert(run_fits(rules, k, config, source, tree, language, file, runs[k], &cfgs[k]));
        assert(rules[k].spec_total());
    }
}

} // verus!
