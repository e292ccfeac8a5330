//! R02: structural bloat — functions that are too long, take too many
//! parameters or nest too deeply.

use vstd::prelude::*;
use crate::config::threshold_value;
use crate::finding::{views, Finding, FindingView, Severity, finding_at};
use crate::nav::{first_child_in, first_child_in_exec, kind_in, strs};
use crate::parser::Language;
use crate::rule::{append_findings, collect, lemma_collect_all, lemma_collect_has, lemma_collect_member, lemma_collect_step, AnalysisContext, Rule, RuleError, lemma_collect_tagged, tagged};
use crate::syntax::{lemma_walk_bounds, lemma_walk_covers, walk, walk_order, SyntaxNode, SyntaxTree};
use crate::text::push_str;
use crate::unicode::{decimal, decimal_exec, string_of};

verus! {

pub struct StructuralBloat {
    max_function_lines: i64,
}

impl StructuralBloat {
    pub closed spec fn default_max_lines(&self) -> i64 {
        self.max_function_lines
    }
}

impl Default for StructuralBloat {
    /// Functions longer than 50 lines are reported unless configured otherwise.
    fn default() -> (r: StructuralBloat)
        ensures
            r.default_max_lines() == 50,
    {
        StructuralBloat { max_function_lines: 50 }
    }
}

pub open spec fn function_kinds(l: Language) -> Seq<Seq<char>> {
    match l {
        Language::Rust => seq!["function_item"@],
        Language::Python => seq!["function_definition"@],
        Language::TypeScript | Language::TypeScriptTsx => seq![
            "function_declaration"@,
            "method_definition"@,
            "arrow_function"@,
        ],
        Language::CSharp | Language::Java => seq!["method_declaration"@, "constructor_declaration"@],
    }
}

pub open spec fn parameter_list_kind(l: Language) -> Seq<char> {
    match l {
        Language::Rust | Language::Python => "parameters"@,
        Language::TypeScript | Language::TypeScriptTsx | Language::Java => "formal_parameters"@,
        Language::CSharp => "parameter_list"@,
    }
}

pub open spec fn parameter_kinds(l: Language) -> Seq<Seq<char>> {
    match l {
        Language::Rust | Language::CSharp => seq!["parameter"@],
        Language::Python => seq!["identifier"@, "typed_parameter"@],
        Language::TypeScript | Language::TypeScriptTsx => seq![
            "required_parameter"@,
            "optional_parameter"@,
        ],
        Language::Java => seq!["formal_parameter"@],
    }
}

pub open spec fn nesting_kinds() -> Seq<Seq<char>> {
    seq![
        "if_statement"@,
        "if_expression"@,
        "match_expression"@,
        "for_statement"@,
        "while_statement"@,
        "loop_expression"@,
        "block"@,
        "try_statement"@,
        "catch_clause"@,
        "with_statement"@,
        "switch_statement"@,
    ]
}

/// Number of the children `ch[k..]` whose kind is one of `ks`.
pub open spec fn count_kinds(nodes: Seq<SyntaxNode>, ch: Seq<usize>, ks: Seq<Seq<char>>, k: int) -> nat
    decreases ch.len() - k,
{
    if k < 0 || k >= ch.len() {
        0
    } else {
        (if 0 <= ch[k] < nodes.len() && ks.contains(nodes[ch[k] as int].kind@) {
            1nat
        } else {
            0nat
        }) + count_kinds(nodes, ch, ks, k + 1)
    }
}

/// The parameters of function node `i`: those in its first parameter list.
pub open spec fn parameter_count(nodes: Seq<SyntaxNode>, i: int, l: Language) -> Option<nat> {
    match first_child_in(nodes, i, seq![parameter_list_kind(l)]) {
        Some(c) => Some(count_kinds(nodes, nodes[c as int].children@, parameter_kinds(l), 0)),
        None => None,
    }
}

pub open spec fn max_nat(a: nat, b: nat) -> nat {
    if a >= b {
        a
    } else {
        b
    }
}

/// The deepest count of nesting constructs on a path from node `i` (itself
/// included) down to a node of its subtree.
pub open spec fn nesting_depth(nodes: Seq<SyntaxNode>, i: int) -> nat
    decreases nodes.len() - i, 1int, 0int,
{
    if i < 0 || i >= nodes.len() {
        0
    } else {
        (if nesting_kinds().contains(nodes[i].kind@) {
            1nat
        } else {
            0nat
        }) + children_depth(nodes, i, 0)
    }
}

/// The deepest nesting below the children `k..` of node `i`.
pub open spec fn children_depth(nodes: Seq<SyntaxNode>, i: int, k: int) -> nat
    decreases nodes.len() - i, 0int, nodes[i].children@.len() - k,
{
    if i < 0 || i >= nodes.len() || k < 0 || k >= nodes[i].children@.len() {
        0
    } else {
        let c = nodes[i].children@[k] as int;
        max_nat(
            if i < c < nodes.len() {
                nesting_depth(nodes, c)
            } else {
                0
            },
            children_depth(nodes, i, k + 1),
        )
    }
}

pub open spec fn r02_message_lines(n: nat, max: nat) -> Seq<char> {
    "函数过长："@ + decimal(n) + " 行（上限 "@ + decimal(max) + "） | function too long: "@ + decimal(n)
        + " lines (max "@ + decimal(max) + ")"@
}

pub open spec fn r02_message_params(n: nat, max: nat) -> Seq<char> {
    "参数过多："@ + decimal(n) + " 个（上限 "@ + decimal(max) + "） | too many parameters: "@ + decimal(
        n,
    ) + " (max "@ + decimal(max) + ")"@
}

pub open spec fn r02_message_depth(n: nat, max: nat) -> Seq<char> {
    "嵌套过深："@ + decimal(n) + " 层（上限 "@ + decimal(max) + "） | nesting too deep: "@ + decimal(n)
        + " levels (max "@ + decimal(max) + ")"@
}

/// The three limits: function lines, nesting depth, parameters.
pub open spec fn r02_limits(ctx: AnalysisContext, default_lines: i64) -> (nat, nat, nat) {
    let ths = ctx.rule_config.thresholds@;
    (
        threshold_value(ths, "max_function_lines"@, default_lines) as usize as nat,
        threshold_value(ths, "max_nesting_depth"@, 4) as usize as nat,
        threshold_value(ths, "max_parameters"@, 5) as usize as nat,
    )
}

pub open spec fn r02_finding(ctx: AnalysisContext, i: int, msg: Seq<char>) -> FindingView {
    finding_at(
        "R02"@,
        "structural-bloat"@,
        Severity::Warning,
        ctx.file_path@,
        *ctx.tree,
        i,
        ctx.source.chars@,
        msg,
    )
}

/// The lines a node spans.
pub open spec fn node_lines(n: SyntaxNode) -> nat {
    (if n.end_row >= n.start_row {
        (n.end_row - n.start_row) as nat
    } else {
        0nat
    }) + 1
}

/// At a function node: too many lines, then too many parameters, then too deep.
pub open spec fn r02_at(ctx: AnalysisContext, default_lines: i64) -> spec_fn(usize) -> Seq<FindingView> {
    |i: usize|
        {
            let nodes = ctx.tree.nodes@;
            let n = nodes[i as int];
            let (max, max_nesting, max_params) = r02_limits(ctx, default_lines);
            if function_kinds(ctx.language).contains(n.kind@) {
                let lines = node_lines(n);
                let depth = nesting_depth(nodes, i as int);
                (if lines > max {
                    seq![r02_finding(ctx, i as int, r02_message_lines(lines, max))]
                } else {
                    seq![]
                }) + (match parameter_count(nodes, i as int, ctx.language) {
                    Some(p) => if p > max_params {
                        seq![r02_finding(ctx, i as int, r02_message_params(p, max_params))]
                    } else {
                        seq![]
                    },
                    None => seq![],
                }) + (if depth > max_nesting {
                    seq![r02_finding(ctx, i as int, r02_message_depth(depth, max_nesting))]
                } else {
                    seq![]
                })
            } else {
                seq![]
            }
        }
}

proof fn lemma_depth_bound(nodes: Seq<SyntaxNode>, i: int)
    ensures
        nesting_depth(nodes, i) <= nodes.len() - i || i < 0 || i >= nodes.len(),
        0 <= i < nodes.len() ==> nesting_depth(nodes, i) <= nodes.len() - i,
    decreases nodes.len() - i, 1int, 0int,
{
    if 0 <= i < nodes.len() {
        lemma_children_depth_bound(nodes, i, 0);
    }
}

proof fn lemma_children_depth_bound(nodes: Seq<SyntaxNode>, i: int, k: int)
    requires
        0 <= i < nodes.len(),
    ensures
        children_depth(nodes, i, k) + 1 <= nodes.len() - i,
    decreases nodes.len() - i, 0int, nodes[i].children@.len() - k,
{
    if 0 <= k < nodes[i].children@.len() {
        let c = nodes[i].children@[k] as int;
        if i < c < nodes.len() {
            lemma_depth_bound(nodes, c);
        }
        lemma_children_depth_bound(nodes, i, k + 1);
    }
}

fn nesting_kind_list() -> (r: &'static [&'static str])
    ensures
        strs(r@) == nesting_kinds(),
{
    let k: &'static [&'static str] = &[
        "if_statement",
        "if_expression",
        "match_expression",
        "for_statement",
        "while_statement",
        "loop_expression",
        "block",
        "try_statement",
        "catch_clause",
        "with_statement",
        "switch_statement",
    ];
    assert(strs(k@) =~= nesting_kinds());
    k
}

/// The nesting depth of every node, computed from the leaves up.
fn nesting_depths(tree: &SyntaxTree) -> (r: Vec<usize>)
    requires
        tree.wf(),
    ensures
        r@.len() == tree.nodes@.len(),
        forall|j: int| 0 <= j < r@.len() ==> #[trigger] r@[j] == nesting_depth(tree.nodes@, j),
{
    let nk = nesting_kind_list();
    let nodes = &tree.nodes;
    let n = nodes.len();
    let mut d: Vec<usize> = Vec::new();
    let mut z: usize = 0;
    while z < n
        invariant
            z <= n,
            d@.len() == z,
        decreases n - z,
    {
        d.push(0);
        z += 1;
    }
    let mut i: usize = n;
    while i > 0
        invariant
            tree.wf(),
            nodes == &tree.nodes,
            n == nodes@.len(),
            i <= n,
            d@.len() == n,
            strs(nk@) == nesting_kinds(),
            forall|j: int| i <= j < n ==> #[trigger] d@[j] == nesting_depth(nodes@, j),
        decreases i,
    {
        i -= 1;
        let ch = &nodes[i].children;
        let mut best: usize = 0;
        let mut k: usize = 0;
        while k < ch.len()
            invariant
                tree.wf(),
                nodes == &tree.nodes,
                n == nodes@.len(),
                i < n,
                ch == &nodes@[i as int].children,
                d@.len() == n,
                k <= ch@.len(),
                forall|j: int| i < j < n ==> #[trigger] d@[j] == nesting_depth(nodes@, j),
                max_nat(best as nat, children_depth(nodes@, i as int, k as int)) == children_depth(
                    nodes@,
                    i as int,
                    0,
                ),
            decreases ch@.len() - k,
        {
            let c = ch[k];
            assert(i < c < n);
            let dc = d[c];
            if dc > best {
                best = dc;
            }
            k += 1;
        }
        proof {
            lemma_children_depth_bound(nodes@, i as int, 0);
        }
        let here: usize = if kind_in(&nodes[i].kind, nk) {
            1
        } else {
            0
        };
        d.set(i, best + here);
    }
    d
}

fn count_parameters(tree: &SyntaxTree, c: usize, l: Language) -> (r: usize)
    requires
        tree.wf(),
        c < tree.nodes@.len(),
    ensures
        r == count_kinds(tree.nodes@, tree.nodes@[c as int].children@, parameter_kinds(l), 0),
{
    let ks: &[&str] = match l {
        Language::Rust | Language::CSharp => &["parameter"],
        Language::Python => &["identifier", "typed_parameter"],
        Language::TypeScript | Language::TypeScriptTsx => &["required_parameter", "optional_parameter"],
        Language::Java => &["formal_parameter"],
    };
    assert(strs(ks@) =~= parameter_kinds(l));
    let ch = &tree.nodes[c].children;
    let mut count: usize = 0;
    let cl = ch.len();
    let mut k: usize = cl;
    while k > 0
        invariant
            cl == ch@.len(),
            tree.wf(),
            c < tree.nodes@.len(),
            ch == &tree.nodes@[c as int].children,
            k <= ch@.len(),
            strs(ks@) == parameter_kinds(l),
            count <= ch@.len() - k,
            count == count_kinds(tree.nodes@, ch@, parameter_kinds(l), k as int),
        decreases k,
    {
        k -= 1;
        let x = ch[k];
        assert(c < x < tree.nodes@.len());
        assert(count + 1 <= cl);
        if kind_in(&tree.nodes[x].kind, ks) {
            count += 1;
        }
    }
    count
}

fn push_r02(out: &mut Vec<Finding>, ctx: &AnalysisContext, i: usize, msg: Vec<char>)
    requires
        ctx.wf(),
        i < ctx.tree.nodes@.len(),
    ensures
        views(final(out)@) == views(old(out)@) + seq![r02_finding(*ctx, i as int, msg@)],
{
    let f = Finding::new(
        "R02",
        "structural-bloat",
        Severity::Warning,
        ctx.file_path,
        ctx.tree,
        i,
        ctx.source,
        string_of(&msg),
    );
    let ghost before = out@;
    out.push(f);
    assert(views(out@) =~= views(before) + seq![f@]);
}

fn measure_message(head: &str, n: usize, mid: &str, max: usize, tail1: &str, tail2: &str) -> (r: Vec<char>)
    ensures
        r@ == head@ + decimal(n as nat) + mid@ + decimal(max as nat) + tail1@ + decimal(n as nat)
            + tail2@ + decimal(max as nat) + ")"@,
{
    let mut m: Vec<char> = Vec::new();
    push_str(&mut m, head);
    let dn = decimal_exec(n);
    let dm = decimal_exec(max);
    crate::text::push_chars(&mut m, &dn);
    push_str(&mut m, mid);
    crate::text::push_chars(&mut m, &dm);
    push_str(&mut m, tail1);
    crate::text::push_chars(&mut m, &dn);
    push_str(&mut m, tail2);
    crate::text::push_chars(&mut m, &dm);
    push_str(&mut m, ")");
    m
}

fn r02_node(
    ctx: &AnalysisContext,
    i: usize,
    default_lines: i64,
    depths: &Vec<usize>,
    limits: (usize, usize, usize),
) -> (r: Vec<Finding>)
    requires
        ctx.wf(),
        i < ctx.tree.nodes@.len(),
        depths@.len() == ctx.tree.nodes@.len(),
        forall|j: int| 0 <= j < depths@.len() ==> #[trigger] depths@[j] == nesting_depth(ctx.tree.nodes@, j),
        (limits.0 as nat, limits.1 as nat, limits.2 as nat) == r02_limits(*ctx, default_lines),
    ensures
        views(r@) == (r02_at(*ctx, default_lines))(i),
{
    let mut out: Vec<Finding> = Vec::new();
    let fk: &[&str] = match ctx.language {
        Language::Rust => &["function_item"],
        Language::Python => &["function_definition"],
        Language::TypeScript | Language::TypeScriptTsx => &[
            "function_declaration",
            "method_definition",
            "arrow_function",
        ],
        Language::CSharp | Language::Java => &["method_declaration", "constructor_declaration"],
    };
    assert(strs(fk@) =~= function_kinds(ctx.language));
    if !kind_in(&ctx.tree.nodes[i].kind, fk) {
        assert(views(out@) =~= Seq::<FindingView>::empty());
        return out;
    }
    let (max, max_nesting, max_params) = limits;
    let node = &ctx.tree.nodes[i];
    let lines: usize = if node.end_row >= node.start_row {
        node.end_row - node.start_row + 1
    } else {
        1
    };
    let ghost a = views(out@);
    if lines > max {
        let m = measure_message("函数过长：", lines, " 行（上限 ", max, "） | function too long: ", " lines (max ");
        assert(m@ =~= r02_message_lines(lines as nat, max as nat));
        push_r02(&mut out, ctx, i, m);
    }
    let ghost b = views(out@);
    let pk: &[&str] = match ctx.language {
        Language::Rust | Language::Python => &["parameters"],
        Language::TypeScript | Language::TypeScriptTsx | Language::Java => &["formal_parameters"],
        Language::CSharp => &["parameter_list"],
    };
    assert(strs(pk@) =~= seq![parameter_list_kind(ctx.language)]);
    match first_child_in_exec(ctx.tree, i, pk) {
        Some(c) => {
            let p = count_parameters(ctx.tree, c, ctx.language);
            if p > max_params {
                let m = measure_message("参数过多：", p, " 个（上限 ", max_params, "） | too many parameters: ", " (max ");
                assert(m@ =~= r02_message_params(p as nat, max_params as nat));
                push_r02(&mut out, ctx, i, m);
            }
        },
        None => {},
    }
    let ghost c3 = views(out@);
    let depth = depths[i];
    if depth > max_nesting {
        let m = measure_message("嵌套过深：", depth, " 层（上限 ", max_nesting, "） | nesting too deep: ", " levels (max ");
        assert(m@ =~= r02_message_depth(depth as nat, max_nesting as nat));
        push_r02(&mut out, ctx, i, m);
    }
    assert(views(out@) =~= (r02_at(*ctx, default_lines))(i));
    out
}

impl StructuralBloat {
    /// Every finding the rule reports carries its id and name.
    pub proof fn lemma_findings_tagged(&self, ctx: AnalysisContext)
        ensures
            tagged(self.spec_findings(ctx), self.spec_id(), self.spec_name()),
    {
        assert forall|n: usize| tagged(#[trigger] (r02_at(ctx, self.default_max_lines()))(n), self.spec_id(), self.spec_name()) by {}
        lemma_collect_tagged(walk_order(ctx.tree.nodes@, 0), r02_at(ctx, self.default_max_lines()), self.spec_id(), self.spec_name());
    }
}

/// What the finding at function node `i` says: too many lines, too many
/// parameters or too deep, each only past its limit.
pub open spec fn r02_explains(ctx: AnalysisContext, default_lines: i64, i: int, f: FindingView) -> bool {
    let nodes = ctx.tree.nodes@;
    let (max, max_nesting, max_params) = r02_limits(ctx, default_lines);
    &&& function_kinds(ctx.language).contains(nodes[i].kind@)
    &&& {
        ||| node_lines(nodes[i]) > max && f == r02_finding(ctx, i, r02_message_lines(node_lines(nodes[i]), max))
        ||| (parameter_count(nodes, i, ctx.language) matches Some(p) && p > max_params && f == r02_finding(
            ctx,
            i,
            r02_message_params(p, max_params),
        ))
        ||| nesting_depth(nodes, i) > max_nesting && f == r02_finding(
            ctx,
            i,
            r02_message_depth(nesting_depth(nodes, i), max_nesting),
        )
    }
}

impl StructuralBloat {
    /// Only function nodes past a limit are reported: each finding stands at
    /// a function node and names a measure of it that exceeds its limit.
    pub proof fn lemma_reports_only_functions_past_a_limit(&self, ctx: AnalysisContext, i: int)
        requires
            0 <= i < self.spec_findings(ctx).len(),
        ensures
            exists|n: usize|
                #![trigger ctx.tree.nodes@[n as int]]
                0 <= n < ctx.tree.nodes@.len() && r02_explains(
                    ctx,
                    self.default_max_lines(),
                    n as int,
                    self.spec_findings(ctx)[i],
                ),
    {
        let order = walk_order(ctx.tree.nodes@, 0);
        let f = r02_at(ctx, self.default_max_lines());
        lemma_collect_member(order, f, i);
        let (k, j) = choose|k: int, j: int|
            0 <= k < order.len() && 0 <= j < f(order[k]).len() && collect(order, f)[i] == #[trigger] f(
                order[k],
            )[j];
        let n = order[k];
        assert(ctx.tree.nodes.len() == ctx.tree.nodes@.len());
        lemma_walk_bounds(ctx.tree.nodes@, 0);
        assert(n < ctx.tree.nodes@.len());
        assert(f(n).len() > 0);
        assert(r02_explains(ctx, self.default_max_lines(), n as int, self.spec_findings(ctx)[i]));
        assert(ctx.tree.nodes@[n as int] == ctx.tree.nodes@[n as int]);
    }

    /// Every function node longer than the line limit is reported as too long.
    pub proof fn lemma_reports_every_long_function(&self, ctx: AnalysisContext, n: int)
        requires
            ctx.tree.wf(),
            0 <= n < ctx.tree.nodes@.len(),
            function_kinds(ctx.language).contains(ctx.tree.nodes@[n].kind@),
            node_lines(ctx.tree.nodes@[n]) > r02_limits(ctx, self.default_max_lines()).0,
        ensures
            self.spec_findings(ctx).contains(
                r02_finding(
                    ctx,
                    n,
                    r02_message_lines(
                        node_lines(ctx.tree.nodes@[n]),
                        r02_limits(ctx, self.default_max_lines()).0,
                    ),
                ),
            ),
    {
        let order = walk_order(ctx.tree.nodes@, 0);
        let f = r02_at(ctx, self.default_max_lines());
        assert(ctx.tree.nodes.len() == ctx.tree.nodes@.len());
        lemma_walk_covers(*ctx.tree, n);
        let k = choose|k: int| 0 <= k < order.len() && order[k] == n as usize;
        assert(order[k] as int == n);
        assert(f(order[k])[0] == r02_finding(
            ctx,
            n,
            r02_message_lines(node_lines(ctx.tree.nodes@[n]), r02_limits(ctx, self.default_max_lines()).0),
        ));
        lemma_collect_has(order, f, k, 0);
    }
}

impl Rule for StructuralBloat {
    open spec fn spec_id(&self) -> Seq<char> {
        "R02"@
    }

    open spec fn spec_name(&self) -> Seq<char> {
        "structural-bloat"@
    }

    open spec fn spec_severity(&self) -> Severity {
        Severity::Warning
    }

    open spec fn spec_total(&self) -> bool {
        true
    }

    open spec fn spec_languages(&self) -> Seq<Language> {
        seq![
            Language::Rust,
            Language::Python,
            Language::TypeScript,
            Language::TypeScriptTsx,
            Language::CSharp,
            Language::Java,
        ]
    }

    /// Every function node, in walk order, checked for length, parameters
    /// and nesting against the configured limits.
    open spec fn spec_findings(&self, ctx: AnalysisContext) -> Seq<FindingView> {
        collect(walk_order(ctx.tree.nodes@, 0), r02_at(ctx, self.default_max_lines()))
    }

    fn id(&self) -> (r: &'static str) {
        "R02"
    }

    fn name(&self) -> (r: &'static str) {
        "structural-bloat"
    }

    fn severity(&self) -> (r: Severity) {
        Severity::Warning
    }

    fn languages(&self) -> (r: &'static [Language]) {
        &[
            Language::Rust,
            Language::Python,
            Language::TypeScript,
            Language::TypeScriptTsx,
            Language::CSharp,
            Language::Java,
        ]
    }

    fn analyze(&self, ctx: &AnalysisContext) -> (r: Result<Vec<Finding>, RuleError>)
        ensures
            r is Ok,
    {
        proof {
            self.lemma_findings_tagged(*ctx);
        }
        let max = ctx.rule_config.threshold_i64("max_function_lines", self.max_function_lines) as usize;
        let max_nesting = ctx.rule_config.threshold_i64("max_nesting_depth", 4) as usize;
        let max_params = ctx.rule_config.threshold_i64("max_parameters", 5) as usize;
        let depths = nesting_depths(ctx.tree);
        let order = walk(ctx.tree, 0);
        let mut out: Vec<Finding> = Vec::new();
        let mut k: usize = 0;
        while k < order.len()
            invariant
                ctx.wf(),
                order@ == walk_order(ctx.tree.nodes@, 0),
                forall|m: int| 0 <= m < order@.len() ==> #[trigger] order@[m] < ctx.tree.nodes@.len(),
                depths@.len() == ctx.tree.nodes@.len(),
                forall|j: int| 0 <= j < depths@.len() ==> #[trigger] depths@[j] == nesting_depth(ctx.tree.nodes@, j),
                (max as nat, max_nesting as nat, max_params as nat) == r02_limits(*ctx, self.max_function_lines),
                k <= order@.len(),
                views(out@) == collect(order@.take(k as int), r02_at(*ctx, self.max_function_lines)),
            decreases order@.len() - k,
        {
            proof {
                lemma_collect_step(order@, r02_at(*ctx, self.max_function_lines), k as int);
            }
            let found = r02_node(ctx, order[k], self.max_function_lines, &depths, (max, max_nesting, max_params));
            append_findings(&mut out, found);
            k += 1;
        }
        proof {
            lemma_collect_all(order@, r02_at(*ctx, self.max_function_lines));
        }
        Ok(out)
    }
}

} // verus!
