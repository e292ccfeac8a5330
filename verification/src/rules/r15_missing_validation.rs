//! R15: boundary functions (public API, HTTP handlers, module-level Python
//! functions) that divide by a parameter's length or index a parameter with a
//! variable, without any emptiness or bounds check in the function.

use vstd::prelude::*;
use crate::finding::{views, Finding, FindingView, Severity, finding_at_plain};
use crate::nav::{kind_in, strs};
use crate::parser::Language;
use crate::pieces::{before_any_exec, before_first_str};
use crate::rule::{append_findings, collect, lemma_collect_all, lemma_collect_step, AnalysisContext, Rule, RuleError, lemma_collect_tagged, tagged};
use crate::rules::r02_bloat::{parameter_kinds, parameter_list_kind};
use crate::rules::r16_self_validating_test::r16_function_kinds;
use crate::syntax::{text_at, node_text, walk, walk_order};
use crate::text::{
    before_any, before_first, chars_of, concat, contains, contains_exec, contains_str, eq_str,
    push_chars, push_str, slice_of, starts_with, starts_with_str, trim, trim_exec,
};
use crate::unicode::{parses_as_i64, parses_as_i64_exec};

verus! {

pub struct MissingInputValidation;

pub open spec fn handler_signals() -> Seq<Seq<char>> {
    seq![
        "@app.route"@, "@app.get"@, "@app.post"@, "@app.put"@, "@app.delete"@, "@router."@,
        "@Get"@, "@Post"@, "@Put"@, "@Delete"@, "@RequestMapping"@, "[HttpGet"@, "[HttpPost"@,
        "[Route"@, "@GetMapping"@, "@PostMapping"@, "req."@, "request."@, "req:"@, "request:"@,
        "handler"@, "Handler"@,
    ]
}

pub open spec fn guard_signals() -> Seq<Seq<char>> {
    seq![
        "is_empty()"@, "!is_empty"@, ".is_empty"@, "len() == 0"@, "len() >"@, "len() <"@,
        "is_none()"@, "is_some()"@, "is_ok()"@, "is_err()"@, "is_empty"@, "len(x) =="@,
        "len(x) >"@, "if not "@, "if len("@, ".length =="@, ".length >"@, ".length <"@,
        ".length === 0"@, "isNullOr"@, "isUndefined"@, "isNil"@, "if (!"@, "if (x =="@,
        "isNullOrEmpty"@, "isNullOrWhiteSpace"@,
    ]
}

pub open spec fn contains_any(t: Seq<char>, ps: Seq<Seq<char>>) -> bool {
    exists|k: int| 0 <= k < ps.len() && contains(t, #[trigger] ps[k])
}

/// A function that faces outside input: a Rust `pub fn`, an HTTP handler, or a
/// module-level Python `def`.
pub open spec fn is_boundary_function(ctx: AnalysisContext, i: int) -> bool {
    let n = ctx.tree.nodes@[i];
    let t = text_at(ctx.source.chars@, n);
    (ctx.language == Language::Rust && contains(t, "pub fn"@)) || contains_any(t, handler_signals())
        || (ctx.language == Language::Python && n.start_column == 0 && contains(t, "def "@))
}

/// A parameter's name: its text up to the first `:`, space or `=`.
pub open spec fn param_clean(t: Seq<char>) -> Seq<char> {
    before_any(t, seq![':', ' ', '='])
}

/// The parameter names among the children `ch[..k]` of a parameter list.
pub open spec fn list_params(ctx: AnalysisContext, ch: Seq<usize>, k: int) -> Seq<Seq<char>>
    decreases k,
{
    if k <= 0 || k > ch.len() {
        seq![]
    } else {
        let c = ch[k - 1];
        list_params(ctx, ch, k - 1) + if c < ctx.tree.nodes@.len() && parameter_kinds(
            ctx.language,
        ).contains(ctx.tree.nodes@[c as int].kind@) {
            seq![param_clean(text_at(ctx.source.chars@, ctx.tree.nodes@[c as int]))]
        } else {
            seq![]
        }
    }
}

/// The parameter names of every parameter list among the children `ch[..k]`.
pub open spec fn function_params(ctx: AnalysisContext, ch: Seq<usize>, k: int) -> Seq<Seq<char>>
    decreases k,
{
    if k <= 0 || k > ch.len() {
        seq![]
    } else {
        let c = ch[k - 1];
        function_params(ctx, ch, k - 1) + if c < ctx.tree.nodes@.len() && ctx.tree.nodes@[c as int].kind@
            == parameter_list_kind(ctx.language) {
            let gc = ctx.tree.nodes@[c as int].children@;
            list_params(ctx, gc, gc.len() as int)
        } else {
            seq![]
        }
    }
}

pub open spec fn param_names(ctx: AnalysisContext, i: int) -> Seq<Seq<char>> {
    let ch = ctx.tree.nodes@[i].children@;
    function_params(ctx, ch, ch.len() as int)
}

/// `body` divides by the length of `p`.
pub open spec fn divides_by_len(body: Seq<char>, p: Seq<char>) -> bool {
    let forms = seq![p + ".len()"@, p + ".length"@, "len("@ + p + ")"@];
    exists|k: int|
        0 <= k < 3 && (contains(body, "/ "@ + #[trigger] forms[k]) || contains(body, "/"@ + forms[k]))
}

/// Node `n` starts with `p[` and indexes with something other than an
/// integer constant.
pub open spec fn variable_index_at(ctx: AnalysisContext, n: int, p: Seq<char>) -> bool {
    let t = text_at(ctx.source.chars@, ctx.tree.nodes@[n]);
    let pre = p + "["@;
    starts_with(t, pre) && {
        let inner = trim(before_first(t.skip(pre.len() as int), "]"@));
        !(parses_as_i64(inner) || inner == "0"@) && inner.len() > 0
    }
}

pub open spec fn has_variable_index(ctx: AnalysisContext, i: int, p: Seq<char>) -> bool {
    let order = walk_order(ctx.tree.nodes@, i);
    exists|m: int| 0 <= m < order.len() && variable_index_at(ctx, #[trigger] order[m] as int, p)
}

/// The first parameter, from `params[k]` on, that the body divides by the
/// length of or indexes with a variable, with what it does.
pub open spec fn danger_from(ctx: AnalysisContext, i: int, params: Seq<Seq<char>>, k: int) -> Option<
    (Seq<char>, Seq<char>),
>
    decreases params.len() - k,
{
    if k < 0 || k >= params.len() {
        None
    } else {
        let body = text_at(ctx.source.chars@, ctx.tree.nodes@[i]);
        let p = params[k];
        if divides_by_len(body, p) {
            Some((p, "除以长度"@))
        } else if contains(body, p + "["@) && has_variable_index(ctx, i, p) {
            Some((p, "变量索引"@))
        } else {
            danger_from(ctx, i, params, k + 1)
        }
    }
}

pub open spec fn r15_message(p: Seq<char>, what: Seq<char>) -> Seq<char> {
    "边界函数对参数 "@ + p + " 无空值/越界校验即进行危险操作（"@ + what
        + "） | boundary function performs "@ + what + " on param "@ + p
        + " without empty/bounds validation"@
}

pub open spec fn r15_at(ctx: AnalysisContext) -> spec_fn(usize) -> Seq<FindingView> {
    |i: usize|
        {
            let params = param_names(ctx, i as int);
            let body = text_at(ctx.source.chars@, ctx.tree.nodes@[i as int]);
            if r16_function_kinds(ctx.language).contains(ctx.tree.nodes@[i as int].kind@)
                && is_boundary_function(ctx, i as int) && params.len() > 0 && !contains_any(
                body,
                guard_signals(),
            ) {
                match danger_from(ctx, i as int, params, 0) {
                    Some((p, what)) => seq![
                        finding_at_plain(
                            "R15"@,
                            "missing-input-validation"@,
                            Severity::Warning,
                            ctx.file_path@,
                            *ctx.tree,
                            i as int,
                            r15_message(p, what),
                        ),
                    ],
                    None => seq![],
                }
            } else {
                seq![]
            }
        }
}

pub fn contains_any_exec(t: &Vec<char>, ps: &[&str]) -> (r: bool)
    ensures
        r == contains_any(t@, strs(ps@)),
{
    let mut k: usize = 0;
    while k < ps.len()
        invariant
            k <= ps@.len(),
            forall|m: int| 0 <= m < k ==> !contains(t@, #[trigger] strs(ps@)[m]),
        decreases ps@.len() - k,
    {
        assert(strs(ps@)[k as int] == ps@[k as int]@);
        if contains_str(t, ps[k]) {
            return true;
        }
        k += 1;
    }
    false
}

fn is_boundary_exec(ctx: &AnalysisContext, i: usize) -> (r: bool)
    requires
        ctx.wf(),
        i < ctx.tree.nodes@.len(),
    ensures
        r == is_boundary_function(*ctx, i as int),
{
    let t = node_text(ctx.source, ctx.tree, i);
    let hs: &[&str] = &[
        "@app.route", "@app.get", "@app.post", "@app.put", "@app.delete", "@router.", "@Get", "@Post",
        "@Put", "@Delete", "@RequestMapping", "[HttpGet", "[HttpPost", "[Route", "@GetMapping",
        "@PostMapping", "req.", "request.", "req:", "request:", "handler", "Handler",
    ];
    assert(strs(hs@) =~= handler_signals());
    (ctx.language == Language::Rust && contains_str(&t, "pub fn")) || contains_any_exec(&t, hs) || (
    ctx.language == Language::Python && ctx.tree.nodes[i].start_column == 0 && contains_str(&t, "def "))
}

pub open spec fn char_views(v: Seq<Vec<char>>) -> Seq<Seq<char>> {
    v.map_values(|x: Vec<char>| x@)
}

fn param_names_exec(ctx: &AnalysisContext, i: usize) -> (r: Vec<Vec<char>>)
    requires
        ctx.wf(),
        i < ctx.tree.nodes@.len(),
    ensures
        char_views(r@) == param_names(*ctx, i as int),
{
    let pk: &[&str] = match ctx.language {
        Language::Rust | Language::CSharp => &["parameter"],
        Language::Python => &["identifier", "typed_parameter"],
        Language::TypeScript | Language::TypeScriptTsx => &["required_parameter", "optional_parameter"],
        Language::Java => &["formal_parameter"],
    };
    assert(strs(pk@) =~= parameter_kinds(ctx.language));
    let lk: &str = match ctx.language {
        Language::Rust | Language::Python => "parameters",
        Language::TypeScript | Language::TypeScriptTsx | Language::Java => "formal_parameters",
        Language::CSharp => "parameter_list",
    };
    assert(lk@ == parameter_list_kind(ctx.language));
    let seps: Vec<char> = vec![':', ' ', '='];
    assert(seps@ =~= seq![':', ' ', '=']);
    let nodes = &ctx.tree.nodes;
    let ch = &nodes[i].children;
    let mut out: Vec<Vec<char>> = Vec::new();
    let mut k: usize = 0;
    while k < ch.len()
        invariant
            ctx.wf(),
            nodes == &ctx.tree.nodes,
            i < nodes@.len(),
            ch == &nodes@[i as int].children,
            k <= ch@.len(),
            strs(pk@) == parameter_kinds(ctx.language),
            lk@ == parameter_list_kind(ctx.language),
            seps@ == seq![':', ' ', '='],
            char_views(out@) == function_params(*ctx, ch@, k as int),
        decreases ch@.len() - k,
    {
        let c = ch[k];
        let ghost before = char_views(out@);
        if c < nodes.len() && crate::syntax::kind_is(ctx.tree, c, lk) {
            let gc = &nodes[c].children;
            let mut j: usize = 0;
            while j < gc.len()
                invariant
                    ctx.wf(),
                    nodes == &ctx.tree.nodes,
                    c < nodes@.len(),
                    gc == &nodes@[c as int].children,
                    j <= gc@.len(),
                    strs(pk@) == parameter_kinds(ctx.language),
                    seps@ == seq![':', ' ', '='],
                    char_views(out@) == before + list_params(*ctx, gc@, j as int),
                decreases gc@.len() - j,
            {
                let x = gc[j];
                let ghost o = out@;
                if x < nodes.len() && kind_in(&nodes[x].kind, pk) {
                    let t = node_text(ctx.source, ctx.tree, x);
                    let clean = before_any_exec(&t, &seps);
                    out.push(clean);
                    assert(char_views(out@) =~= char_views(o).push(out@[o.len() as int]@));
                }
                assert(char_views(out@) =~= before + list_params(*ctx, gc@, j + 1));
                j += 1;
            }
        }
        assert(char_views(out@) =~= function_params(*ctx, ch@, k + 1));
        k += 1;
    }
    out
}

fn divides_by_len_exec(body: &Vec<char>, p: &Vec<char>) -> (r: bool)
    ensures
        r == divides_by_len(body@, p@),
{
    let mut f0 = p.clone();
    push_str(&mut f0, ".len()");
    let mut f1 = p.clone();
    push_str(&mut f1, ".length");
    let mut f2: Vec<char> = Vec::new();
    push_str(&mut f2, "len(");
    push_chars(&mut f2, p);
    push_str(&mut f2, ")");
    let ghost forms = seq![p@ + ".len()"@, p@ + ".length"@, "len("@ + p@ + ")"@];
    assert(f0@ == forms[0] && f1@ == forms[1] && f2@ == forms[2]);
    let mut a0: Vec<char> = Vec::new();
    push_str(&mut a0, "/ ");
    push_chars(&mut a0, &f0);
    let mut b0: Vec<char> = Vec::new();
    push_str(&mut b0, "/");
    push_chars(&mut b0, &f0);
    let mut a1: Vec<char> = Vec::new();
    push_str(&mut a1, "/ ");
    push_chars(&mut a1, &f1);
    let mut b1: Vec<char> = Vec::new();
    push_str(&mut b1, "/");
    push_chars(&mut b1, &f1);
    let mut a2: Vec<char> = Vec::new();
    push_str(&mut a2, "/ ");
    push_chars(&mut a2, &f2);
    let mut b2: Vec<char> = Vec::new();
    push_str(&mut b2, "/");
    push_chars(&mut b2, &f2);
    let r0 = contains_exec(body, &a0) || contains_exec(body, &b0);
    let r1 = contains_exec(body, &a1) || contains_exec(body, &b1);
    let r2 = contains_exec(body, &a2) || contains_exec(body, &b2);
    proof {
        if r0 {
            assert(contains(body@, "/ "@ + forms[0]) || contains(body@, "/"@ + forms[0]));
        }
        if r1 {
            assert(contains(body@, "/ "@ + forms[1]) || contains(body@, "/"@ + forms[1]));
        }
        if r2 {
            assert(contains(body@, "/ "@ + forms[2]) || contains(body@, "/"@ + forms[2]));
        }
        if divides_by_len(body@, p@) {
            let k = choose|k: int|
                0 <= k < 3 && (contains(body@, "/ "@ + #[trigger] forms[k]) || contains(
                    body@,
                    "/"@ + forms[k],
                ));
            assert(k == 0 || k == 1 || k == 2);
        }
    }
    r0 || r1 || r2
}

fn variable_index_at_exec(ctx: &AnalysisContext, n: usize, pre: &Vec<char>, p: &Vec<char>) -> (r: bool)
    requires
        ctx.wf(),
        n < ctx.tree.nodes@.len(),
        pre@ == p@ + "["@,
    ensures
        r == variable_index_at(*ctx, n as int, p@),
{
    let t = node_text(ctx.source, ctx.tree, n);
    if !crate::text::occurs_at_exec(&t, pre, 0) {
        return false;
    }
    let tl = t.len();
    let pl = pre.len();
    let rest = slice_of(&t, pl, tl);
    let head = before_first_str(&rest, "]");
    let inner = trim_exec(&head);
    !(parses_as_i64_exec(&inner) || eq_str(&inner, "0")) && inner.len() > 0
}

fn has_variable_index_exec(ctx: &AnalysisContext, i: usize, p: &Vec<char>) -> (r: bool)
    requires
        ctx.wf(),
        i < ctx.tree.nodes@.len(),
    ensures
        r == has_variable_index(*ctx, i as int, p@),
{
    let mut pre = p.clone();
    push_str(&mut pre, "[");
    let order = walk(ctx.tree, i);
    let mut k: usize = 0;
    while k < order.len()
        invariant
            ctx.wf(),
            order@ == walk_order(ctx.tree.nodes@, i as int),
            forall|m: int| 0 <= m < order@.len() ==> #[trigger] order@[m] < ctx.tree.nodes@.len(),
            pre@ == p@ + "["@,
            k <= order@.len(),
            forall|m: int| 0 <= m < k ==> !variable_index_at(*ctx, #[trigger] order@[m] as int, p@),
        decreases order@.len() - k,
    {
        if variable_index_at_exec(ctx, order[k], &pre, p) {
            return true;
        }
        k += 1;
    }
    false
}

fn danger_exec(ctx: &AnalysisContext, i: usize, params: &Vec<Vec<char>>) -> (r: Option<(Vec<char>, Vec<char>)>)
    requires
        ctx.wf(),
        i < ctx.tree.nodes@.len(),
    ensures
        match r {
            Some(d) => danger_from(*ctx, i as int, char_views(params@), 0) == Some((d.0@, d.1@)),
            None => danger_from(*ctx, i as int, char_views(params@), 0) is None,
        },
{
    let body = node_text(ctx.source, ctx.tree, i);
    let ghost pv = char_views(params@);
    let mut k: usize = 0;
    while k < params.len()
        invariant
            ctx.wf(),
            i < ctx.tree.nodes@.len(),
            body@ == text_at(ctx.source.chars@, ctx.tree.nodes@[i as int]),
            pv == char_views(params@),
            k <= params@.len(),
            danger_from(*ctx, i as int, pv, k as int) == danger_from(*ctx, i as int, pv, 0),
        decreases params@.len() - k,
    {
        let p = &params[k];
        assert(pv[k as int] == p@);
        if divides_by_len_exec(&body, p) {
            return Some((p.clone(), chars_of("除以长度")));
        }
        let mut pre = p.clone();
        push_str(&mut pre, "[");
        if contains_exec(&body, &pre) && has_variable_index_exec(ctx, i, p) {
            return Some((p.clone(), chars_of("变量索引")));
        }
        k += 1;
    }
    None
}

fn r15_node(ctx: &AnalysisContext, i: usize) -> (r: Vec<Finding>)
    requires
        ctx.wf(),
        i < ctx.tree.nodes@.len(),
    ensures
        views(r@) == (r15_at(*ctx))(i),
{
    let mut out: Vec<Finding> = Vec::new();
    let fk: &[&str] = match ctx.language {
        Language::Rust => &["function_item"],
        Language::Python => &["function_definition"],
        Language::TypeScript | Language::TypeScriptTsx => &["function_declaration", "method_definition"],
        Language::CSharp | Language::Java => &["method_declaration"],
    };
    assert(strs(fk@) =~= r16_function_kinds(ctx.language));
    if !kind_in(&ctx.tree.nodes[i].kind, fk) || !is_boundary_exec(ctx, i) {
        assert(views(out@) =~= Seq::<FindingView>::empty());
        return out;
    }
    let params = param_names_exec(ctx, i);
    if params.len() == 0 {
        assert(views(out@) =~= Seq::<FindingView>::empty());
        return out;
    }
    let body = node_text(ctx.source, ctx.tree, i);
    let gs: &[&str] = &[
        "is_empty()", "!is_empty", ".is_empty", "len() == 0", "len() >", "len() <", "is_none()",
        "is_some()", "is_ok()", "is_err()", "is_empty", "len(x) ==", "len(x) >", "if not ",
        "if len(", ".length ==", ".length >", ".length <", ".length === 0", "isNullOr",
        "isUndefined", "isNil", "if (!", "if (x ==", "isNullOrEmpty", "isNullOrWhiteSpace",
    ];
    assert(strs(gs@) =~= guard_signals());
    if contains_any_exec(&body, gs) {
        assert(views(out@) =~= Seq::<FindingView>::empty());
        return out;
    }
    match danger_exec(ctx, i, &params) {
        Some((p, what)) => {
            let mut m: Vec<char> = Vec::new();
            push_str(&mut m, "边界函数对参数 ");
            push_chars(&mut m, &p);
            push_str(&mut m, " 无空值/越界校验即进行危险操作（");
            push_chars(&mut m, &what);
            push_str(&mut m, "） | boundary function performs ");
            push_chars(&mut m, &what);
            push_str(&mut m, " on param ");
            push_chars(&mut m, &p);
            push_str(&mut m, " without empty/bounds validation");
            assert(m@ =~= r15_message(p@, what@));
            let f = Finding::at_node("R15", "missing-input-validation", Severity::Warning, ctx.file_path, ctx.tree, i, m);
            out.push(f);
            assert(views(out@) =~= seq![f@]);
        },
        None => {
            assert(views(out@) =~= Seq::<FindingView>::empty());
        },
    }
    out
}

impl MissingInputValidation {
    /// Every finding the rule reports carries its id and name.
    pub proof fn lemma_findings_tagged(&self, ctx: AnalysisContext)
        ensures
            tagged(self.spec_findings(ctx), self.spec_id(), self.spec_name()),
    {
        assert forall|n: usize| tagged(#[trigger] (r15_at(ctx))(n), self.spec_id(), self.spec_name()) by {}
        lemma_collect_tagged(walk_order(ctx.tree.nodes@, 0), r15_at(ctx), self.spec_id(), self.spec_name());
    }
}

impl Rule for MissingInputValidation {
    open spec fn spec_id(&self) -> Seq<char> {
        "R15"@
    }

    open spec fn spec_name(&self) -> Seq<char> {
        "missing-input-validation"@
    }

    open spec fn spec_severity(&self) -> Severity {
        Severity::Warning
    }

    open spec fn spec_total(&self) -> bool {
        true
    }

    open spec fn spec_languages(&self) -> Seq<Language> {
        seq![
            Language::Rust,
            Language::Python,
            Language::TypeScript,
            Language::TypeScriptTsx,
            Language::CSharp,
            Language::Java,
        ]
    }

    open spec fn spec_findings(&self, ctx: AnalysisContext) -> Seq<FindingView> {
        collect(walk_order(ctx.tree.nodes@, 0), r15_at(ctx))
    }

    fn id(&self) -> (r: &'static str) {
        "R15"
    }

    fn name(&self) -> (r: &'static str) {
        "missing-input-validation"
    }

    fn severity(&self) -> (r: Severity) {
        Severity::Warning
    }

    fn languages(&self) -> (r: &'static [Language]) {
        &[
            Language::Rust,
            Language::Python,
            Language::TypeScript,
            Language::TypeScriptTsx,
            Language::CSharp,
            Language::Java,
        ]
    }

    fn analyze(&self, ctx: &AnalysisContext) -> (r: Result<Vec<Finding>, RuleError>)
        ensures
            r is Ok,
    {
        proof {
            self.lemma_findings_tagged(*ctx);
        }
        let order = walk(ctx.tree, 0);
        let mut out: Vec<Finding> = Vec::new();
        let mut k: usize = 0;
        while k < order.len()
            invariant
                ctx.wf(),
                order@ == walk_order(ctx.tree.nodes@, 0),
                forall|m: int| 0 <= m < order@.len() ==> #[trigger] order@[m] < ctx.tree.nodes@.len(),
                k <= order@.len(),
                views(out@) == collect(order@.take(k as int), r15_at(*ctx)),
            decreases order@.len() - k,
        {
            proof {
                lemma_collect_step(order@, r15_at(*ctx), k as int);
            }
            let found = r15_node(ctx, order[k]);
            append_findings(&mut out, found);
            k += 1;
        }
        proof {
            lemma_collect_all(order@, r15_at(*ctx));
        }
        Ok(out)
    }
}

} // verus!
