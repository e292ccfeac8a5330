//! R16: self-validating tests — a test named after the method alone (no
//! behaviour such as `_when_`/`_should_`), or a test that reads a private
//! member (`self._x`, `this.__x`) of the unit under test.

use vstd::prelude::*;
use crate::ast::is_word_char_exec;
use crate::ast::is_word_char;
use crate::finding::{views, Finding, FindingView, Severity, finding_at_plain};
use crate::nav::{first_child_in, first_child_in_exec, kind_in, strs};
use crate::parser::Language;
use crate::pieces::{before_any_exec, strip_prefix_or_keep_str};
use crate::rule::{append_findings, collect, lemma_collect_all, lemma_collect_step, AnalysisContext, Rule, RuleError, lemma_collect_tagged, tagged};
use crate::syntax::{index_in, index_in_exec, kind_is, lemma_index_in_bound, text_at, node_text, walk, walk_order, SyntaxNode};
use crate::text::{
    before_any, chars_of, contains, contains_str, ends_with, ends_with_str, eq_str, push_chars,
    push_str, starts_with, starts_with_str,
};
use crate::unicode::{lowercase, to_lowercase};

verus! {

pub struct SelfValidatingTest;

pub open spec fn r16_function_kinds(l: Language) -> Seq<Seq<char>> {
    match l {
        Language::Rust => seq!["function_item"@],
        Language::Python => seq!["function_definition"@],
        Language::TypeScript | Language::TypeScriptTsx => seq![
            "function_declaration"@,
            "method_definition"@,
        ],
        Language::CSharp | Language::Java => seq!["method_declaration"@],
    }
}

/// Words that say what behaviour a test checks.
pub open spec fn behavior_signals() -> Seq<Seq<char>> {
    seq![
        "_when"@, "_if"@, "_given"@, "_should"@, "_with"@, "_for"@, "_on_"@, "_returns"@,
        "_throws"@, "_fails"@, "_succeeds"@, "_is"@, "_has"@, "_finds"@, "_skips"@, "_returns"@,
        "_has"@, "_does"@, "_not_"@, "_flagged"@, "_count"@, "_all"@, "_multiple"@, "_errors"@,
        "when"@, "should"@, "given"@, "if_"@,
    ]
}

/// A test name that starts or ends with `test` (any case: `test_foo`,
/// `testFoo`, `fooTest`) and names no behaviour.
pub open spec fn has_vague_name(name: Seq<char>) -> bool {
    let lower = lowercase(name);
    (starts_with(lower, "test"@) || ends_with(lower, "test"@)) && forall|k: int|
        0 <= k < behavior_signals().len() ==> !contains(lower, #[trigger] behavior_signals()[k])
}

/// The text of the first `identifier` child of node `i`, else empty.
pub open spec fn function_name(ctx: AnalysisContext, i: int) -> Seq<char> {
    match first_child_in(ctx.tree.nodes@, i, seq!["identifier"@]) {
        Some(c) => text_at(ctx.source.chars@, ctx.tree.nodes@[c as int]),
        None => seq![],
    }
}

/// Scanning back over the siblings `ch[..=j]` while they are attributes:
/// one of them is `#[test]` or `#[tokio::test]`.
pub open spec fn test_attribute_before(ctx: AnalysisContext, ch: Seq<usize>, j: int) -> bool
    decreases j + 1,
{
    if j < 0 || j >= ch.len() || ch[j] >= ctx.tree.nodes@.len() {
        false
    } else {
        let s = ctx.tree.nodes@[ch[j] as int];
        if s.kind@ == "attribute_item"@ {
            let t = text_at(ctx.source.chars@, s);
            if contains(t, "#[test]"@) || contains(t, "#[tokio::test]"@) {
                true
            } else {
                test_attribute_before(ctx, ch, j - 1)
            }
        } else {
            false
        }
    }
}

/// A Rust function preceded by a test attribute.
pub open spec fn rust_test_attr(ctx: AnalysisContext, i: int) -> bool {
    let nodes = ctx.tree.nodes@;
    match nodes[i].parent {
        Some(p) => if p < nodes.len() {
            match index_in(nodes[p as int].children@, i as usize) {
                Some(j) => test_attribute_before(ctx, nodes[p as int].children@, j - 1),
                None => false,
            }
        } else {
            false
        },
        None => false,
    }
}

pub open spec fn is_test_function(ctx: AnalysisContext, i: int) -> bool {
    match ctx.language {
        Language::Rust => rust_test_attr(ctx, i),
        Language::Python => starts_with(function_name(ctx, i), "test_"@),
        Language::TypeScript | Language::TypeScriptTsx => {
            let name = function_name(ctx, i);
            starts_with(name, "test"@) || starts_with(name, "it_"@) || name == "it"@
        },
        Language::CSharp | Language::Java => {
            let t = text_at(ctx.source.chars@, ctx.tree.nodes@[i]);
            contains(t, "@Test"@) || contains(t, "[Test]"@) || contains(t, "[TestMethod]"@)
        },
    }
}

/// What follows a private-member prefix (`self._`, `self.__`, `this._`,
/// `this.__`, the first that matches).
pub open spec fn after_private_prefix(t: Seq<char>) -> Option<Seq<char>> {
    if starts_with(t, "self._"@) {
        Some(t.skip(6))
    } else if starts_with(t, "self.__"@) {
        Some(t.skip(7))
    } else if starts_with(t, "this._"@) {
        Some(t.skip(6))
    } else if starts_with(t, "this.__"@) {
        Some(t.skip(7))
    } else {
        None
    }
}

pub open spec fn member_separators() -> Seq<char> {
    seq![' ', '.', ';', ',', '(', ')']
}

pub open spec fn all_word_chars(s: Seq<char>) -> bool {
    forall|k: int| 0 <= k < s.len() ==> is_word_char(#[trigger] s[k])
}

/// The private member a node's text starts by reading, if any.
pub open spec fn member_at(ctx: AnalysisContext, n: int) -> Option<Seq<char>> {
    match after_private_prefix(text_at(ctx.source.chars@, ctx.tree.nodes@[n])) {
        Some(rest) => {
            let m = before_any(rest, member_separators());
            if m.len() > 0 && all_word_chars(m) {
                Some(m)
            } else {
                None
            }
        },
        None => None,
    }
}

/// The first private member read among the nodes `order[k..]`.
pub open spec fn first_member(ctx: AnalysisContext, order: Seq<usize>, k: int) -> Option<Seq<char>>
    decreases order.len() - k,
{
    if k < 0 || k >= order.len() {
        None
    } else {
        match member_at(ctx, order[k] as int) {
            Some(m) => Some(m),
            None => first_member(ctx, order, k + 1),
        }
    }
}

pub open spec fn r16_vague_message(name: Seq<char>) -> Seq<char> {
    "测试名 '"@ + name
        + "' 只描述方法未描述行为（建议加 _when_/_should_ 等行为后缀） | test '"@ + name
        + "' name describes method not behavior (add _when_/_should_ suffix)"@
}

pub open spec fn r16_private_message(m: Seq<char>) -> Seq<char> {
    "测试访问被测单元的私有成员 '"@ + m + "'，可能只验证实现内部状态 | test accesses private member '"@
        + m + "' of unit under test"@
}

pub open spec fn r16_finding(ctx: AnalysisContext, i: int, msg: Seq<char>) -> FindingView {
    finding_at_plain(
        "R16"@,
        "self-validating-test"@,
        Severity::Warning,
        ctx.file_path@,
        *ctx.tree,
        i,
        msg,
    )
}

/// A test function with a vague name, else one that reads a private member.
pub open spec fn r16_at(ctx: AnalysisContext) -> spec_fn(usize) -> Seq<FindingView> {
    |i: usize|
        if r16_function_kinds(ctx.language).contains(ctx.tree.nodes@[i as int].kind@)
            && is_test_function(ctx, i as int) {
            let name = function_name(ctx, i as int);
            if has_vague_name(name) {
                seq![r16_finding(ctx, i as int, r16_vague_message(name))]
            } else {
                match first_member(ctx, walk_order(ctx.tree.nodes@, i as int), 0) {
                    Some(m) => seq![r16_finding(ctx, i as int, r16_private_message(m))],
                    None => seq![],
                }
            }
        } else {
            seq![]
        }
}

fn has_vague_name_exec(name: &Vec<char>) -> (r: bool)
    ensures
        r == has_vague_name(name@),
{
    let lower = to_lowercase(name);
    if !starts_with_str(&lower, "test") && !ends_with_str(&lower, "test") {
        return false;
    }
    let sig: &[&str] = &[
        "_when", "_if", "_given", "_should", "_with", "_for", "_on_", "_returns", "_throws",
        "_fails", "_succeeds", "_is", "_has", "_finds", "_skips", "_returns", "_has", "_does",
        "_not_", "_flagged", "_count", "_all", "_multiple", "_errors", "when", "should", "given",
        "if_",
    ];
    assert(strs(sig@) =~= behavior_signals());
    let mut k: usize = 0;
    while k < sig.len()
        invariant
            k <= sig@.len(),
            strs(sig@) == behavior_signals(),
            lower@ == lowercase(name@),
            forall|m: int| 0 <= m < k ==> !contains(lower@, #[trigger] behavior_signals()[m]),
        decreases sig@.len() - k,
    {
        assert(behavior_signals()[k as int] == sig@[k as int]@);
        if contains_str(&lower, sig[k]) {
            return false;
        }
        k += 1;
    }
    true
}

pub fn function_name_exec(ctx: &AnalysisContext, i: usize) -> (r: Vec<char>)
    requires
        ctx.wf(),
        i < ctx.tree.nodes@.len(),
    ensures
        r@ == function_name(*ctx, i as int),
{
    let ks: &[&str] = &["identifier"];
    assert(strs(ks@) =~= seq!["identifier"@]);
    match first_child_in_exec(ctx.tree, i, ks) {
        Some(c) => node_text(ctx.source, ctx.tree, c),
        None => Vec::new(),
    }
}

pub fn rust_test_attr_exec(ctx: &AnalysisContext, i: usize) -> (r: bool)
    requires
        ctx.wf(),
        i < ctx.tree.nodes@.len(),
    ensures
        r == rust_test_attr(*ctx, i as int),
{
    let nodes = &ctx.tree.nodes;
    match nodes[i].parent {
        Some(p) => {
            if p >= nodes.len() {
                return false;
            }
            let ch = &nodes[p].children;
            match index_in_exec(ch, i) {
                Some(j) => {
                    proof {
                        lemma_index_in_bound(ch@, i);
                    }
                    let mut k: usize = j;
                    while k > 0
                        invariant
                            ctx.wf(),
                            nodes == &ctx.tree.nodes,
                            p < nodes@.len(),
                            nodes@[i as int].parent == Some(p),
                            index_in(nodes@[p as int].children@, i) == Some(j as int),
                            ch == &nodes@[p as int].children,
                            k <= j < ch@.len(),
                            test_attribute_before(*ctx, ch@, k - 1) == test_attribute_before(
                                *ctx,
                                ch@,
                                j - 1,
                            ),
                        decreases k,
                    {
                        let s = ch[k - 1];
                        if s >= nodes.len() {
                            return false;
                        }
                        if !kind_is(ctx.tree, s, "attribute_item") {
                            return false;
                        }
                        let t = node_text(ctx.source, ctx.tree, s);
                        if contains_str(&t, "#[test]") || contains_str(&t, "#[tokio::test]") {
                            return true;
                        }
                        k -= 1;
                    }
                    false
                },
                None => false,
            }
        },
        None => false,
    }
}

fn is_test_function_exec(ctx: &AnalysisContext, i: usize) -> (r: bool)
    requires
        ctx.wf(),
        i < ctx.tree.nodes@.len(),
    ensures
        r == is_test_function(*ctx, i as int),
{
    match ctx.language {
        Language::Rust => rust_test_attr_exec(ctx, i),
        Language::Python => {
            let name = function_name_exec(ctx, i);
            starts_with_str(&name, "test_")
        },
        Language::TypeScript | Language::TypeScriptTsx => {
            let name = function_name_exec(ctx, i);
            starts_with_str(&name, "test") || starts_with_str(&name, "it_") || eq_str(&name, "it")
        },
        Language::CSharp | Language::Java => {
            let t = node_text(ctx.source, ctx.tree, i);
            contains_str(&t, "@Test") || contains_str(&t, "[Test]") || contains_str(&t, "[TestMethod]")
        },
    }
}

fn member_at_exec(ctx: &AnalysisContext, n: usize) -> (r: Option<Vec<char>>)
    requires
        ctx.wf(),
        n < ctx.tree.nodes@.len(),
    ensures
        match r {
            Some(v) => member_at(*ctx, n as int) == Some(v@),
            None => member_at(*ctx, n as int) is None,
        },
{
    let t = node_text(ctx.source, ctx.tree, n);
    let tl = t.len();
    proof {
        reveal_strlit("self._");
        reveal_strlit("self.__");
        reveal_strlit("this._");
        reveal_strlit("this.__");
    }
    let rest = if starts_with_str(&t, "self._") {
        crate::text::slice_of(&t, 6, tl)
    } else if starts_with_str(&t, "self.__") {
        crate::text::slice_of(&t, 7, tl)
    } else if starts_with_str(&t, "this._") {
        crate::text::slice_of(&t, 6, tl)
    } else if starts_with_str(&t, "this.__") {
        crate::text::slice_of(&t, 7, tl)
    } else {
        return None;
    };
    assert(after_private_prefix(t@) == Some(rest@));
    let seps: Vec<char> = vec![' ', '.', ';', ',', '(', ')'];
    assert(seps@ =~= member_separators());
    let m = before_any_exec(&rest, &seps);
    if m.len() == 0 {
        return None;
    }
    let mut k: usize = 0;
    while k < m.len()
        invariant
            k <= m@.len(),
            m@.len() > 0,
            t@ == text_at(ctx.source.chars@, ctx.tree.nodes@[n as int]),
            after_private_prefix(t@) == Some(rest@),
            m@ == before_any(rest@, member_separators()),
            forall|q: int| 0 <= q < k ==> is_word_char(#[trigger] m@[q]),
        decreases m@.len() - k,
    {
        if !is_word_char_exec(m[k]) {
            assert(!all_word_chars(m@));
            return None;
        }
        k += 1;
    }
    Some(m)
}

fn first_member_exec(ctx: &AnalysisContext, i: usize) -> (r: Option<Vec<char>>)
    requires
        ctx.wf(),
        i < ctx.tree.nodes@.len(),
    ensures
        match r {
            Some(v) => first_member(*ctx, walk_order(ctx.tree.nodes@, i as int), 0) == Some(v@),
            None => first_member(*ctx, walk_order(ctx.tree.nodes@, i as int), 0) is None,
        },
{
    let order = walk(ctx.tree, i);
    let mut k: usize = 0;
    while k < order.len()
        invariant
            ctx.wf(),
            order@ == walk_order(ctx.tree.nodes@, i as int),
            forall|m: int| 0 <= m < order@.len() ==> #[trigger] order@[m] < ctx.tree.nodes@.len(),
            k <= order@.len(),
            first_member(*ctx, order@, k as int) == first_member(*ctx, order@, 0),
        decreases order@.len() - k,
    {
        match member_at_exec(ctx, order[k]) {
            Some(m) => {
                return Some(m);
            },
            None => {},
        }
        k += 1;
    }
    None
}

fn r16_node(ctx: &AnalysisContext, i: usize) -> (r: Vec<Finding>)
    requires
        ctx.wf(),
        i < ctx.tree.nodes@.len(),
    ensures
        views(r@) == (r16_at(*ctx))(i),
{
    let mut out: Vec<Finding> = Vec::new();
    let fk: &[&str] = match ctx.language {
        Language::Rust => &["function_item"],
        Language::Python => &["function_definition"],
        Language::TypeScript | Language::TypeScriptTsx => &["function_declaration", "method_definition"],
        Language::CSharp | Language::Java => &["method_declaration"],
    };
    assert(strs(fk@) =~= r16_function_kinds(ctx.language));
    if !kind_in(&ctx.tree.nodes[i].kind, fk) || !is_test_function_exec(ctx, i) {
        assert(views(out@) =~= Seq::<FindingView>::empty());
        return out;
    }
    let name = function_name_exec(ctx, i);
    if has_vague_name_exec(&name) {
        let mut m: Vec<char> = Vec::new();
        push_str(&mut m, "测试名 '");
        push_chars(&mut m, &name);
        push_str(&mut m, "' 只描述方法未描述行为（建议加 _when_/_should_ 等行为后缀） | test '");
        push_chars(&mut m, &name);
        push_str(&mut m, "' name describes method not behavior (add _when_/_should_ suffix)");
        assert(m@ =~= r16_vague_message(name@));
        let f = Finding::at_node("R16", "self-validating-test", Severity::Warning, ctx.file_path, ctx.tree, i, m);
        out.push(f);
        assert(views(out@) =~= seq![f@]);
        return out;
    }
    match first_member_exec(ctx, i) {
        Some(mem) => {
            let mut m: Vec<char> = Vec::new();
            push_str(&mut m, "测试访问被测单元的私有成员 '");
            push_chars(&mut m, &mem);
            push_str(&mut m, "'，可能只验证实现内部状态 | test accesses private member '");
            push_chars(&mut m, &mem);
            push_str(&mut m, "' of unit under test");
            assert(m@ =~= r16_private_message(mem@));
            let f = Finding::at_node("R16", "self-validating-test", Severity::Warning, ctx.file_path, ctx.tree, i, m);
            out.push(f);
            assert(views(out@) =~= seq![f@]);
        },
        None => {
            assert(views(out@) =~= Seq::<FindingView>::empty());
        },
    }
    out
}

impl SelfValidatingTest {
    /// Every finding the rule reports carries its id and name.
    pub proof fn lemma_findings_tagged(&self, ctx: AnalysisContext)
        ensures
            tagged(self.spec_findings(ctx), self.spec_id(), self.spec_name()),
    {
        assert forall|n: usize| tagged(#[trigger] (r16_at(ctx))(n), self.spec_id(), self.spec_name()) by {}
        lemma_collect_tagged(walk_order(ctx.tree.nodes@, 0), r16_at(ctx), self.spec_id(), self.spec_name());
    }
}

impl Rule for SelfValidatingTest {
    open spec fn spec_id(&self) -> Seq<char> {
        "R16"@
    }

    open spec fn spec_name(&self) -> Seq<char> {
        "self-validating-test"@
    }

    open spec fn spec_severity(&self) -> Severity {
        Severity::Warning
    }

    open spec fn spec_total(&self) -> bool {
        true
    }

    open spec fn spec_languages(&self) -> Seq<Language> {
        seq![
            Language::Rust,
            Language::Python,
            Language::TypeScript,
            Language::TypeScriptTsx,
            Language::CSharp,
            Language::Java,
        ]
    }

    open spec fn spec_findings(&self, ctx: AnalysisContext) -> Seq<FindingView> {
        collect(walk_order(ctx.tree.nodes@, 0), r16_at(ctx))
    }

    fn id(&self) -> (r: &'static str) {
        "R16"
    }

    fn name(&self) -> (r: &'static str) {
        "self-validating-test"
    }

    fn severity(&self) -> (r: Severity) {
        Severity::Warning
    }

    fn languages(&self) -> (r: &'static [Language]) {
        &[
            Language::Rust,
            Language::Python,
            Language::TypeScript,
            Language::TypeScriptTsx,
            Language::CSharp,
            Language::Java,
        ]
    }

    fn analyze(&self, ctx: &AnalysisContext) -> (r: Result<Vec<Finding>, RuleError>)
        ensures
            r is Ok,
    {
        proof {
            self.lemma_findings_tagged(*ctx);
        }
        let order = walk(ctx.tree, 0);
        let mut out: Vec<Finding> = Vec::new();
        let mut k: usize = 0;
        while k < order.len()
            invariant
                ctx.wf(),
                order@ == walk_order(ctx.tree.nodes@, 0),
                forall|m: int| 0 <= m < order@.len() ==> #[trigger] order@[m] < ctx.tree.nodes@.len(),
                k <= order@.len(),
                views(out@) == collect(order@.take(k as int), r16_at(*ctx)),
            decreases order@.len() - k,
        {
            proof {
                lemma_collect_step(order@, r16_at(*ctx), k as int);
            }
            let found = r16_node(ctx, order[k]);
            append_findings(&mut out, found);
            k += 1;
        }
        proof {
            lemma_collect_all(order@, r16_at(*ctx));
        }
        Ok(out)
    }
}

} // verus!
