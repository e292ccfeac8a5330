//! Catch/except analysis shared by rules: the exception variable, broad
//! catches, generic returns.

use vstd::prelude::*;
use crate::analyzer::{comp_views, path_components, path_components_exec};
use crate::ast::{has_word, has_word_exec};
use crate::paths::{file_name, file_name_exec};
use crate::unicode::{lowercase, to_lowercase};
use crate::nav::kind_in;
use crate::parser::Language;
use crate::pieces::{after_last_str, before_any_exec};
use crate::rule::AnalysisContext;
use crate::source::SourceText;
use crate::syntax::{text_at, node_text, SyntaxNode, SyntaxTree};
use crate::text::{
    after_last, before_any, chars_of, find_any_from, contains, contains_str, eq_str, find, find_exec, find_str,
    lemma_find_from, slice_of, starts_with, starts_with_str, trim, trim_exec, trim_start,
    trim_start_exec,
};

verus! {

/// Type names a catch clause may name before its variable.
pub open spec fn is_exception_type_name(t: Seq<char>) -> bool {
    t == "Exception"@ || t == "Throwable"@ || t == "Error"@ || t == "BaseException"@
}

pub fn is_exception_type_name_exec(t: &Vec<char>) -> (r: bool)
    ensures
        r == is_exception_type_name(t@),
{
    eq_str(t, "Exception") || eq_str(t, "Throwable") || eq_str(t, "Error") || eq_str(
        t,
        "BaseException",
    )
}

/// Among the children `ch[k..]`: the name bound by the first `as_pattern`
/// whose text has ` as ` (Python `except E as e`).
pub open spec fn as_var_from(nodes: Seq<SyntaxNode>, src: Seq<char>, ch: Seq<usize>, k: int) -> Option<
    Seq<char>,
>
    decreases ch.len() - k,
{
    if k < 0 || k >= ch.len() {
        None
    } else {
        let c = ch[k] as int;
        if nodes[c].kind@ == "as_pattern"@ {
            let t = text_at(src, nodes[c]);
            match find(t, " as "@) {
                Some(p) => Some(trim(t.skip(p + 4))),
                None => as_var_from(nodes, src, ch, k + 1),
            }
        } else {
            as_var_from(nodes, src, ch, k + 1)
        }
    }
}

/// Among the children `ch[k..]`: the text of the first identifier that is not
/// an exception type name.
pub open spec fn ident_var_from(
    nodes: Seq<SyntaxNode>,
    src: Seq<char>,
    ch: Seq<usize>,
    k: int,
) -> Option<Seq<char>>
    decreases ch.len() - k,
{
    if k < 0 || k >= ch.len() {
        None
    } else {
        let c = ch[k] as int;
        if nodes[c].kind@ == "identifier"@ && !is_exception_type_name(text_at(src, nodes[c])) {
            Some(text_at(src, nodes[c]))
        } else {
            ident_var_from(nodes, src, ch, k + 1)
        }
    }
}

/// Among the children `ch[k..]`: the variable of the first `catch_declaration`
/// that names one (C# `catch (Exception ex)`).
pub open spec fn decl_var_from(nodes: Seq<SyntaxNode>, src: Seq<char>, ch: Seq<usize>, k: int) -> Option<
    Seq<char>,
>
    decreases ch.len() - k,
{
    if k < 0 || k >= ch.len() {
        None
    } else {
        let c = ch[k] as int;
        if nodes[c].kind@ == "catch_declaration"@ {
            match ident_var_from(nodes, src, nodes[c].children@, 0) {
                Some(v) => Some(v),
                None => decl_var_from(nodes, src, ch, k + 1),
            }
        } else {
            decl_var_from(nodes, src, ch, k + 1)
        }
    }
}

pub fn as_var_exec(src: &SourceText, tree: &SyntaxTree, i: usize) -> (r: Option<Vec<char>>)
    requires
        src.wf(),
        tree.wf(),
        i < tree.nodes@.len(),
    ensures
        match r {
            Some(v) => as_var_from(tree.nodes@, src.chars@, tree.nodes@[i as int].children@, 0)
                == Some(v@),
            None => as_var_from(tree.nodes@, src.chars@, tree.nodes@[i as int].children@, 0) is None,
        },
{
    let ghost nodes = tree.nodes@;
    let ch = &tree.nodes[i].children;
    let mut k: usize = 0;
    while k < ch.len()
        invariant
            tree.wf(),
            src.wf(),
            nodes == tree.nodes@,
            i < nodes.len(),
            ch@ == nodes[i as int].children@,
            k <= ch@.len(),
            as_var_from(nodes, src.chars@, ch@, k as int) == as_var_from(nodes, src.chars@, ch@, 0),
        decreases ch@.len() - k,
    {
        let c = ch[k];
        assert(nodes[i as int].children@[k as int] == c);
        if eq_str(&tree.nodes[c].kind, "as_pattern") {
            let t = node_text(src, tree, c);
            match find_str(&t, " as ") {
                Some(p) => {
                    proof {
                        reveal_strlit(" as ");
                        lemma_find_from(t@, " as "@, 0);
                    }
                    let tl = t.len();
                    let rest = slice_of(&t, p + 4, tl);
                    return Some(trim_exec(&rest));
                },
                None => {},
            }
        }
        k += 1;
    }
    None
}

pub fn ident_var_exec(src: &SourceText, tree: &SyntaxTree, i: usize) -> (r: Option<Vec<char>>)
    requires
        src.wf(),
        tree.wf(),
        i < tree.nodes@.len(),
    ensures
        match r {
            Some(v) => ident_var_from(tree.nodes@, src.chars@, tree.nodes@[i as int].children@, 0)
                == Some(v@),
            None => ident_var_from(tree.nodes@, src.chars@, tree.nodes@[i as int].children@, 0) is None,
        },
{
    let ghost nodes = tree.nodes@;
    let ch = &tree.nodes[i].children;
    let mut k: usize = 0;
    while k < ch.len()
        invariant
            tree.wf(),
            src.wf(),
            nodes == tree.nodes@,
            i < nodes.len(),
            ch@ == nodes[i as int].children@,
            k <= ch@.len(),
            ident_var_from(nodes, src.chars@, ch@, k as int) == ident_var_from(
                nodes,
                src.chars@,
                ch@,
                0,
            ),
        decreases ch@.len() - k,
    {
        let c = ch[k];
        assert(nodes[i as int].children@[k as int] == c);
        if eq_str(&tree.nodes[c].kind, "identifier") {
            let t = node_text(src, tree, c);
            if !is_exception_type_name_exec(&t) {
                return Some(t);
            }
        }
        k += 1;
    }
    None
}

pub fn decl_var_exec(src: &SourceText, tree: &SyntaxTree, i: usize) -> (r: Option<Vec<char>>)
    requires
        src.wf(),
        tree.wf(),
        i < tree.nodes@.len(),
    ensures
        match r {
            Some(v) => decl_var_from(tree.nodes@, src.chars@, tree.nodes@[i as int].children@, 0)
                == Some(v@),
            None => decl_var_from(tree.nodes@, src.chars@, tree.nodes@[i as int].children@, 0) is None,
        },
{
    let ghost nodes = tree.nodes@;
    let ch = &tree.nodes[i].children;
    let mut k: usize = 0;
    while k < ch.len()
        invariant
            tree.wf(),
            src.wf(),
            nodes == tree.nodes@,
            i < nodes.len(),
            ch@ == nodes[i as int].children@,
            k <= ch@.len(),
            decl_var_from(nodes, src.chars@, ch@, k as int) == decl_var_from(
                nodes,
                src.chars@,
                ch@,
                0,
            ),
        decreases ch@.len() - k,
    {
        let c = ch[k];
        assert(nodes[i as int].children@[k as int] == c);
        if eq_str(&tree.nodes[c].kind, "catch_declaration") {
            match ident_var_exec(src, tree, c) {
                Some(v) => {
                    return Some(v);
                },
                None => {},
            }
        }
        k += 1;
    }
    None
}

/// The exception variable of a catch/except clause: Python `as` binding,
/// then the identifier of a C# catch declaration, then a Java/TS identifier
/// child; empty when there is none.
pub open spec fn exception_var_spec(ctx: AnalysisContext, i: int) -> Seq<char> {
    let nodes = ctx.tree.nodes@;
    let src = ctx.source.chars@;
    let ch = nodes[i].children@;
    match as_var_from(nodes, src, ch, 0) {
        Some(v) => v,
        None => match decl_var_from(nodes, src, ch, 0) {
            Some(v) => v,
            None => match ident_var_from(nodes, src, ch, 0) {
                Some(v) => v,
                None => Seq::<char>::empty(),
            },
        },
    }
}

/// `catch (Exception e)` gives `e`; `except Exception as e` gives `e`.
pub fn exception_var(node: usize, ctx: &AnalysisContext) -> (r: String)
    requires
        ctx.wf(),
        node < ctx.tree.nodes@.len(),
    ensures
        r@ == exception_var_spec(*ctx, node as int),
{
    let v = match as_var_exec(ctx.source, ctx.tree, node) {
        Some(v) => v,
        None => match decl_var_exec(ctx.source, ctx.tree, node) {
            Some(v) => v,
            None => match ident_var_exec(ctx.source, ctx.tree, node) {
                Some(v) => v,
                None => Vec::new(),
            },
        },
    };
    crate::unicode::string_of(&v)
}

/// The broad exception base classes.
pub open spec fn is_broad_type_segment(s: Seq<char>) -> bool {
    s == "Exception"@ || s == "Throwable"@ || s == "RuntimeException"@ || s == "Error"@ || s
        == "BaseException"@
}

/// A catch that names a base exception class (or a bare `except`/`catch`):
/// only the base classes themselves count, qualified names by their last part.
pub open spec fn is_broad_catch_spec(lang: Language, t: Seq<char>) -> bool {
    match lang {
        Language::Python => {
            let s = trim_start(t);
            starts_with(s, "except:"@) || starts_with(s, "except Exception"@) || starts_with(
                s,
                "except BaseException"@,
            )
        },
        _ => if contains(t, "catch {"@) {
            true
        } else {
            match find(t, "("@) {
                None => false,
                Some(open) => {
                    let tname = trim(before_any(t.skip(open + 1), seq![')', ' ', '\t']));
                    tname.len() == 0 || is_broad_type_segment(after_last(tname, "."@))
                        || tname == "e"@ || tname == "err"@ || tname == "error"@
                        || tname == "ex"@
                }
            }
        },
    }
}

/// Whether a catch/except clause is broad.
pub fn is_broad_catch(node: usize, ctx: &AnalysisContext) -> (r: bool)
    requires
        ctx.wf(),
        node < ctx.tree.nodes@.len(),
    ensures
        r == is_broad_catch_spec(
            ctx.language,
            text_at(ctx.source.chars@, ctx.tree.nodes@[node as int]),
        ),
{
    let t = node_text(ctx.source, ctx.tree, node);
    match ctx.language {
        Language::Python => {
            let s = trim_start_exec(&t);
            starts_with_str(&s, "except:") || starts_with_str(&s, "except Exception")
                || starts_with_str(&s, "except BaseException")
        },
        _ => {
            if contains_str(&t, "catch {") {
                return true;
            }
            match find_str(&t, "(") {
                None => false,
                Some(open) => {
                    proof {
                        reveal_strlit("(");
                        lemma_find_from(t@, "("@, 0);
                    }
                    let tl = t.len();
                    let after = slice_of(&t, open + 1, tl);
                    let seps: Vec<char> = vec![')', ' ', '\t'];
                    let head = before_any_exec(&after, &seps);
                    let tname = trim_exec(&head);
                    if tname.len() == 0 {
                        return true;
                    }
                    let last = after_last_str(&tname, ".");
                    eq_str(&last, "Exception") || eq_str(&last, "Throwable") || eq_str(
                        &last,
                        "RuntimeException",
                    ) || eq_str(&last, "Error") || eq_str(&last, "BaseException") || eq_str(
                        &tname,
                        "e",
                    ) || eq_str(&tname, "err") || eq_str(&tname, "error") || eq_str(
                        &tname,
                        "ex",
                    )
                },
            }
        },
    }
}

/// The clause returns a fixed status code, a null-like value or a generic error.
pub open spec fn returns_generic_spec(t: Seq<char>) -> bool {
    contains(t, "return 500"@) || contains(t, "return 400"@) || contains(t, "return 404"@)
        || contains(t, "return 422"@) || contains(t, "return None"@) || contains(
        t,
        "return null"@,
    ) || contains(t, "return False"@) || contains(t, "return false"@) || contains(
        t,
        "return 0"@,
    ) || contains(t, "return -1"@) || contains(t, "return Err(Generic"@) || contains(
        t,
        "return Err(generic"@,
    ) || contains(t, "throw new Error("@) || contains(t, "return ResponseEntity.status(500)"@)
        || contains(t, "return StatusCode::INTERNAL_SERVER_ERROR"@)
}

pub fn returns_generic_text(t: &Vec<char>) -> (r: bool)
    ensures
        r == returns_generic_spec(t@),
{
    contains_str(t, "return 500") || contains_str(t, "return 400") || contains_str(t, "return 404")
        || contains_str(t, "return 422") || contains_str(t, "return None") || contains_str(
        t,
        "return null",
    ) || contains_str(t, "return False") || contains_str(t, "return false") || contains_str(
        t,
        "return 0",
    ) || contains_str(t, "return -1") || contains_str(t, "return Err(Generic") || contains_str(
        t,
        "return Err(generic",
    ) || contains_str(t, "throw new Error(") || contains_str(
        t,
        "return ResponseEntity.status(500)",
    ) || contains_str(t, "return StatusCode::INTERNAL_SERVER_ERROR")
}

/// Whether a clause returns a fixed or generic value.
pub fn returns_generic(node: usize, ctx: &AnalysisContext) -> (r: bool)
    requires
        ctx.wf(),
        node < ctx.tree.nodes@.len(),
    ensures
        r == returns_generic_spec(text_at(ctx.source.chars@, ctx.tree.nodes@[node as int])),
{
    let t = node_text(ctx.source, ctx.tree, node);
    returns_generic_text(&t)
}

/// The body after a clause header: what follows the header's end, the first
/// `:` (Python) or `{` (braces), whichever comes first; nothing when neither
/// occurs.
pub open spec fn clause_body(t: Seq<char>) -> Seq<char> {
    match find_any_from(t, seq![':', '{'], 0) {
        Some(i) => t.skip(i + 1),
        None => Seq::<char>::empty(),
    }
}

pub fn clause_body_exec(t: &Vec<char>) -> (r: Vec<char>)
    ensures
        r@ == clause_body(t@),
{
    let tl = t.len();
    let mut i: usize = 0;
    while i < tl
        invariant
            tl == t@.len(),
            i <= tl,
            find_any_from(t@, seq![':', '{'], i as int) == find_any_from(t@, seq![':', '{'], 0),
        decreases tl - i,
    {
        if t[i] == ':' || t[i] == '{' {
            assert(seq![':', '{'].contains(t@[i as int])) by {
                if t@[i as int] == ':' {
                    assert(seq![':', '{'][0] == ':');
                } else {
                    assert(seq![':', '{'][1] == '{');
                }
            }
            return slice_of(t, i + 1, tl);
        }
        assert(!seq![':', '{'].contains(t@[i as int]));
        i += 1;
    }
    Vec::new()
}

/// Whether the body after the header refers to `word` as a whole word.
pub fn body_uses_word(text: &str, word: &str) -> (r: bool)
    ensures
        r == has_word(clause_body(text@), word@),
{
    let t = chars_of(text);
    let w = chars_of(word);
    let body = clause_body_exec(&t);
    has_word_exec(&body, &w)
}

/// A file of tests: a `tests`, `test` or `__tests__` directory on its path,
/// or a file name that reads as a test (`test_x`, `x_test.rs`, `x.test.ts`,
/// `x.spec.ts`), letters compared case-insensitively.
pub open spec fn is_test_file(path: Seq<char>) -> bool {
    let comps = path_components(path);
    let name = lowercase(
        match file_name(path) {
            Some(n) => n,
            None => seq![],
        },
    );
    (exists|k: int|
        0 <= k < comps.len() && {
            let c = lowercase(#[trigger] comps[k].1);
            c == "tests"@ || c == "test"@ || c == "__tests__"@
        }) || starts_with(name, "test_"@) || starts_with(name, "test."@) || contains(
        name,
        "_test."@,
    ) || contains(name, ".test."@) || contains(name, ".spec."@)
}

pub fn is_test_file_exec(path: &str) -> (r: bool)
    ensures
        r == is_test_file(path@),
{
    let p = chars_of(path);
    let comps = path_components_exec(&p);
    let ghost cv = comp_views(comps@);
    let mut k: usize = 0;
    while k < comps.len()
        invariant
            k <= comps@.len(),
            cv == comp_views(comps@),
            cv == path_components(path@),
            forall|m: int|
                0 <= m < k ==> {
                    let c = lowercase(#[trigger] cv[m].1);
                    !(c == "tests"@ || c == "test"@ || c == "__tests__"@)
                },
        decreases comps@.len() - k,
    {
        let c = to_lowercase(&comps[k].1);
        assert(cv[k as int].1 == comps@[k as int].1@);
        if eq_str(&c, "tests") || eq_str(&c, "test") || eq_str(&c, "__tests__") {
            return true;
        }
        k += 1;
    }
    let n = match file_name_exec(&p) {
        Some(n) => n,
        None => Vec::new(),
    };
    let name = to_lowercase(&n);
    starts_with_str(&name, "test_") || starts_with_str(&name, "test.") || contains_str(&name, "_test.")
        || contains_str(&name, ".test.") || contains_str(&name, ".spec.")
}

} // verus!
