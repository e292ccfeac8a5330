//! R07: imports that nothing in the file uses.
//!
//! Each import statement gives the names it binds; a name is used when an
//! identifier with that text occurs outside every import statement.

use vstd::prelude::*;
use crate::finding::{views, Finding, FindingView, Severity, finding_plain};
use crate::nav::{kind_in, strs};
use crate::parser::Language;
use crate::pieces::{
    before_first_str, split_last_str, split_str, strip_prefix_or_keep_str, trim_end_char_exec,
    trim_start_matches_str,
};
use crate::rule::{lemma_tagged_concat, tagged, AnalysisContext, Rule, RuleError};
use crate::syntax::{lemma_walk_covers, text_at, node_text, walk, walk_order, SyntaxNode, SyntaxTree};
use crate::source::SourceText;
use crate::text::{
    before_first, chars_of, eq_str, find, find_str, lemma_find_from, lemma_rfind_upto, push_chars,
    push_str, rfind, rfind_str, seq_eq, slice_of, split, split_last, starts_with,
    starts_with_str, strip_prefix_or_keep, trim, trim_end_char, trim_exec, trim_start,
    trim_start_exec, trim_start_matches, occurs_at,
};
use crate::unicode::string_of;

verus! {

pub struct DeadCode;

/// How one comma-separated piece of an import list names its binding.
pub enum Piece {
    /// `from m import a as b`: the alias, else the name.
    PyFrom,
    /// `import a.b as c`: the alias, else the top-level package.
    PyImport,
    /// `{ a as b }` in TypeScript: the alias, else the name.
    TsNamed,
}

pub open spec fn piece_name(k: Piece, s: Seq<char>) -> Seq<char> {
    match k {
        Piece::PyFrom => trim(split_last(trim_start_matches(trim(s), "as "@), " as "@)),
        Piece::PyImport => before_first(trim(split_last(trim(s), " as "@)), "."@),
        Piece::TsNamed => trim(split_last(trim(s), " as "@)),
    }
}

/// The non-empty names of the pieces, in order.
pub open spec fn piece_names(ps: Seq<Seq<char>>, k: Piece) -> Seq<Seq<char>>
    decreases ps.len(),
{
    if ps.len() == 0 {
        seq![]
    } else {
        let n = piece_name(k, ps.last());
        piece_names(ps.drop_last(), k) + if n.len() > 0 {
            seq![n]
        } else {
            seq![]
        }
    }
}

pub open spec fn rust_import_names(text: Seq<char>) -> Seq<Seq<char>> {
    let t = trim(trim_end_char(trim_start(trim_start_matches(text, "use "@)), ';'));
    match rfind(t, "::"@) {
        Some(pos) => {
            let last = t.skip(pos + 2);
            if last == "*"@ {
                seq![]
            } else {
                seq![trim(last)]
            }
        },
        None => seq![trim(t)],
    }
}

pub open spec fn python_import_names(text: Seq<char>) -> Seq<Seq<char>> {
    let t = trim(text);
    if starts_with(t, "from "@) {
        match find(t, " import "@) {
            Some(pos) => piece_names(split(t.skip(pos + 8), ","@), Piece::PyFrom),
            None => seq![],
        }
    } else if starts_with(t, "import "@) {
        piece_names(split(t.skip(7), ","@), Piece::PyImport)
    } else {
        seq![]
    }
}

/// The default or namespace part of TypeScript bindings, without `type`.
pub open spec fn ts_default_part(b: Seq<char>) -> Seq<char> {
    let d = trim_end_char(trim(before_first(b, "{"@)), ',');
    if d == "type"@ {
        seq![]
    } else if starts_with(d, "type "@) {
        d.skip(5)
    } else {
        d
    }
}

pub open spec fn ts_default_names(d: Seq<char>) -> Seq<Seq<char>> {
    if starts_with(d, "* as "@) {
        let ns = trim(d.skip(5));
        if ns.len() > 0 {
            seq![ns]
        } else {
            seq![]
        }
    } else if d.len() > 0 && d != "*"@ && !starts_with(d, "\""@) && !starts_with(d, "'"@) {
        seq![d]
    } else {
        seq![]
    }
}

/// The names between `{` and the next `}` (or the end).
pub open spec fn ts_named_names(b: Seq<char>) -> Seq<Seq<char>> {
    match find(b, "{"@) {
        None => seq![],
        Some(pos) => {
            let end = match find(b.skip(pos), "}"@) {
                Some(e) => pos + e,
                None => b.len() as int,
            };
            piece_names(split(b.subrange(pos + 1, end), ","@), Piece::TsNamed)
        },
    }
}

/// The bindings of a TypeScript import: what stands between `import` and `from`.
pub open spec fn ts_bindings(text: Seq<char>) -> Seq<char> {
    trim(before_first(strip_prefix_or_keep(trim(text), "import "@), " from "@))
}

pub open spec fn ts_import_names(text: Seq<char>) -> Seq<Seq<char>> {
    let b = ts_bindings(text);
    ts_default_names(ts_default_part(b)) + ts_named_names(b)
}

pub open spec fn csharp_import_names(text: Seq<char>) -> Seq<Seq<char>> {
    let t = trim(trim_end_char(trim_start_matches(text, "using "@), ';'));
    match rfind(t, "."@) {
        Some(pos) => seq![trim(t.skip(pos + 1))],
        None => seq![t],
    }
}

pub open spec fn java_import_names(text: Seq<char>) -> Seq<Seq<char>> {
    let t = trim(trim_end_char(trim_start_matches(text, "import "@), ';'));
    match rfind(t, "."@) {
        Some(pos) => {
            let last = t.skip(pos + 1);
            if last == "*"@ {
                seq![]
            } else {
                seq![trim(last)]
            }
        },
        None => seq![t],
    }
}

/// The names an import statement binds (wildcard imports bind none).
pub open spec fn import_names(text: Seq<char>, lang: Language) -> Seq<Seq<char>> {
    match lang {
        Language::Rust => rust_import_names(text),
        Language::Python => python_import_names(text),
        Language::TypeScript | Language::TypeScriptTsx => ts_import_names(text),
        Language::CSharp => csharp_import_names(text),
        Language::Java => java_import_names(text),
    }
}

pub open spec fn char_views(v: Seq<Vec<char>>) -> Seq<Seq<char>> {
    v.map_values(|x: Vec<char>| x@)
}

fn piece_name_exec(k: &Piece, s: &Vec<char>) -> (r: Vec<char>)
    ensures
        r@ == piece_name(*k, s@),
{
    proof {
        reveal_strlit("as ");
        reveal_strlit(" as ");
    }
    match k {
        Piece::PyFrom => {
            let a = trim_exec(s);
            let b = trim_start_matches_str(&a, "as ");
            let c = split_last_str(&b, " as ");
            trim_exec(&c)
        },
        Piece::PyImport => {
            let a = trim_exec(s);
            let c = split_last_str(&a, " as ");
            let d = trim_exec(&c);
            before_first_str(&d, ".")
        },
        Piece::TsNamed => {
            let a = trim_exec(s);
            let c = split_last_str(&a, " as ");
            trim_exec(&c)
        },
    }
}

fn piece_names_exec(ps: &Vec<Vec<char>>, k: &Piece) -> (r: Vec<Vec<char>>)
    ensures
        char_views(r@) == piece_names(char_views(ps@), *k),
{
    let mut out: Vec<Vec<char>> = Vec::new();
    let mut i: usize = 0;
    while i < ps.len()
        invariant
            i <= ps@.len(),
            char_views(out@) == piece_names(char_views(ps@).take(i as int), *k),
        decreases ps@.len() - i,
    {
        let n = piece_name_exec(k, &ps[i]);
        let ghost before = out@;
        proof {
            assert(char_views(ps@).take(i + 1).drop_last() =~= char_views(ps@).take(i as int));
            assert(char_views(ps@).take(i + 1).last() == ps@[i as int]@);
        }
        if n.len() > 0 {
            out.push(n);
            assert(char_views(out@) =~= char_views(before) + seq![n@]);
        } else {
            assert(char_views(out@) =~= char_views(before) + Seq::<Seq<char>>::empty());
        }
        i += 1;
    }
    assert(char_views(ps@).take(ps@.len() as int) =~= char_views(ps@));
    out
}

fn one(v: Vec<char>) -> (r: Vec<Vec<char>>)
    ensures
        char_views(r@) == seq![v@],
{
    let mut out: Vec<Vec<char>> = Vec::new();
    out.push(v);
    assert(char_views(out@) =~= seq![out@[0]@]);
    out
}

fn rust_names_exec(text: &Vec<char>) -> (r: Vec<Vec<char>>)
    ensures
        char_views(r@) == rust_import_names(text@),
{
    proof {
        reveal_strlit("use ");
        reveal_strlit("::");
    }
    let a = trim_start_matches_str(text, "use ");
    let b = trim_start_exec(&a);
    let c = trim_end_char_exec(&b, ';');
    let t = trim_exec(&c);
    match rfind_str(&t, "::") {
        Some(pos) => {
            proof {
                lemma_rfind_upto(t@, "::"@, t@.len() - 2);
            }
            let tl = t.len();
            let last = slice_of(&t, pos + 2, tl);
            if eq_str(&last, "*") {
                let e: Vec<Vec<char>> = Vec::new();
                assert(char_views(e@) =~= Seq::<Seq<char>>::empty());
                e
            } else {
                one(trim_exec(&last))
            }
        },
        None => one(trim_exec(&t)),
    }
}

fn python_names_exec(text: &Vec<char>) -> (r: Vec<Vec<char>>)
    ensures
        char_views(r@) == python_import_names(text@),
{
    proof {
        reveal_strlit(" import ");
        reveal_strlit("import ");
        reveal_strlit(",");
    }
    let t = trim_exec(text);
    let tl = t.len();
    if starts_with_str(&t, "from ") {
        match find_str(&t, " import ") {
            Some(pos) => {
                proof {
                    lemma_find_from(t@, " import "@, 0);
                }
                let names = slice_of(&t, pos + 8, tl);
                let ps = split_str(&names, ",");
                assert(char_views(ps@) == split(names@, ","@));
                piece_names_exec(&ps, &Piece::PyFrom)
            },
            None => {
                let e: Vec<Vec<char>> = Vec::new();
                assert(char_views(e@) =~= Seq::<Seq<char>>::empty());
                e
            },
        }
    } else if starts_with_str(&t, "import ") {
        let names = slice_of(&t, 7, tl);
        let ps = split_str(&names, ",");
        assert(char_views(ps@) == split(names@, ","@));
        piece_names_exec(&ps, &Piece::PyImport)
    } else {
        let e: Vec<Vec<char>> = Vec::new();
        assert(char_views(e@) =~= Seq::<Seq<char>>::empty());
        e
    }
}

fn ts_names_exec(text: &Vec<char>) -> (r: Vec<Vec<char>>)
    ensures
        char_views(r@) == ts_import_names(text@),
{
    proof {
        reveal_strlit("type");
        reveal_strlit("type ");
        reveal_strlit("* as ");
        reveal_strlit("{");
        reveal_strlit("}");
        reveal_strlit(",");
    }
    let t = trim_exec(text);
    let s = strip_prefix_or_keep_str(&t, "import ");
    let f = before_first_str(&s, " from ");
    let b = trim_exec(&f);
    // default or namespace part
    let d0 = before_first_str(&b, "{");
    let d1 = trim_exec(&d0);
    let d2 = trim_end_char_exec(&d1, ',');
    let d = if eq_str(&d2, "type") {
        Vec::new()
    } else if starts_with_str(&d2, "type ") {
        let n = d2.len();
        slice_of(&d2, 5, n)
    } else {
        d2
    };
    assert(d@ == ts_default_part(b@));
    let mut out: Vec<Vec<char>> = Vec::new();
    if starts_with_str(&d, "* as ") {
        let n = d.len();
        let rest = slice_of(&d, 5, n);
        let ns = trim_exec(&rest);
        if ns.len() > 0 {
            out.push(ns);
        }
    } else if d.len() > 0 && !eq_str(&d, "*") && !starts_with_str(&d, "\"") && !starts_with_str(
        &d,
        "'",
    ) {
        out.push(d);
    }
    assert(char_views(out@) =~= ts_default_names(ts_default_part(b@)));
    // named imports
    let bl = b.len();
    match find_str(&b, "{") {
        None => {
            assert(char_views(out@) =~= ts_import_names(text@));
            out
        },
        Some(pos) => {
            proof {
                lemma_find_from(b@, "{"@, 0);
            }
            let tail = slice_of(&b, pos, bl);
            let end = match find_str(&tail, "}") {
                Some(e) => {
                    proof {
                        lemma_find_from(tail@, "}"@, 0);
                        if e == 0 {
                            assert(occurs_at(tail@, "}"@, 0));
                            assert(tail@.subrange(0, 1) == "}"@);
                            assert(tail@.subrange(0, 1)[0] == tail@[0]);
                            assert(b@[pos as int] == '{');
                        }
                    }
                    pos + e
                },
                None => bl,
            };
            let inner = slice_of(&b, pos + 1, end);
            let ps = split_str(&inner, ",");
            assert(char_views(ps@) == split(inner@, ","@));
            let named = piece_names_exec(&ps, &Piece::TsNamed);
            assert(char_views(named@) == ts_named_names(b@));
            let ghost o = out@;
            let mut named = named;
            out.append(&mut named);
            assert(char_views(out@) =~= char_views(o) + ts_named_names(b@));
            out
        },
    }
}

fn csharp_java_names_exec(text: &Vec<char>, java: bool) -> (r: Vec<Vec<char>>)
    ensures
        java ==> char_views(r@) == java_import_names(text@),
        !java ==> char_views(r@) == csharp_import_names(text@),
{
    proof {
        reveal_strlit("using ");
        reveal_strlit("import ");
        reveal_strlit(".");
    }
    let a = if java {
        trim_start_matches_str(text, "import ")
    } else {
        trim_start_matches_str(text, "using ")
    };
    let c = trim_end_char_exec(&a, ';');
    let t = trim_exec(&c);
    match rfind_str(&t, ".") {
        Some(pos) => {
            proof {
                lemma_rfind_upto(t@, "."@, t@.len() - 1);
            }
            let tl = t.len();
            let last = slice_of(&t, pos + 1, tl);
            if java && eq_str(&last, "*") {
                let e: Vec<Vec<char>> = Vec::new();
                assert(char_views(e@) =~= Seq::<Seq<char>>::empty());
                e
            } else {
                one(trim_exec(&last))
            }
        },
        None => one(t),
    }
}

fn import_names_exec(text: &Vec<char>, lang: Language) -> (r: Vec<Vec<char>>)
    ensures
        char_views(r@) == import_names(text@, lang),
{
    match lang {
        Language::Rust => rust_names_exec(text),
        Language::Python => python_names_exec(text),
        Language::TypeScript | Language::TypeScriptTsx => ts_names_exec(text),
        Language::CSharp => csharp_java_names_exec(text, false),
        Language::Java => csharp_java_names_exec(text, true),
    }
}

/// The names an import statement binds: Rust `use a::b` gives `b`; Python
/// `import os.path` gives `os` and `from x import a as b` gives `b`; TypeScript
/// gives default, namespace and named bindings; C#/Java give the last path
/// segment. Wildcard imports give none.
pub fn extract_import_names(text: &str, lang: Language) -> (r: Vec<String>)
    ensures
        r@.map_values(|s: String| s@) == import_names(text@, lang),
{
    let t = chars_of(text);
    let names = import_names_exec(&t, lang);
    let mut out: Vec<String> = Vec::new();
    let mut i: usize = 0;
    while i < names.len()
        invariant
            i <= names@.len(),
            out@.map_values(|s: String| s@) == char_views(names@).take(i as int),
        decreases names@.len() - i,
    {
        let s = string_of(&names[i]);
        assert(s@ == char_views(names@)[i as int]);
        let ghost before = out@;
        out.push(s);
        assert(out@.map_values(|s: String| s@) =~= before.map_values(|s: String| s@).push(s@));
        assert(char_views(names@).take(i + 1) =~= char_views(names@).take(i as int).push(s@));
        i += 1;
    }
    assert(char_views(names@).take(names@.len() as int) =~= char_views(names@));
    out
}


pub open spec fn r07_import_kinds(l: Language) -> Seq<Seq<char>> {
    match l {
        Language::Rust => seq!["use_declaration"@],
        Language::Python => seq!["import_statement"@, "import_from_statement"@],
        Language::TypeScript | Language::TypeScriptTsx => seq!["import_statement"@],
        Language::CSharp => seq!["using_directive"@],
        Language::Java => seq!["import_declaration"@],
    }
}

pub open spec fn r07_ident_kinds(l: Language) -> Seq<Seq<char>> {
    match l {
        Language::Rust => seq!["identifier"@, "type_identifier"@, "field_identifier"@],
        Language::TypeScript | Language::TypeScriptTsx => seq!["identifier"@, "type_identifier"@],
        _ => seq!["identifier"@],
    }
}

/// The names bound at node `i`, each with the one-based line of the statement.
pub open spec fn imports_at(ctx: AnalysisContext, i: int) -> Seq<(Seq<char>, int)> {
    let n = ctx.tree.nodes@[i];
    if r07_import_kinds(ctx.language).contains(n.kind@) {
        import_names(text_at(ctx.source.chars@, n), ctx.language).map_values(
            |x: Seq<char>| (x, n.start_row + 1),
        )
    } else {
        seq![]
    }
}

/// The imports of the nodes of `order`, in that order.
pub open spec fn imports_over(ctx: AnalysisContext, order: Seq<usize>) -> Seq<(Seq<char>, int)>
    decreases order.len(),
{
    if order.len() == 0 {
        seq![]
    } else {
        imports_over(ctx, order.drop_last()) + imports_at(ctx, order.last() as int)
    }
}

/// No node from the root down to `i` is an import statement.
pub open spec fn outside_imports(nodes: Seq<SyntaxNode>, kinds: Seq<Seq<char>>, i: int) -> bool
    decreases i,
{
    if i < 0 || i >= nodes.len() || kinds.contains(nodes[i].kind@) {
        false
    } else {
        match nodes[i].parent {
            None => true,
            Some(p) => if (p as int) < i {
                outside_imports(nodes, kinds, p as int)
            } else {
                false
            },
        }
    }
}

/// The texts of the identifiers among nodes `0..k` that stand outside every
/// import statement.
pub open spec fn used_upto(ctx: AnalysisContext, k: int) -> Seq<Seq<char>>
    decreases k,
{
    if k <= 0 {
        seq![]
    } else {
        let j = k - 1;
        let n = ctx.tree.nodes@[j];
        let t = text_at(ctx.source.chars@, n);
        used_upto(ctx, j) + if outside_imports(
            ctx.tree.nodes@,
            r07_import_kinds(ctx.language),
            j,
        ) && r07_ident_kinds(ctx.language).contains(n.kind@) && t.len() > 0 {
            seq![t]
        } else {
            seq![]
        }
    }
}

pub open spec fn r07_used(ctx: AnalysisContext) -> Seq<Seq<char>> {
    used_upto(ctx, ctx.tree.nodes@.len() as int)
}

pub open spec fn r07_message(name: Seq<char>) -> Seq<char> {
    "未使用的 import："@ + name + " | unused import: "@ + name
}

/// One finding per import whose name is not among `used`.
pub open spec fn r07_report(file: Seq<char>, imps: Seq<(Seq<char>, int)>, used: Seq<Seq<char>>) -> Seq<
    FindingView,
>
    decreases imps.len(),
{
    if imps.len() == 0 {
        seq![]
    } else {
        let (name, line) = imps.last();
        r07_report(file, imps.drop_last(), used) + if used.contains(name) {
            seq![]
        } else {
            seq![
                finding_plain(
                    "R07"@,
                    "dead-code"@,
                    Severity::Warning,
                    file,
                    line,
                    1,
                    r07_message(name),
                ),
            ]
        }
    }
}

pub open spec fn imp_views(v: Seq<(Vec<char>, usize)>) -> Seq<(Seq<char>, int)> {
    v.map_values(|p: (Vec<char>, usize)| (p.0@, p.1 as int))
}

fn import_kinds(l: Language) -> (r: &'static [&'static str])
    ensures
        strs(r@) == r07_import_kinds(l),
{
    match l {
        Language::Rust => {
            let k: &'static [&'static str] = &["use_declaration"];
            assert(strs(k@) =~= r07_import_kinds(l));
            k
        },
        Language::Python => {
            let k: &'static [&'static str] = &["import_statement", "import_from_statement"];
            assert(strs(k@) =~= r07_import_kinds(l));
            k
        },
        Language::TypeScript | Language::TypeScriptTsx => {
            let k: &'static [&'static str] = &["import_statement"];
            assert(strs(k@) =~= r07_import_kinds(l));
            k
        },
        Language::CSharp => {
            let k: &'static [&'static str] = &["using_directive"];
            assert(strs(k@) =~= r07_import_kinds(l));
            k
        },
        Language::Java => {
            let k: &'static [&'static str] = &["import_declaration"];
            assert(strs(k@) =~= r07_import_kinds(l));
            k
        },
    }
}

fn ident_kinds(l: Language) -> (r: &'static [&'static str])
    ensures
        strs(r@) == r07_ident_kinds(l),
{
    match l {
        Language::Rust => {
            let k: &'static [&'static str] = &["identifier", "type_identifier", "field_identifier"];
            assert(strs(k@) =~= r07_ident_kinds(l));
            k
        },
        Language::TypeScript | Language::TypeScriptTsx => {
            let k: &'static [&'static str] = &["identifier", "type_identifier"];
            assert(strs(k@) =~= r07_ident_kinds(l));
            k
        },
        _ => {
            let k: &'static [&'static str] = &["identifier"];
            assert(strs(k@) =~= r07_ident_kinds(l));
            k
        },
    }
}

/// The imports of the file, in walk order.
fn collect_imports(ctx: &AnalysisContext) -> (r: Vec<(Vec<char>, usize)>)
    requires
        ctx.wf(),
    ensures
        imp_views(r@) == imports_over(*ctx, walk_order(ctx.tree.nodes@, 0)),
{
    let kinds = import_kinds(ctx.language);
    let order = walk(ctx.tree, 0);
    let mut out: Vec<(Vec<char>, usize)> = Vec::new();
    let mut k: usize = 0;
    while k < order.len()
        invariant
            ctx.wf(),
            strs(kinds@) == r07_import_kinds(ctx.language),
            order@ == walk_order(ctx.tree.nodes@, 0),
            forall|m: int| 0 <= m < order@.len() ==> #[trigger] order@[m] < ctx.tree.nodes@.len(),
            k <= order@.len(),
            imp_views(out@) == imports_over(*ctx, order@.take(k as int)),
        decreases order@.len() - k,
    {
        let i = order[k];
        proof {
            assert(order@.take(k + 1).drop_last() =~= order@.take(k as int));
        }
        let ghost base = imp_views(out@);
        if kind_in(&ctx.tree.nodes[i].kind, kinds) {
            let t = node_text(ctx.source, ctx.tree, i);
            let names = import_names_exec(&t, ctx.language);
            let line = ctx.tree.nodes[i].start_row + 1;
            let ghost want = char_views(names@).map_values(|x: Seq<char>| (x, line as int));
            let mut j: usize = 0;
            while j < names.len()
                invariant
                    j <= names@.len(),
                    imp_views(out@) == base + want.take(j as int),
                    want == char_views(names@).map_values(|x: Seq<char>| (x, line as int)),
                decreases names@.len() - j,
            {
                let ghost o = out@;
                out.push((names[j].clone(), line));
                assert(imp_views(out@) =~= imp_views(o).push((names@[j as int]@, line as int)));
                assert(want.take(j + 1) =~= want.take(j as int).push(want[j as int]));
                j += 1;
            }
            assert(want.take(names@.len() as int) =~= want);
            assert(want == imports_at(*ctx, i as int));
        } else {
            assert(imports_at(*ctx, i as int) =~= Seq::<(Seq<char>, int)>::empty());
            assert(base + imports_at(*ctx, i as int) =~= base);
        }
        k += 1;
    }
    assert(order@.take(order@.len() as int) =~= order@);
    out
}

/// The texts of the identifiers that stand outside every import statement.
fn collect_used_identifiers(ctx: &AnalysisContext) -> (r: Vec<Vec<char>>)
    requires
        ctx.wf(),
    ensures
        char_views(r@) == r07_used(*ctx),
{
    let ikinds = import_kinds(ctx.language);
    let idkinds = ident_kinds(ctx.language);
    let nodes = &ctx.tree.nodes;
    let n = nodes.len();
    let mut vis: Vec<bool> = Vec::new();
    let mut used: Vec<Vec<char>> = Vec::new();
    let mut i: usize = 0;
    while i < n
        invariant
            ctx.wf(),
            n == ctx.tree.nodes@.len(),
            nodes == &ctx.tree.nodes,
            strs(ikinds@) == r07_import_kinds(ctx.language),
            strs(idkinds@) == r07_ident_kinds(ctx.language),
            i <= n,
            vis@.len() == i,
            forall|j: int|
                0 <= j < i ==> #[trigger] vis@[j] == outside_imports(
                    ctx.tree.nodes@,
                    r07_import_kinds(ctx.language),
                    j,
                ),
            char_views(used@) == used_upto(*ctx, i as int),
        decreases n - i,
    {
        let v = if kind_in(&nodes[i].kind, ikinds) {
            false
        } else {
            match nodes[i].parent {
                None => true,
                Some(p) => if p < i {
                    vis[p]
                } else {
                    false
                },
            }
        };
        vis.push(v);
        let ghost o = used@;
        if v && kind_in(&nodes[i].kind, idkinds) {
            let t = node_text(ctx.source, ctx.tree, i);
            if t.len() > 0 {
                used.push(t);
                assert(char_views(used@) =~= char_views(o).push(used@[i as int - i as int + o.len()]@));
            }
        }
        assert(char_views(used@) =~= used_upto(*ctx, i + 1));
        i += 1;
    }
    used
}

pub fn contains_text(used: &Vec<Vec<char>>, name: &Vec<char>) -> (r: bool)
    ensures
        r == char_views(used@).contains(name@),
{
    let mut k: usize = 0;
    while k < used.len()
        invariant
            k <= used@.len(),
            forall|m: int| 0 <= m < k ==> used@[m]@ != name@,
        decreases used@.len() - k,
    {
        if seq_eq(&used[k], name) {
            assert(char_views(used@)[k as int] == name@);
            return true;
        }
        k += 1;
    }
    proof {
        if char_views(used@).contains(name@) {
            let m = choose|m: int| 0 <= m < char_views(used@).len() && char_views(used@)[m] == name@;
            assert(used@[m]@ == name@);
        }
    }
    false
}

proof fn lemma_r07_report_tagged(file: Seq<char>, imps: Seq<(Seq<char>, int)>, used: Seq<Seq<char>>)
    ensures
        tagged(r07_report(file, imps, used), "R07"@, "dead-code"@),
    decreases imps.len(),
{
    if imps.len() > 0 {
        lemma_r07_report_tagged(file, imps.drop_last(), used);
        let (name, line) = imps.last();
        let tail = if used.contains(name) {
            seq![]
        } else {
            seq![finding_plain("R07"@, "dead-code"@, Severity::Warning, file, line, 1, r07_message(name))]
        };
        lemma_tagged_concat(r07_report(file, imps.drop_last(), used), tail, "R07"@, "dead-code"@);
    }
}

impl DeadCode {
    /// Every finding the rule reports carries its id and name.
    pub proof fn lemma_findings_tagged(&self, ctx: AnalysisContext)
        ensures
            tagged(self.spec_findings(ctx), self.spec_id(), self.spec_name()),
    {
        lemma_r07_report_tagged(ctx.file_path@, imports_over(ctx, walk_order(ctx.tree.nodes@, 0)), r07_used(ctx));
    }
}

proof fn lemma_used_has(ctx: AnalysisContext, k: int, j: int)
    requires
        0 <= j < k <= ctx.tree.nodes@.len(),
        outside_imports(ctx.tree.nodes@, r07_import_kinds(ctx.language), j),
        r07_ident_kinds(ctx.language).contains(ctx.tree.nodes@[j].kind@),
        text_at(ctx.source.chars@, ctx.tree.nodes@[j]).len() > 0,
    ensures
        used_upto(ctx, k).contains(text_at(ctx.source.chars@, ctx.tree.nodes@[j])),
    decreases k,
{
    let t = text_at(ctx.source.chars@, ctx.tree.nodes@[j]);
    let p = used_upto(ctx, k - 1);
    let u = used_upto(ctx, k);
    if j == k - 1 {
        assert(u == p + seq![t]);
        assert(u[p.len() as int] == t);
    } else {
        lemma_used_has(ctx, k - 1, j);
        let i = choose|i: int| 0 <= i < p.len() && p[i] == t;
        assert(u.take(p.len() as int) =~= p);
        assert(u[i] == t);
    }
}

proof fn lemma_report_messages(file: Seq<char>, imps: Seq<(Seq<char>, int)>, used: Seq<Seq<char>>)
    ensures
        forall|i: int|
            0 <= i < r07_report(file, imps, used).len() ==> exists|name: Seq<char>|
                !used.contains(name) && (#[trigger] r07_report(file, imps, used)[i]).message == r07_message(name),
    decreases imps.len(),
{
    if imps.len() > 0 {
        lemma_report_messages(file, imps.drop_last(), used);
        let p = r07_report(file, imps.drop_last(), used);
        let r = r07_report(file, imps, used);
        assert forall|i: int| 0 <= i < r.len() implies exists|name: Seq<char>|
            !used.contains(name) && (#[trigger] r[i]).message == r07_message(name) by {
            if i < p.len() {
                assert(r[i] == p[i]);
            } else {
                let name = imps.last().0;
                assert(r[i].message == r07_message(name));
            }
        }
    }
}

proof fn lemma_message_names(a: Seq<char>, b: Seq<char>)
    requires
        r07_message(a) == r07_message(b),
    ensures
        a == b,
{
    let p = "未使用的 import："@;
    let q = " | unused import: "@;
    assert(r07_message(a).len() == p.len() + a.len() + q.len() + a.len());
    assert(r07_message(b).len() == p.len() + b.len() + q.len() + b.len());
    assert(a.len() == b.len());
    assert(r07_message(a).subrange(p.len() as int, (p.len() + a.len()) as int) =~= a);
    assert(r07_message(b).subrange(p.len() as int, (p.len() + b.len()) as int) =~= b);
}

/// The statement kinds that import names, per language.
pub open spec fn import_statement_kinds(l: Language) -> Seq<Seq<char>> {
    match l {
        Language::Rust => seq!["use_declaration"@],
        Language::Python => seq!["import_statement"@, "import_from_statement"@],
        Language::TypeScript | Language::TypeScriptTsx => seq!["import_statement"@],
        Language::CSharp => seq!["using_directive"@],
        Language::Java => seq!["import_declaration"@],
    }
}

/// The node kinds whose text counts as a use of a name, per language.
pub open spec fn counts_as_use(l: Language, k: Seq<char>) -> bool {
    ||| k == "identifier"@
    ||| k == "type_identifier"@ && (l == Language::Rust || l == Language::TypeScript || l
        == Language::TypeScriptTsx)
    ||| k == "field_identifier"@ && l == Language::Rust
}

proof fn lemma_used_only(ctx: AnalysisContext, k: int, t: Seq<char>)
    requires
        0 <= k <= ctx.tree.nodes@.len(),
        used_upto(ctx, k).contains(t),
    ensures
        exists|j: int|
            0 <= j < k && outside_imports(ctx.tree.nodes@, r07_import_kinds(ctx.language), j)
                && r07_ident_kinds(ctx.language).contains(ctx.tree.nodes@[j].kind@) && #[trigger] text_at(
                ctx.source.chars@,
                ctx.tree.nodes@[j],
            ) == t,
    decreases k,
{
    let p = used_upto(ctx, k - 1);
    let u = used_upto(ctx, k);
    let i = choose|i: int| 0 <= i < u.len() && u[i] == t;
    if i < p.len() {
        assert(u.take(p.len() as int) =~= p);
        assert(p[i] == t);
        lemma_used_only(ctx, k - 1, t);
    } else {
        let j = k - 1;
        assert(text_at(ctx.source.chars@, ctx.tree.nodes@[j]) == t);
    }
}

proof fn lemma_imports_over_has(ctx: AnalysisContext, order: Seq<usize>, m: int, q: int)
    requires
        0 <= m < order.len(),
        0 <= q < imports_at(ctx, order[m] as int).len(),
    ensures
        imports_over(ctx, order).contains(imports_at(ctx, order[m] as int)[q]),
    decreases order.len(),
{
    let p = imports_over(ctx, order.drop_last());
    let l = imports_at(ctx, order.last() as int);
    assert(imports_over(ctx, order) == p + l);
    if m < order.len() - 1 {
        assert(order.drop_last()[m] == order[m]);
        lemma_imports_over_has(ctx, order.drop_last(), m, q);
        let i = choose|i: int| 0 <= i < p.len() && p[i] == imports_at(ctx, order[m] as int)[q];
        assert((p + l)[i] == p[i]);
    } else {
        assert((p + l)[p.len() + q] == l[q]);
    }
}

proof fn lemma_report_has(file: Seq<char>, imps: Seq<(Seq<char>, int)>, used: Seq<Seq<char>>, q: int)
    requires
        0 <= q < imps.len(),
        !used.contains(imps[q].0),
    ensures
        r07_report(file, imps, used).contains(
            finding_plain("R07"@, "dead-code"@, Severity::Warning, file, imps[q].1, 1, r07_message(imps[q].0)),
        ),
    decreases imps.len(),
{
    let p = r07_report(file, imps.drop_last(), used);
    let x = finding_plain("R07"@, "dead-code"@, Severity::Warning, file, imps[q].1, 1, r07_message(imps[q].0));
    if q < imps.len() - 1 {
        assert(imps.drop_last()[q] == imps[q]);
        lemma_report_has(file, imps.drop_last(), used, q);
        let i = choose|i: int| 0 <= i < p.len() && p[i] == x;
        assert(r07_report(file, imps, used)[i] == x);
    } else {
        assert(r07_report(file, imps, used) == p + seq![x]);
        assert(r07_report(file, imps, used)[p.len() as int] == x);
    }
}

proof fn lemma_not_used(ctx: AnalysisContext, x: Seq<char>)
    requires
        forall|j: int|
            0 <= j < ctx.tree.nodes@.len() && counts_as_use(ctx.language, ctx.tree.nodes@[j].kind@)
                && outside_imports(ctx.tree.nodes@, import_statement_kinds(ctx.language), j) ==> #[trigger] text_at(
                ctx.source.chars@,
                ctx.tree.nodes@[j],
            ) != x,
    ensures
        !r07_used(ctx).contains(x),
{
    let nodes = ctx.tree.nodes@;
    assert(r07_import_kinds(ctx.language) == import_statement_kinds(ctx.language));
    if r07_used(ctx).contains(x) {
        lemma_used_only(ctx, nodes.len() as int, x);
        let j = choose|j: int|
            0 <= j < nodes.len() && outside_imports(nodes, r07_import_kinds(ctx.language), j)
                && r07_ident_kinds(ctx.language).contains(nodes[j].kind@) && #[trigger] text_at(
                ctx.source.chars@,
                nodes[j],
            ) == x;
        let ks = r07_ident_kinds(ctx.language);
        let i = choose|i: int| 0 <= i < ks.len() && ks[i] == nodes[j].kind@;
        assert(counts_as_use(ctx.language, nodes[j].kind@));
    }
}

proof fn lemma_import_reported(ctx: AnalysisContext, n: int, x: Seq<char>)
    requires
        ctx.tree.wf(),
        0 <= n < ctx.tree.nodes@.len(),
        import_statement_kinds(ctx.language).contains(ctx.tree.nodes@[n].kind@),
        import_names(text_at(ctx.source.chars@, ctx.tree.nodes@[n]), ctx.language).contains(x),
        !r07_used(ctx).contains(x),
    ensures
        r07_report(ctx.file_path@, imports_over(ctx, walk_order(ctx.tree.nodes@, 0)), r07_used(ctx)).contains(
            finding_plain(
                "R07"@,
                "dead-code"@,
                Severity::Warning,
                ctx.file_path@,
                ctx.tree.nodes@[n].start_row + 1,
                1,
                r07_message(x),
            ),
        ),
{
    let nodes = ctx.tree.nodes@;
    assert(r07_import_kinds(ctx.language) == import_statement_kinds(ctx.language));
    let order = walk_order(nodes, 0);
    assert(ctx.tree.nodes.len() == nodes.len());
    lemma_walk_covers(*ctx.tree, n);
    let m = choose|m: int| 0 <= m < order.len() && order[m] == n as usize;
    assert(order[m] as int == n);
    let names = import_names(text_at(ctx.source.chars@, nodes[n]), ctx.language);
    let q = choose|q: int| 0 <= q < names.len() && names[q] == x;
    let ia = imports_at(ctx, n);
    assert(ia == names.map_values(|y: Seq<char>| (y, nodes[n].start_row + 1)));
    assert(ia[q] == (x, nodes[n].start_row + 1));
    lemma_imports_over_has(ctx, order, m, q);
    let imps = imports_over(ctx, order);
    let qq = choose|qq: int| 0 <= qq < imps.len() && imps[qq] == ia[q];
    lemma_report_has(ctx.file_path@, imps, r07_used(ctx), qq);
}

impl DeadCode {
    /// A name that an identifier spells outside every import statement is
    /// never reported as an unused import; in Rust and TypeScript a type
    /// identifier counts as such a use, and in Rust a field identifier too.
    pub proof fn lemma_used_names_not_reported(&self, ctx: AnalysisContext, j: int)
        requires
            0 <= j < ctx.tree.nodes@.len(),
            counts_as_use(ctx.language, ctx.tree.nodes@[j].kind@),
            outside_imports(ctx.tree.nodes@, import_statement_kinds(ctx.language), j),
            text_at(ctx.source.chars@, ctx.tree.nodes@[j]).len() > 0,
        ensures
            ({
                let t = text_at(ctx.source.chars@, ctx.tree.nodes@[j]);
                forall|i: int|
                    0 <= i < self.spec_findings(ctx).len() ==> (#[trigger] self.spec_findings(ctx)[i]).message
                        != "未使用的 import："@ + t + " | unused import: "@ + t
            }),
    {
        let t = text_at(ctx.source.chars@, ctx.tree.nodes@[j]);
        assert(r07_import_kinds(ctx.language) == import_statement_kinds(ctx.language));
        let k = ctx.tree.nodes@[j].kind@;
        assert(r07_ident_kinds(ctx.language).contains(k)) by {
            let ks = r07_ident_kinds(ctx.language);
            if k == "identifier"@ {
                assert(ks[0] == k);
            } else if k == "type_identifier"@ {
                assert(ks[1] == k);
            } else {
                assert(ks[2] == k);
            }
        }
        lemma_used_has(ctx, ctx.tree.nodes@.len() as int, j);
        let used = r07_used(ctx);
        let imps = imports_over(ctx, walk_order(ctx.tree.nodes@, 0));
        lemma_report_messages(ctx.file_path@, imps, used);
        let fs = self.spec_findings(ctx);
        assert forall|i: int| 0 <= i < fs.len() implies (#[trigger] fs[i]).message != "未使用的 import："@ + t
            + " | unused import: "@ + t by {
            let name = choose|name: Seq<char>| !used.contains(name) && fs[i].message == r07_message(name);
            if fs[i].message == "未使用的 import："@ + t + " | unused import: "@ + t {
                assert(r07_message(t) == "未使用的 import："@ + t + " | unused import: "@ + t);
                lemma_message_names(name, t);
            }
        }
    }

    /// An imported name that no identifier outside the import statements
    /// spells (type and field identifiers counting as above) is reported as
    /// unused, at the line of its import statement.
    pub proof fn lemma_unused_names_reported(&self, ctx: AnalysisContext, n: int, x: Seq<char>)
        requires
            ctx.tree.wf(),
            0 <= n < ctx.tree.nodes@.len(),
            import_statement_kinds(ctx.language).contains(ctx.tree.nodes@[n].kind@),
            import_names(text_at(ctx.source.chars@, ctx.tree.nodes@[n]), ctx.language).contains(x),
            forall|j: int|
                0 <= j < ctx.tree.nodes@.len() && counts_as_use(ctx.language, ctx.tree.nodes@[j].kind@)
                    && outside_imports(ctx.tree.nodes@, import_statement_kinds(ctx.language), j) ==> #[trigger] text_at(
                    ctx.source.chars@,
                    ctx.tree.nodes@[j],
                ) != x,
        ensures
            self.spec_findings(ctx).contains(
                finding_plain(
                    "R07"@,
                    "dead-code"@,
                    Severity::Warning,
                    ctx.file_path@,
                    ctx.tree.nodes@[n].start_row + 1,
                    1,
                    "未使用的 import："@ + x + " | unused import: "@ + x,
                ),
            ),
    {
        lemma_not_used(ctx, x);
        lemma_import_reported(ctx, n, x);
        assert(r07_message(x) == "未使用的 import："@ + x + " | unused import: "@ + x);
    }
}

impl Rule for DeadCode {
    open spec fn spec_id(&self) -> Seq<char> {
        "R07"@
    }

    open spec fn spec_name(&self) -> Seq<char> {
        "dead-code"@
    }

    open spec fn spec_severity(&self) -> Severity {
        Severity::Warning
    }

    open spec fn spec_total(&self) -> bool {
        true
    }

    /// C# `using` names a namespace, which a single file cannot match by name.
    open spec fn spec_languages(&self) -> Seq<Language> {
        seq![Language::Rust, Language::Python, Language::TypeScript, Language::TypeScriptTsx, Language::Java]
    }

    /// One finding per imported name that no identifier outside the import
    /// statements spells, in the order the imports are walked.
    open spec fn spec_findings(&self, ctx: AnalysisContext) -> Seq<FindingView> {
        r07_report(ctx.file_path@, imports_over(ctx, walk_order(ctx.tree.nodes@, 0)), r07_used(ctx))
    }

    fn id(&self) -> (r: &'static str) {
        "R07"
    }

    fn name(&self) -> (r: &'static str) {
        "dead-code"
    }

    fn severity(&self) -> (r: Severity) {
        Severity::Warning
    }

    fn languages(&self) -> (r: &'static [Language]) {
        &[Language::Rust, Language::Python, Language::TypeScript, Language::TypeScriptTsx, Language::Java]
    }

    fn analyze(&self, ctx: &AnalysisContext) -> (r: Result<Vec<Finding>, RuleError>)
        ensures
            r is Ok,
    {
        proof {
            self.lemma_findings_tagged(*ctx);
        }
        let imports = collect_imports(ctx);
        let mut out: Vec<Finding> = Vec::new();
        if imports.len() == 0 {
            assert(views(out@) =~= Seq::<FindingView>::empty());
            return Ok(out);
        }
        let used = collect_used_identifiers(ctx);
        let ghost imps = imp_views(imports@);
        let mut k: usize = 0;
        while k < imports.len()
            invariant
                k <= imports@.len(),
                imps == imp_views(imports@),
                views(out@) == r07_report(ctx.file_path@, imps.take(k as int), char_views(used@)),
            decreases imports@.len() - k,
        {
            proof {
                assert(imps.take(k + 1).drop_last() =~= imps.take(k as int));
            }
            let name = &imports[k].0;
            let line = imports[k].1;
            let ghost o = out@;
            if !contains_text(&used, name) {
                let mut m: Vec<char> = Vec::new();
                push_str(&mut m, "未使用的 import：");
                push_chars(&mut m, name);
                push_str(&mut m, " | unused import: ");
                push_chars(&mut m, name);
                assert(m@ =~= r07_message(name@));
                let f = Finding::plain(
                    "R07",
                    "dead-code",
                    Severity::Warning,
                    ctx.file_path,
                    line,
                    1,
                    m,
                    None,
                );
                out.push(f);
                assert(views(out@) =~= views(o) + seq![f@]);
            } else {
                assert(views(out@) =~= views(o) + Seq::<FindingView>::empty());
            }
            k += 1;
        }
        assert(imps.take(imports@.len() as int) =~= imps);
        Ok(out)
    }
}

} // verus!
