//! The bridge to tree-sitter: parsing source text, and copying the parsed tree
//! into a `SyntaxTree` the rules can read.

use vstd::prelude::*;
use crate::parser::Language;
use crate::syntax::{SyntaxNode, SyntaxTree};
use crate::text::{chars_of, push_str};
use crate::unicode::string_of;
use tree_sitter::Language as Grammar;

verus! {

#[verifier::external_type_specification]
#[verifier::external_body]
pub struct ExTsTree(tree_sitter::Tree);




/// Why a source file could not be parsed.
#[derive(Debug)]
pub enum ParseError {
    UnsupportedExtension(String),
    SetLanguage(String),
    NoTree,
    Io(String),
}

/// The message a parse error reads as.
pub open spec fn parse_error_text(e: ParseError) -> Seq<char> {
    match e {
        ParseError::UnsupportedExtension(s) => "unsupported file extension: "@ + s@,
        ParseError::SetLanguage(s) => "failed to set parser language: "@ + s@,
        ParseError::NoTree => "parser returned no tree"@,
        ParseError::Io(s) => "io error: "@ + s@,
    }
}

impl ParseError {
    /// The error's message.
    pub fn message(&self) -> (r: String)
        ensures
            r@ == parse_error_text(*self),
    {
        let mut m: Vec<char> = Vec::new();
        match self {
            ParseError::UnsupportedExtension(s) => {
                push_str(&mut m, "unsupported file extension: ");
                push_str(&mut m, s.as_str());
            },
            ParseError::SetLanguage(s) => {
                push_str(&mut m, "failed to set parser language: ");
                push_str(&mut m, s.as_str());
            },
            ParseError::NoTree => {
                push_str(&mut m, "parser returned no tree");
            },
            ParseError::Io(s) => {
                push_str(&mut m, "io error: ");
                push_str(&mut m, s.as_str());
            },
        }
        string_of(&m)
    }
}

#[verifier::external_type_specification]
#[verifier::external_body]
pub struct ExTsGrammar(Grammar);

/// The Rust grammar: `tree_sitter_rust::LANGUAGE` as a `tree_sitter::Language`.
#[verifier::external_body]
fn rust_grammar() -> Grammar {
    tree_sitter_rust::LANGUAGE.into()
}

/// The Python grammar: `tree_sitter_python::LANGUAGE` as a `tree_sitter::Language`.
#[verifier::external_body]
fn python_grammar() -> Grammar {
    tree_sitter_python::LANGUAGE.into()
}

/// The TypeScript grammar: `tree_sitter_typescript::LANGUAGE_TYPESCRIPT` as a
/// `tree_sitter::Language`.
#[verifier::external_body]
fn typescript_grammar() -> Grammar {
    tree_sitter_typescript::LANGUAGE_TYPESCRIPT.into()
}

/// The TSX grammar: `tree_sitter_typescript::LANGUAGE_TSX` as a `tree_sitter::Language`.
#[verifier::external_body]
fn tsx_grammar() -> Grammar {
    tree_sitter_typescript::LANGUAGE_TSX.into()
}

/// The C# grammar: `tree_sitter_c_sharp::LANGUAGE` as a `tree_sitter::Language`.
#[verifier::external_body]
fn csharp_grammar() -> Grammar {
    tree_sitter_c_sharp::LANGUAGE.into()
}

/// The Java grammar: `tree_sitter_java::LANGUAGE` as a `tree_sitter::Language`.
#[verifier::external_body]
fn java_grammar() -> Grammar {
    tree_sitter_java::LANGUAGE.into()
}

impl Language {
    /// The tree-sitter grammar of the language, from its grammar crate.
    pub fn tree_sitter_language(self) -> Grammar {
        match self {
            Language::Rust => rust_grammar(),
            Language::Python => python_grammar(),
            Language::TypeScript => typescript_grammar(),
            Language::TypeScriptTsx => tsx_grammar(),
            Language::CSharp => csharp_grammar(),
            Language::Java => java_grammar(),
        }
    }
}

/// A node of tree-sitter's parse as plain values: kind, start and end byte,
/// start row and column, end row, number of named children, and depth below
/// the root.
pub type NodeRow = (String, usize, usize, usize, usize, usize, usize, usize);

pub type RowView = (Seq<char>, usize, usize, usize, usize, usize, usize, usize);

pub open spec fn row_views(v: Seq<NodeRow>) -> Seq<RowView> {
    v.map_values(|r: NodeRow| (r.0@, r.1, r.2, r.3, r.4, r.5, r.6, r.7))
}

/// What tree-sitter parses from this text with this language's grammar: its
/// nodes in pre-order (a node, then its children's subtrees in order).
pub uninterp spec fn parsed_rows(source: Seq<char>, language: Language) -> Seq<RowView>;

/// `tree_sitter::Parser::new`, `Parser::set_language` with the language's
/// grammar, then `Parser::parse` of the whole text. The linked grammars have
/// ABI versions 14 and 15, inside the 13 to 15 this tree-sitter accepts, and
/// `parse` fails only without a language (no timeout or cancellation is set):
/// so a tree always comes back.
#[verifier::external_body]
fn parse_tree(source: &str, language: Language) -> (r: Option<tree_sitter::Tree>)
    ensures
        r is Some,
{
    let mut parser = tree_sitter::Parser::new();
    parser.set_language(&language.tree_sitter_language()).ok()?;
    parser.parse(source, None)
}

/// The same parse, read out as rows in pre-order with a `TreeCursor`
/// (`goto_first_child`, `goto_next_sibling`, `goto_parent`, `depth`, and the
/// node's `kind`, bytes, positions and `named_child_count`). A tree always
/// comes back, as for `parse_tree`, and holds at least its root.
#[verifier::external_body]
fn parse_rows(source: &str, language: Language) -> (r: Option<Vec<NodeRow>>)
    ensures
        r is Some,
        r matches Some(v) ==> v@.len() > 0 && row_views(v@) == parsed_rows(source@, language),
{
    let mut parser = tree_sitter::Parser::new();
    parser.set_language(&language.tree_sitter_language()).ok()?;
    let tree = parser.parse(source, None)?;
    let (mut c, mut rows) = (tree.walk(), Vec::new());
    loop {
        let (n, d) = (c.node(), c.depth() as usize);
        let (s, e) = (n.start_position(), n.end_position());
        rows.push((n.kind().to_string(), n.start_byte(), n.end_byte(), s.row, s.column, e.row, n.named_child_count(), d));
        if !c.goto_first_child() {
            while !c.goto_next_sibling() {
                if !c.goto_parent() { return Some(rows); }
            }
        }
    }
}

/// Parses `source` with the grammar of `language`; every supported language's
/// grammar is accepted, so the parse always succeeds.
pub fn parse(source: &str, language: Language) -> (r: Result<tree_sitter::Tree, ParseError>)
    ensures
        r is Ok,
{
    match parse_tree(source, language) {
        Some(tree) => Ok(tree),
        None => Err(ParseError::NoTree),
    }
}

/// A position kept below `usize::MAX`, so one-based numbering cannot
/// overflow; tree-sitter reports positions as 32-bit values.
pub open spec fn clamp(x: usize) -> usize {
    if x < usize::MAX {
        x
    } else {
        (x - 1) as usize
    }
}

fn clamp_position(x: usize) -> (r: usize)
    ensures
        r == clamp(x),
{
    if x < usize::MAX {
        x
    } else {
        x - 1
    }
}

/// The last row before `i` at depth `d`.
pub open spec fn last_at_depth(rows: Seq<RowView>, i: int, d: int) -> Option<int>
    decreases i,
{
    if i <= 0 {
        None
    } else if rows[i - 1].7 as int == d {
        Some(i - 1)
    } else {
        last_at_depth(rows, i - 1, d)
    }
}

/// The parent of row `i`: the last row before it one level up; the root for
/// a later row that has none. The root has no parent.
pub open spec fn row_parent(rows: Seq<RowView>, i: int) -> Option<usize> {
    if i <= 0 {
        None
    } else {
        match last_at_depth(rows, i, rows[i].7 as int - 1) {
            Some(j) => Some(j as usize),
            None => Some(0usize),
        }
    }
}

/// The rows before `k` whose parent is `p`, in order.
pub open spec fn row_children(rows: Seq<RowView>, p: int, k: int) -> Seq<usize>
    decreases k,
{
    if k <= 0 {
        seq![]
    } else {
        row_children(rows, p, k - 1) + if row_parent(rows, k - 1) == Some(p as usize) {
            seq![(k - 1) as usize]
        } else {
            seq![]
        }
    }
}

/// The tree holds the rows in their order: each node's kind, bytes, clamped
/// positions and named-child count, and the parent and children the depths
/// give.
pub open spec fn tree_of(t: SyntaxTree, rows: Seq<RowView>) -> bool {
    &&& t.nodes@.len() == rows.len()
    &&& forall|i: int|
        0 <= i < rows.len() ==> {
            let n = #[trigger] t.nodes@[i];
            let r = rows[i];
            &&& n.kind@ == r.0
            &&& n.start_byte == r.1
            &&& n.end_byte == r.2
            &&& n.start_row == clamp(r.3)
            &&& n.start_column == clamp(r.4)
            &&& n.end_row == clamp(r.5)
            &&& n.named_child_count == r.6
            &&& n.parent == row_parent(rows, i)
            &&& n.children@ == row_children(rows, i, rows.len() as int)
        }
}

proof fn lemma_last_at_depth(rows: Seq<RowView>, i: int, d: int)
    ensures
        last_at_depth(rows, i, d) matches Some(j) ==> 0 <= j < i && rows[j].7 as int == d,
    decreases i,
{
    if i > 0 && rows[i - 1].7 as int != d {
        lemma_last_at_depth(rows, i - 1, d);
    }
}

proof fn lemma_row_parent(rows: Seq<RowView>, i: int)
    requires
        0 < i,
    ensures
        row_parent(rows, i) matches Some(p) && p < i,
{
    lemma_last_at_depth(rows, i, rows[i].7 as int - 1);
}

proof fn lemma_row_children(rows: Seq<RowView>, p: int, k: int)
    requires
        0 <= k <= usize::MAX,
    ensures
        forall|j: int|
            0 <= j < row_children(rows, p, k).len() ==> {
                let c = #[trigger] row_children(rows, p, k)[j] as int;
                &&& 0 <= c < k
                &&& row_parent(rows, c) == Some(p as usize)
            },
        forall|x: int| 0 <= x < k && row_parent(rows, x) == Some(p as usize) ==> row_children(rows, p, k).contains(x as usize),
    decreases k,
{
    if k > 0 {
        lemma_row_children(rows, p, k - 1);
        let a = row_children(rows, p, k - 1);
        let t = if row_parent(rows, k - 1) == Some(p as usize) {
            seq![(k - 1) as usize]
        } else {
            seq![]
        };
        assert(row_children(rows, p, k) == a + t);
        assert forall|j: int| 0 <= j < (a + t).len() implies {
            let c = #[trigger] (a + t)[j] as int;
            &&& 0 <= c < k
            &&& row_parent(rows, c) == Some(p as usize)
        } by {
            if j < a.len() {
                assert((a + t)[j] == a[j]);
            } else {
                assert((a + t)[j] == t[j - a.len()]);
            }
        }
        assert forall|x: int| 0 <= x < k && row_parent(rows, x) == Some(p as usize) implies (a + t).contains(x as usize) by {
            if x < k - 1 {
                let w = choose|w: int| 0 <= w < a.len() && a[w] == x as usize;
                assert((a + t)[w] == a[w]);
            } else {
                assert((a + t)[a.len() as int] == t[0]);
            }
        }
    }
}

fn copy_indices(v: &Vec<usize>) -> (r: Vec<usize>)
    ensures
        r@ == v@,
{
    let mut r: Vec<usize> = Vec::new();
    let mut i: usize = 0;
    while i < v.len()
        invariant
            i <= v@.len(),
            r@ == v@.take(i as int),
        decreases v@.len() - i,
    {
        r.push(v[i]);
        assert(r@ =~= v@.take(i + 1));
        i += 1;
    }
    assert(v@.take(v@.len() as int) =~= v@);
    r
}

/// The last row before `i` at depth `d`, found by looking back row by row.
fn last_depth_scan(rows: &Vec<NodeRow>, i: usize, d: usize) -> (r: Option<usize>)
    requires
        i <= rows@.len(),
    ensures
        r == match last_at_depth(row_views(rows@), i as int, d as int) {
            Some(j) => Some(j as usize),
            None => None,
        },
{
    let ghost rv = row_views(rows@);
    let mut j: usize = i;
    while j > 0
        invariant
            j <= i <= rows@.len(),
            rv == row_views(rows@),
            last_at_depth(rv, j as int, d as int) == last_at_depth(rv, i as int, d as int),
        decreases j,
    {
        assert(rv[j - 1].7 == rows@[j - 1].7);
        if rows[j - 1].7 == d {
            return Some(j - 1);
        }
        j -= 1;
    }
    None
}

/// Builds the syntax tree that a table of rows in pre-order describes.
pub fn tree_from_rows(rows: &Vec<NodeRow>) -> (r: SyntaxTree)
    requires
        rows@.len() > 0,
    ensures
        r.wf(),
        tree_of(r, row_views(rows@)),
{
    let ghost rv = row_views(rows@);
    let n = rows.len();
    // the last row seen so far at each depth below `n`
    let mut last: Vec<Option<usize>> = Vec::new();
    let mut k: usize = 0;
    while k < n
        invariant
            n == rows@.len(),
            k <= n,
            last@.len() == k,
            forall|d: int| 0 <= d < k ==> last@[d] is None,
        decreases n - k,
    {
        last.push(None);
        k += 1;
    }
    let mut parents: Vec<Option<usize>> = Vec::new();
    let mut i: usize = 0;
    while i < n
        invariant
            n == rows@.len(),
            rv == row_views(rows@),
            i <= n,
            last@.len() == n,
            parents@.len() == i,
            forall|d: int|
                0 <= d < n ==> #[trigger] last@[d] == match last_at_depth(rv, i as int, d) {
                    Some(j) => Some(j as usize),
                    None => None,
                },
            forall|m: int| 0 <= m < i ==> #[trigger] parents@[m] == row_parent(rv, m),
        decreases n - i,
    {
        let d = rows[i].7;
        assert(rv[i as int].7 == d);
        let p: Option<usize> = if i == 0 {
            None
        } else if d == 0 {
            proof {
                lemma_last_at_depth(rv, i as int, -1);
            }
            Some(0)
        } else if d - 1 < n {
            match last[d - 1] {
                Some(j) => Some(j),
                None => Some(0),
            }
        } else {
            // a depth beyond the number of rows: look back row by row
            match last_depth_scan(rows, i, d - 1) {
                Some(j) => Some(j),
                None => Some(0),
            }
        };
        assert(p == row_parent(rv, i as int));
        let ghost old_last = last@;
        if d < n {
            last.set(d, Some(i));
        }
        proof {
            assert forall|dd: int| 0 <= dd < n implies #[trigger] last@[dd] == match last_at_depth(
                rv,
                i + 1,
                dd,
            ) {
                Some(j) => Some(j as usize),
                None => None,
            } by {
                if dd != d as int {
                    assert(last@[dd] == old_last[dd]);
                }
            }
        }
        parents.push(p);
        i += 1;
    }
    let mut kids: Vec<Vec<usize>> = Vec::new();
    let mut k: usize = 0;
    while k < n
        invariant
            k <= n,
            kids@.len() == k,
            forall|q: int| 0 <= q < k ==> (#[trigger] kids@[q])@ == Seq::<usize>::empty(),
        decreases n - k,
    {
        kids.push(Vec::new());
        k += 1;
    }
    let mut i: usize = 0;
    while i < n
        invariant
            n == rows@.len(),
            i <= n,
            kids@.len() == n,
            parents@.len() == n,
            forall|m: int| 0 <= m < n ==> #[trigger] parents@[m] == row_parent(rv, m),
            forall|q: int| 0 <= q < n ==> (#[trigger] kids@[q])@ == row_children(rv, q, i as int),
        decreases n - i,
    {
        let ghost old_kids = kids@;
        match parents[i] {
            Some(p) => {
                proof {
                    lemma_row_parent(rv, i as int);
                }
                kids[p].push(i);
                assert forall|q: int| 0 <= q < n implies (#[trigger] kids@[q])@ == row_children(
                    rv,
                    q,
                    i + 1,
                ) by {
                    if q == p as int {
                        assert(row_children(rv, q, i + 1) =~= old_kids[q]@ + seq![i]);
                    } else {
                        assert(kids@[q] == old_kids[q]);
                        assert(row_children(rv, q, i + 1) =~= old_kids[q]@ + Seq::<usize>::empty());
                    }
                }
            },
            None => {
                assert forall|q: int| 0 <= q < n implies (#[trigger] kids@[q])@ == row_children(
                    rv,
                    q,
                    i + 1,
                ) by {
                    assert(row_children(rv, q, i + 1) =~= old_kids[q]@ + Seq::<usize>::empty());
                }
            },
        }
        i += 1;
    }
    let mut nodes: Vec<SyntaxNode> = Vec::new();
    let mut i: usize = 0;
    while i < n
        invariant
            n == rows@.len(),
            rv == row_views(rows@),
            i <= n,
            kids@.len() == n,
            parents@.len() == n,
            nodes@.len() == i,
            forall|m: int| 0 <= m < n ==> #[trigger] parents@[m] == row_parent(rv, m),
            forall|q: int| 0 <= q < n ==> (#[trigger] kids@[q])@ == row_children(rv, q, n as int),
            forall|m: int|
                0 <= m < i ==> {
                    let nd = #[trigger] nodes@[m];
                    let r = rv[m];
                    &&& nd.kind@ == r.0
                    &&& nd.start_byte == r.1
                    &&& nd.end_byte == r.2
                    &&& nd.start_row == clamp(r.3)
                    &&& nd.start_column == clamp(r.4)
                    &&& nd.end_row == clamp(r.5)
                    &&& nd.named_child_count == r.6
                    &&& nd.parent == row_parent(rv, m)
                    &&& nd.children@ == row_children(rv, m, n as int)
                },
        decreases n - i,
    {
        let row = &rows[i];
        assert(rv[i as int].0 == row.0@);
        let node = SyntaxNode {
            kind: chars_of(row.0.as_str()),
            start_byte: row.1,
            end_byte: row.2,
            start_row: clamp_position(row.3),
            start_column: clamp_position(row.4),
            end_row: clamp_position(row.5),
            named_child_count: row.6,
            parent: parents[i],
            children: copy_indices(&kids[i]),
        };
        nodes.push(node);
        i += 1;
    }
    let r = SyntaxTree { nodes };
    proof {
        assert forall|i: int, j: int|
            #![trigger r.nodes@[i].children@[j]]
            0 <= i < r.nodes@.len() && 0 <= j < r.nodes@[i].children@.len() implies {
                let c = r.nodes@[i].children@[j] as int;
                &&& i < c < r.nodes@.len()
                &&& r.nodes@[c].parent == Some(i as usize)
            } by {
            lemma_row_children(rv, i, n as int);
            let c = r.nodes@[i].children@[j] as int;
            assert(row_children(rv, i, n as int)[j] as int == c);
            if c > 0 {
                lemma_row_parent(rv, c);
            }
        }
        assert forall|i: int|
            0 < i < r.nodes@.len() implies match #[trigger] r.nodes@[i].parent {
                Some(p) => p < i && r.nodes@[p as int].children@.contains(i as usize),
                None => false,
            } by {
            lemma_row_parent(rv, i);
            let p = row_parent(rv, i).unwrap();
            lemma_row_children(rv, p as int, n as int);
        }
    }
    r
}

/// Parses `source` with the grammar of `language` and copies tree-sitter's
/// nodes into a `SyntaxTree`, numbered in pre-order.
pub fn syntax_tree(source: &str, language: Language) -> (r: SyntaxTree)
    ensures
        r.wf(),
        tree_of(r, parsed_rows(source@, language)),
{
    match parse_rows(source, language) {
        Some(rows) => tree_from_rows(&rows),
        None => {
            let mut nodes: Vec<SyntaxNode> = Vec::new();
            nodes.push(
                SyntaxNode {
                    kind: Vec::new(),
                    start_byte: 0,
                    end_byte: 0,
                    start_row: 0,
                    start_column: 0,
                    end_row: 0,
                    named_child_count: 0,
                    parent: None,
                    children: Vec::new(),
                },
            );
            SyntaxTree { nodes }
        },
    }
}

} // verus!
