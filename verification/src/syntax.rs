//! The syntax tree the rules read: each node's kind, byte range, position,
//! parent and children, held as plain values.

use vstd::prelude::*;
use crate::source::{byte_slice, SourceText};
use crate::text::eq_str;

verus! {

pub struct SyntaxNode {
    pub kind: Vec<char>,
    pub start_byte: usize,
    pub end_byte: usize,
    pub start_row: usize,
    pub start_column: usize,
    pub end_row: usize,
    pub named_child_count: usize,
    pub parent: Option<usize>,
    pub children: Vec<usize>,
}

pub struct SyntaxTree {
    pub nodes: Vec<SyntaxNode>,
}

/// The nodes visited by a depth-first walk from `i` that pops a stack and
/// pushes each node's children in order: the node, then its subtrees from the
/// last child to the first.
pub open spec fn walk_order(nodes: Seq<SyntaxNode>, i: int) -> Seq<usize>
    decreases nodes.len() - i, 1int, 0int,
{
    if 0 <= i < nodes.len() {
        seq![i as usize] + walk_children(nodes, i, nodes[i].children@.len() as int)
    } else {
        seq![]
    }
}

/// The walks of the first `k` children of `i`, the `k`-th child's first.
pub open spec fn walk_children(nodes: Seq<SyntaxNode>, i: int, k: int) -> Seq<usize>
    decreases nodes.len() - i, 0int, k,
{
    if k <= 0 || !(0 <= i < nodes.len()) || k > nodes[i].children@.len() {
        seq![]
    } else {
        let c = nodes[i].children@[k - 1] as int;
        (if i < c < nodes.len() {
            walk_order(nodes, c)
        } else {
            seq![]
        }) + walk_children(nodes, i, k - 1)
    }
}

/// The nodes a stack still holds will be walked from the top down.
pub open spec fn stack_walk(nodes: Seq<SyntaxNode>, st: Seq<usize>) -> Seq<usize>
    decreases st.len(),
{
    if st.len() == 0 {
        seq![]
    } else {
        walk_order(nodes, st.last() as int) + stack_walk(nodes, st.drop_last())
    }
}

/// Position of `x` in `s`, the first one.
pub open spec fn index_in(s: Seq<usize>, x: usize) -> Option<int>
    decreases s.len(),
{
    if s.len() == 0 {
        None
    } else if s.last() == x && index_in(s.drop_last(), x) is None {
        Some(s.len() - 1)
    } else {
        index_in(s.drop_last(), x)
    }
}

/// The node before `i` among its parent's children (`Node::prev_sibling`).
pub open spec fn prev_sibling(nodes: Seq<SyntaxNode>, i: int) -> Option<usize> {
    if 0 <= i < nodes.len() {
        match nodes[i].parent {
            Some(p) => if 0 <= p < nodes.len() {
                match index_in(nodes[p as int].children@, i as usize) {
                    Some(j) => if j > 0 {
                        Some(nodes[p as int].children@[j - 1])
                    } else {
                        None
                    },
                    None => None,
                }
            } else {
                None
            },
            None => None,
        }
    } else {
        None
    }
}

/// The source text of a node.
pub open spec fn text_at(src: Seq<char>, n: SyntaxNode) -> Seq<char> {
    byte_slice(src, n.start_byte as int, n.end_byte as int)
}

impl SyntaxTree {
    /// The root is node 0; children come after their parent, point back to it,
    /// and every other node is a child of an earlier node; rows and columns
    /// leave room for one-based numbering.
    pub open spec fn wf(&self) -> bool {
        let nodes = self.nodes@;
        &&& nodes.len() > 0
        &&& nodes[0].parent is None
        &&& forall|i: int, j: int|
            #![trigger nodes[i].children@[j]]
            0 <= i < nodes.len() && 0 <= j < nodes[i].children@.len() ==> {
                let c = nodes[i].children@[j] as int;
                &&& i < c < nodes.len()
                &&& nodes[c].parent == Some(i as usize)
            }
        &&& forall|i: int|
            0 < i < nodes.len() ==> match #[trigger] nodes[i].parent {
                Some(p) => p < i && nodes[p as int].children@.contains(i as usize),
                None => false,
            }
        &&& forall|i: int|
            0 <= i < nodes.len() ==> {
                &&& #[trigger] nodes[i].start_row < usize::MAX
                &&& nodes[i].start_column < usize::MAX
                &&& nodes[i].end_row < usize::MAX
            }
    }
}

/// A walk from `i` visits `i` and nodes after it.
pub proof fn lemma_walk_bounds(nodes: Seq<SyntaxNode>, i: int)
    requires
        nodes.len() <= usize::MAX,
    ensures
        forall|k: int|
            0 <= k < walk_order(nodes, i).len() ==> i <= #[trigger] walk_order(nodes, i)[k] < nodes.len(),
    decreases nodes.len() - i, 1int, 0int,
{
    if 0 <= i < nodes.len() {
        lemma_walk_children_bounds(nodes, i, nodes[i].children@.len() as int);
        let w = walk_order(nodes, i);
        let wc = walk_children(nodes, i, nodes[i].children@.len() as int);
        assert forall|k: int| 0 <= k < w.len() implies i <= #[trigger] w[k] < nodes.len() by {
            if k > 0 {
                assert(w[k] == wc[k - 1]);
            }
        }
    }
}

proof fn lemma_walk_children_bounds(nodes: Seq<SyntaxNode>, i: int, k: int)
    requires
        nodes.len() <= usize::MAX,
    ensures
        forall|m: int|
            0 <= m < walk_children(nodes, i, k).len() ==> i < #[trigger] walk_children(nodes, i, k)[m]
                < nodes.len(),
    decreases nodes.len() - i, 0int, k,
{
    if k <= 0 || !(0 <= i < nodes.len()) || k > nodes[i].children@.len() {
    } else {
        let c = nodes[i].children@[k - 1] as int;
        lemma_walk_children_bounds(nodes, i, k - 1);
        if i < c < nodes.len() {
            lemma_walk_bounds(nodes, c);
        }
        let a = if i < c < nodes.len() { walk_order(nodes, c) } else { Seq::<usize>::empty() };
        let b = walk_children(nodes, i, k - 1);
        assert(walk_children(nodes, i, k) == a + b);
        assert forall|m: int| 0 <= m < (a + b).len() implies i < #[trigger] (a + b)[m] < nodes.len() by {
            if m < a.len() {
                assert((a + b)[m] == a[m]);
            } else {
                assert((a + b)[m] == b[m - a.len()]);
            }
        }
    }
}

pub proof fn lemma_walk_nonempty(nodes: Seq<SyntaxNode>, i: int)
    requires
        0 <= i < nodes.len(),
    ensures
        walk_order(nodes, i).len() >= 1,
        walk_order(nodes, i)[0] == i as usize,
{
}

proof fn lemma_stack_push_children(
    nodes: Seq<SyntaxNode>,
    rest: Seq<usize>,
    x: int,
    m: int,
)
    requires
        0 <= x < nodes.len(),
        0 <= m <= nodes[x].children@.len(),
        forall|j: int|
            0 <= j < nodes[x].children@.len() ==> x < #[trigger] nodes[x].children@[j] < nodes.len(),
    ensures
        stack_walk(nodes, rest + nodes[x].children@.take(m)) == walk_children(nodes, x, m)
            + stack_walk(nodes, rest),
    decreases m,
{
    let ch = nodes[x].children@;
    if m == 0 {
        assert(rest + ch.take(0) =~= rest);
    } else {
        let st = rest + ch.take(m);
        assert(st.drop_last() =~= rest + ch.take(m - 1));
        assert(st.last() == ch[m - 1]);
        lemma_stack_push_children(nodes, rest, x, m - 1);
    }
}

/// Node indices in the order a depth-first walk from `start` visits them
/// (the node itself and all its descendants).
pub fn walk(tree: &SyntaxTree, start: usize) -> (r: Vec<usize>)
    requires
        tree.wf(),
        start < tree.nodes@.len(),
    ensures
        r@ == walk_order(tree.nodes@, start as int),
        forall|k: int| 0 <= k < r@.len() ==> start <= #[trigger] r@[k] < tree.nodes@.len(),
{
    let ghost nodes = tree.nodes@;
    let count = tree.nodes.len();
    proof {
        lemma_walk_bounds(nodes, start as int);
    }
    let ghost total = walk_order(nodes, start as int);
    let mut out: Vec<usize> = Vec::new();
    let mut stack: Vec<usize> = Vec::new();
    stack.push(start);
    proof {
        assert(stack@.drop_last() =~= Seq::<usize>::empty());
        assert(stack@.last() == start);
        assert(stack_walk(nodes, stack@) == walk_order(nodes, start as int) + stack_walk(nodes, Seq::<usize>::empty()));
        assert(stack_walk(nodes, stack@) =~= total);
        assert(out@ + stack_walk(nodes, stack@) =~= total);
    }
    while stack.len() > 0
        invariant
            tree.wf(),
            nodes == tree.nodes@,
            out@ + stack_walk(nodes, stack@) == total,
            forall|k: int| 0 <= k < stack@.len() ==> #[trigger] stack@[k] < nodes.len(),
        decreases total.len() - out@.len(),
    {
        let x = stack.pop().unwrap();
        let ghost rest = stack@;
        proof {
            lemma_walk_nonempty(nodes, x as int);
        }
        out.push(x);
        let n = &tree.nodes[x];
        let k = n.children.len();
        let mut m: usize = 0;
        while m < k
            invariant
                tree.wf(),
                nodes == tree.nodes@,
                x < nodes.len(),
                n == nodes[x as int],
                k == n.children@.len(),
                m <= k,
                stack@ == rest + n.children@.take(m as int),
                forall|q: int| 0 <= q < rest.len() ==> #[trigger] rest[q] < nodes.len(),
                forall|q: int| 0 <= q < stack@.len() ==> #[trigger] stack@[q] < nodes.len(),
            decreases k - m,
        {
            let c = n.children[m];
            proof {
                assert(nodes[x as int].children@[m as int] == c);
            }
            stack.push(c);
            proof {
                assert(stack@ =~= rest + n.children@.take(m + 1));
            }
            m += 1;
        }
        proof {
            assert(n.children@.take(k as int) =~= n.children@);
            assert forall|j: int| 0 <= j < nodes[x as int].children@.len() implies x < #[trigger] nodes[x as int].children@[j] < nodes.len() by {
            }
            lemma_stack_push_children(nodes, rest, x as int, k as int);
        }
    }
    out
}

/// Position of `x` among `s`, the first one.
pub fn index_in_exec(s: &Vec<usize>, x: usize) -> (r: Option<usize>)
    ensures
        match r {
            Some(j) => index_in(s@, x) == Some(j as int),
            None => index_in(s@, x) is None,
        },
{
    let mut i: usize = 0;
    while i < s.len()
        invariant
            i <= s.len(),
            index_in(s@.take(i as int), x) is None,
        decreases s.len() - i,
    {
        assert(s@.take(i + 1).drop_last() =~= s@.take(i as int));
        if s[i] == x {
            proof {
                lemma_index_in_prefix(s@, x, i as int);
            }
            return Some(i);
        }
        i += 1;
    }
    assert(s@.take(s@.len() as int) =~= s@);
    None
}

/// Once a prefix holds `x` at its end and not before, longer prefixes agree.
proof fn lemma_index_in_prefix(s: Seq<usize>, x: usize, i: int)
    requires
        0 <= i < s.len(),
        s[i] == x,
        index_in(s.take(i), x) is None,
    ensures
        index_in(s, x) == Some(i),
    decreases s.len() - i,
{
    if i == s.len() - 1 {
        assert(s.drop_last() =~= s.take(i));
    } else {
        assert(s.drop_last().take(i) =~= s.take(i));
        lemma_index_in_prefix(s.drop_last(), x, i);
    }
}

pub proof fn lemma_index_in_bound(s: Seq<usize>, x: usize)
    ensures
        match index_in(s, x) {
            Some(j) => 0 <= j < s.len() && s[j] == x,
            None => !s.contains(x),
        },
    decreases s.len(),
{
    if s.len() > 0 {
        lemma_index_in_bound(s.drop_last(), x);
        if index_in(s.drop_last(), x) is None && s.last() != x {
            assert forall|k: int| 0 <= k < s.len() implies s[k] != x by {
                if k < s.len() - 1 {
                    assert(s.drop_last()[k] == s[k]);
                }
            }
        }
    }
}

/// The kind of node `i` is `k`.
pub fn kind_is(tree: &SyntaxTree, i: usize, k: &str) -> (r: bool)
    requires
        i < tree.nodes@.len(),
    ensures
        r == (tree.nodes@[i as int].kind@ == k@),
{
    eq_str(&tree.nodes[i].kind, k)
}

/// The source text of node `i`.
pub fn node_text(src: &SourceText, tree: &SyntaxTree, i: usize) -> (r: Vec<char>)
    requires
        src.wf(),
        i < tree.nodes@.len(),
    ensures
        r@ == text_at(src.chars@, tree.nodes@[i as int]),
        4 * r@.len() + 1 <= usize::MAX,
{
    proof {
        crate::source::lemma_byte_slice_len(
            src.chars@,
            tree.nodes@[i as int].start_byte as int,
            tree.nodes@[i as int].end_byte as int,
        );
    }
    src.text(tree.nodes[i].start_byte, tree.nodes[i].end_byte)
}

} // verus!

verus! {

/// What a child's walk visits, the walk of the first `k` children visits.
proof fn lemma_walk_children_has_child(nodes: Seq<SyntaxNode>, i: int, k: int, m: int, y: usize)
    requires
        0 <= i < nodes.len(),
        0 <= m < k <= nodes[i].children@.len(),
        i < nodes[i].children@[m] < nodes.len(),
        walk_order(nodes, nodes[i].children@[m] as int).contains(y),
    ensures
        walk_children(nodes, i, k).contains(y),
    decreases k,
{
    let c = nodes[i].children@[k - 1] as int;
    let a = if i < c < nodes.len() { walk_order(nodes, c) } else { Seq::<usize>::empty() };
    let b = walk_children(nodes, i, k - 1);
    assert(walk_children(nodes, i, k) == a + b);
    if m == k - 1 {
        let q = choose|q: int| 0 <= q < a.len() && a[q] == y;
        assert((a + b)[q] == y);
    } else {
        lemma_walk_children_has_child(nodes, i, k - 1, m, y);
        let q = choose|q: int| 0 <= q < b.len() && b[q] == y;
        assert((a + b)[a.len() + q] == y);
    }
}

/// What the walk of the first `k` children visits, one child's walk visits.
proof fn lemma_walk_children_from_child(nodes: Seq<SyntaxNode>, i: int, k: int, y: usize)
    requires
        walk_children(nodes, i, k).contains(y),
    ensures
        exists|m: int|
            0 <= m < k && 0 <= i < nodes.len() && k <= nodes[i].children@.len() && i
                < #[trigger] nodes[i].children@[m] < nodes.len() && walk_order(
                nodes,
                nodes[i].children@[m] as int,
            ).contains(y),
    decreases k,
{
    let c = nodes[i].children@[k - 1] as int;
    let a = if i < c < nodes.len() { walk_order(nodes, c) } else { Seq::<usize>::empty() };
    let b = walk_children(nodes, i, k - 1);
    assert(walk_children(nodes, i, k) == a + b);
    let q = choose|q: int| 0 <= q < (a + b).len() && (a + b)[q] == y;
    if q < a.len() {
        assert(a[q] == y);
        assert(nodes[i].children@[k - 1] == c);
    } else {
        assert(b[q - a.len()] == y);
        lemma_walk_children_from_child(nodes, i, k - 1, y);
    }
}

/// The walk from `a` visits the whole walk from any node it visits.
proof fn lemma_walk_closed(nodes: Seq<SyntaxNode>, a: int, y: usize, z: usize)
    requires
        nodes.len() <= usize::MAX,
        walk_order(nodes, a).contains(y),
        walk_order(nodes, y as int).contains(z),
    ensures
        walk_order(nodes, a).contains(z),
    decreases nodes.len() - a,
{
    if 0 <= a < nodes.len() {
        let w = walk_order(nodes, a);
        let wc = walk_children(nodes, a, nodes[a].children@.len() as int);
        assert(w == seq![a as usize] + wc);
        if y as int == a {
        } else {
            let q = choose|q: int| 0 <= q < w.len() && w[q] == y;
            assert(q > 0);
            assert(wc[q - 1] == y);
            lemma_walk_children_from_child(nodes, a, nodes[a].children@.len() as int, y);
            let m = choose|m: int|
                0 <= m < nodes[a].children@.len() && a < #[trigger] nodes[a].children@[m] < nodes.len()
                    && walk_order(nodes, nodes[a].children@[m] as int).contains(y);
            let c = nodes[a].children@[m] as int;
            lemma_walk_closed(nodes, c, y, z);
            lemma_walk_children_has_child(nodes, a, nodes[a].children@.len() as int, m, z);
            let q2 = choose|q2: int| 0 <= q2 < wc.len() && wc[q2] == z;
            assert(w[q2 + 1] == z);
        }
    }
}

/// A walk from the root of a well-formed tree visits every node.
pub proof fn lemma_walk_covers(tree: SyntaxTree, j: int)
    requires
        tree.wf(),
        0 <= j < tree.nodes@.len(),
    ensures
        walk_order(tree.nodes@, 0).contains(j as usize),
    decreases j,
{
    let nodes = tree.nodes@;
    assert(tree.nodes.len() == nodes.len());
    if j == 0 {
        lemma_walk_nonempty(nodes, 0);
    } else {
        let p = nodes[j].parent->0 as int;
        assert(nodes[j].parent matches Some(pp) && pp < j);
        lemma_walk_covers(tree, p);
        let m = choose|m: int| 0 <= m < nodes[p].children@.len() && nodes[p].children@[m] == j as usize;
        assert(p < nodes[p].children@[m] < nodes.len());
        lemma_walk_nonempty(nodes, j);
        assert(walk_order(nodes, j).contains(j as usize)) by {
            assert(walk_order(nodes, j)[0] == j as usize);
        }
        lemma_walk_children_has_child(nodes, p, nodes[p].children@.len() as int, m, j as usize);
        let wc = walk_children(nodes, p, nodes[p].children@.len() as int);
        assert(walk_order(nodes, p) == seq![p as usize] + wc);
        let q = choose|q: int| 0 <= q < wc.len() && wc[q] == j as usize;
        assert(walk_order(nodes, p)[q + 1] == j as usize);
        assert(walk_order(nodes, p).contains(j as usize));
        lemma_walk_closed(nodes, 0, p as usize, j as usize);
    }
}

} // verus!
