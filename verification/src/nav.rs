//! Reading a syntax tree: children of a kind, kinds among a list, whole-subtree
//! searches.

use vstd::prelude::*;
use crate::syntax::{walk, walk_order, SyntaxNode, SyntaxTree};
use crate::text::eq_str;

verus! {

/// The string slices of a list, as character sequences.
pub open spec fn strs(ks: Seq<&str>) -> Seq<Seq<char>> {
    ks.map_values(|s: &str| s@)
}

/// Whether `kind` is one of `ks`.
pub fn kind_in(kind: &Vec<char>, ks: &[&str]) -> (r: bool)
    ensures
        r == strs(ks@).contains(kind@),
{
    let mut k: usize = 0;
    while k < ks.len()
        invariant
            k <= ks@.len(),
            forall|m: int| 0 <= m < k ==> ks@[m]@ != kind@,
        decreases ks@.len() - k,
    {
        if eq_str(kind, ks[k]) {
            assert(strs(ks@)[k as int] == kind@);
            return true;
        }
        k += 1;
    }
    proof {
        if strs(ks@).contains(kind@) {
            let m = choose|m: int| 0 <= m < strs(ks@).len() && strs(ks@)[m] == kind@;
            assert(ks@[m]@ == kind@);
        }
    }
    false
}

/// The first child of `i`, from position `k` on, whose kind is one of `ks`.
pub open spec fn first_child_in_from(
    nodes: Seq<SyntaxNode>,
    i: int,
    ks: Seq<Seq<char>>,
    k: int,
) -> Option<usize>
    decreases nodes[i].children@.len() - k,
{
    if k < 0 || k >= nodes[i].children@.len() {
        None
    } else {
        let c = nodes[i].children@[k];
        if ks.contains(nodes[c as int].kind@) {
            Some(c)
        } else {
            first_child_in_from(nodes, i, ks, k + 1)
        }
    }
}

/// The first child of `i` whose kind is one of `ks`.
pub open spec fn first_child_in(nodes: Seq<SyntaxNode>, i: int, ks: Seq<Seq<char>>) -> Option<
    usize,
> {
    first_child_in_from(nodes, i, ks, 0)
}

pub fn first_child_in_exec(tree: &SyntaxTree, i: usize, ks: &[&str]) -> (r: Option<usize>)
    requires
        tree.wf(),
        i < tree.nodes@.len(),
    ensures
        r == first_child_in(tree.nodes@, i as int, strs(ks@)),
        r matches Some(c) ==> i < c < tree.nodes@.len(),
{
    let ghost nodes = tree.nodes@;
    let n = &tree.nodes[i];
    let mut k: usize = 0;
    while k < n.children.len()
        invariant
            tree.wf(),
            nodes == tree.nodes@,
            i < nodes.len(),
            *n == nodes[i as int],
            k <= n.children@.len(),
            first_child_in_from(nodes, i as int, strs(ks@), k as int) == first_child_in(
                nodes,
                i as int,
                strs(ks@),
            ),
        decreases n.children@.len() - k,
    {
        let c = n.children[k];
        assert(nodes[i as int].children@[k as int] == c);
        if kind_in(&tree.nodes[c].kind, ks) {
            return Some(c);
        }
        k += 1;
    }
    None
}

/// Some node of the subtree of `i` (itself included) has one of the kinds `ks`.
pub open spec fn subtree_has_kind(nodes: Seq<SyntaxNode>, i: int, ks: Seq<Seq<char>>) -> bool {
    exists|k: int|
        0 <= k < walk_order(nodes, i).len() && ks.contains(
            nodes[walk_order(nodes, i)[k] as int].kind@,
        )
}

pub fn subtree_has_kind_exec(tree: &SyntaxTree, i: usize, ks: &[&str]) -> (r: bool)
    requires
        tree.wf(),
        i < tree.nodes@.len(),
    ensures
        r == subtree_has_kind(tree.nodes@, i as int, strs(ks@)),
{
    let order = walk(tree, i);
    let mut k: usize = 0;
    while k < order.len()
        invariant
            tree.wf(),
            order@ == walk_order(tree.nodes@, i as int),
            k <= order@.len(),
            forall|m: int|
                0 <= m < k ==> !strs(ks@).contains(tree.nodes@[order@[m] as int].kind@),
            forall|m: int| 0 <= m < order@.len() ==> order@[m] < tree.nodes@.len(),
        decreases order@.len() - k,
    {
        if kind_in(&tree.nodes[order[k]].kind, ks) {
            return true;
        }
        k += 1;
    }
    false
}

} // verus!

verus! {

/// Scanning the children of `i` from position `k`: the first child of one of
/// the kinds `inner` under a child of one of the kinds `outer`.
pub open spec fn first_grandchild_from(
    nodes: Seq<SyntaxNode>,
    i: int,
    outer: Seq<Seq<char>>,
    inner: Seq<Seq<char>>,
    k: int,
) -> Option<usize>
    decreases nodes[i].children@.len() - k,
{
    if k < 0 || k >= nodes[i].children@.len() {
        None
    } else {
        let c = nodes[i].children@[k];
        if outer.contains(nodes[c as int].kind@) {
            match first_child_in(nodes, c as int, inner) {
                Some(g) => Some(g),
                None => first_grandchild_from(nodes, i, outer, inner, k + 1),
            }
        } else {
            first_grandchild_from(nodes, i, outer, inner, k + 1)
        }
    }
}

pub open spec fn first_grandchild(
    nodes: Seq<SyntaxNode>,
    i: int,
    outer: Seq<Seq<char>>,
    inner: Seq<Seq<char>>,
) -> Option<usize> {
    first_grandchild_from(nodes, i, outer, inner, 0)
}

pub fn first_grandchild_exec(tree: &SyntaxTree, i: usize, outer: &[&str], inner: &[&str]) -> (r:
    Option<usize>)
    requires
        tree.wf(),
        i < tree.nodes@.len(),
    ensures
        r == first_grandchild(tree.nodes@, i as int, strs(outer@), strs(inner@)),
        r matches Some(g) ==> i < g < tree.nodes@.len(),
{
    let ghost nodes = tree.nodes@;
    let n = &tree.nodes[i];
    let mut k: usize = 0;
    while k < n.children.len()
        invariant
            tree.wf(),
            nodes == tree.nodes@,
            i < nodes.len(),
            *n == nodes[i as int],
            k <= n.children@.len(),
            first_grandchild_from(nodes, i as int, strs(outer@), strs(inner@), k as int)
                == first_grandchild(nodes, i as int, strs(outer@), strs(inner@)),
        decreases n.children@.len() - k,
    {
        let c = n.children[k];
        assert(nodes[i as int].children@[k as int] == c);
        if kind_in(&tree.nodes[c].kind, outer) {
            match first_child_in_exec(tree, c, inner) {
                Some(g) => {
                    return Some(g);
                },
                None => {},
            }
        }
        k += 1;
    }
    None
}

} // verus!
