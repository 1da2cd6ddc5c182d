//! Walking a syntax tree listed in pre-order: the children of a node, the
//! nodes a walk through named children reaches, and node texts. A node's
//! children are the later nodes one level below it, up to the first later
//! node at its own level or above.
use vstd::prelude::*;

use crate::sql_inventory::{lemma_parent_before, parent_of, text_between, text_of_range, well_shaped};
use crate::syntax_tree::{node_tuple, node_tuples, NodeTuple, SyntaxNode};
use crate::text::{chars_eq_str, trim_chars, trim_ws};

verus! {

/// Which children a search takes.
#[derive(Clone, Copy, Debug)]
pub enum ChildTest<'a> {
    /// Named children.
    Named,
    /// Children, named or not, held in the field.
    Field(&'a str),
    /// Named children of the kind.
    NamedKind(&'a str),
}

pub enum ChildTestView {
    Named,
    Field(Seq<char>),
    NamedKind(Seq<char>),
}

pub open spec fn test_view(c: ChildTest) -> ChildTestView {
    match c {
        ChildTest::Named => ChildTestView::Named,
        ChildTest::Field(f) => ChildTestView::Field(f@),
        ChildTest::NamedKind(k) => ChildTestView::NamedKind(k@),
    }
}

pub open spec fn passes(c: ChildTestView, n: NodeTuple) -> bool {
    match c {
        ChildTestView::Named => n.1,
        ChildTestView::Field(f) => n.10 == Some(f),
        ChildTestView::NamedKind(k) => n.1 && n.0 == k,
    }
}

/// The children of node `i` at or after position `j` that pass `c`, in order.
pub open spec fn children_from(t: Seq<NodeTuple>, i: int, j: int, c: ChildTestView) -> Seq<int>
    decreases t.len() - j,
{
    if i < 0 || j <= i || j >= t.len() || t[j].8 <= t[i].8 {
        Seq::empty()
    } else {
        let rest = children_from(t, i, j + 1, c);
        if t[j].8 == t[i].8 + 1 && passes(c, t[j]) {
            seq![j] + rest
        } else {
            rest
        }
    }
}

/// The children of node `i` that pass `c`, in order.
pub open spec fn children(t: Seq<NodeTuple>, i: int, c: ChildTestView) -> Seq<int> {
    children_from(t, i, i + 1, c)
}

/// The first child of node `i` that passes `c`.
pub open spec fn first_child(t: Seq<NodeTuple>, i: int, c: ChildTestView) -> Option<int> {
    if children(t, i, c).len() > 0 {
        Some(children(t, i, c)[0])
    } else {
        None
    }
}

pub open spec fn indices(v: Seq<usize>) -> Seq<int> {
    v.map_values(|x: usize| x as int)
}

pub open spec fn index_opt(v: Option<usize>) -> Option<int> {
    match v {
        Some(x) => Some(x as int),
        None => None,
    }
}

pub proof fn lemma_children_after(t: Seq<NodeTuple>, i: int, j: int, c: ChildTestView)
    ensures
        forall|k: int| 0 <= k < children_from(t, i, j, c).len() ==> i < #[trigger] children_from(t, i, j, c)[k] < t.len()
            && j <= children_from(t, i, j, c)[k],
    decreases t.len() - j,
{
    if !(i < 0 || j <= i || j >= t.len() || t[j].8 <= t[i].8) {
        lemma_children_after(t, i, j + 1, c);
        let rest = children_from(t, i, j + 1, c);
        if t[j].8 == t[i].8 + 1 && passes(c, t[j]) {
            assert forall|k: int| 0 <= k < children_from(t, i, j, c).len() implies i < #[trigger] children_from(
                t,
                i,
                j,
                c,
            )[k] < t.len() && j <= children_from(t, i, j, c)[k] by {
                if k > 0 {
                    assert(children_from(t, i, j, c)[k] == rest[k - 1]);
                }
            }
        }
    }
}

fn passes_exec(c: ChildTest, n: &SyntaxNode) -> (r: bool)
    ensures
        r == passes(test_view(c), node_tuple(*n)),
{
    match c {
        ChildTest::Named => n.named,
        ChildTest::Field(f) => match &n.field {
            Some(g) => crate::text::str_eq(g.as_str(), f),
            None => false,
        },
        ChildTest::NamedKind(k) => n.named && crate::text::str_eq(n.kind.as_str(), k),
    }
}

/// The children of node `i` that pass `c`, in order.
pub fn children_of(nodes: &[SyntaxNode], i: usize, c: ChildTest) -> (r: Vec<usize>)
    requires
        i < nodes.len(),
    ensures
        indices(r@) == children(node_tuples(nodes@), i as int, test_view(c)),
        forall|k: int| 0 <= k < r.len() ==> i < #[trigger] r@[k] < nodes.len(),
{
    let ghost t = node_tuples(nodes@);
    let ghost tv = test_view(c);
    let mut out: Vec<usize> = Vec::new();
    let mut j = i + 1;
    while j < nodes.len() && nodes[j].depth > nodes[i].depth
        invariant
            t == node_tuples(nodes@),
            tv == test_view(c),
            i < j <= nodes.len(),
            indices(out@) + children_from(t, i as int, j as int, tv) == children(t, i as int, tv),
            forall|k: int| 0 <= k < out.len() ==> i < #[trigger] out@[k] < j,
        decreases nodes.len() - j,
    {
        proof {
            assert(t[j as int] == node_tuple(nodes@[j as int]));
            assert(t[i as int] == node_tuple(nodes@[i as int]));
        }
        if nodes[j].depth == nodes[i].depth + 1 && passes_exec(c, &nodes[j]) {
            let ghost before = indices(out@);
            out.push(j);
            proof {
                assert(indices(out@) =~= before.push(j as int));
                assert(before.push(j as int) + children_from(t, i as int, j + 1, tv) =~= before + (seq![j as int]
                    + children_from(t, i as int, j + 1, tv)));
            }
        } else {
            assert(children_from(t, i as int, j as int, tv) == children_from(t, i as int, j + 1, tv));
        }
        j += 1;
    }
    proof {
        if j < nodes.len() {
            assert(t[j as int] == node_tuple(nodes@[j as int]));
            assert(t[i as int] == node_tuple(nodes@[i as int]));
        }
        assert(children_from(t, i as int, j as int, tv) =~= Seq::<int>::empty());
        assert(indices(out@) + Seq::<int>::empty() =~= indices(out@));
    }
    out
}

/// The first child of node `i` that passes `c`.
pub fn first_child_of(nodes: &[SyntaxNode], i: usize, c: ChildTest) -> (r: Option<usize>)
    requires
        i < nodes.len(),
    ensures
        index_opt(r) == first_child(node_tuples(nodes@), i as int, test_view(c)),
        r matches Some(x) ==> i < x < nodes.len(),
{
    let v = children_of(nodes, i, c);
    if v.len() > 0 {
        proof {
            assert(indices(v@)[0] == v@[0] as int);
        }
        Some(v[0])
    } else {
        None
    }
}

/// The text of a node.
pub open spec fn node_text(src: Seq<char>, n: NodeTuple) -> Seq<char> {
    text_between(src, n.2 as int, n.3 as int)
}

pub fn node_text_of(src: &[char], n: &SyntaxNode) -> (r: Vec<char>)
    ensures
        r@ == node_text(src@, node_tuple(*n)),
{
    text_of_range(src, n.start_byte, n.end_byte)
}

/// The trimmed text of a node.
pub fn trimmed_text_of(src: &[char], n: &SyntaxNode) -> (r: Vec<char>)
    ensures
        r@ == trim_ws(node_text(src@, node_tuple(*n))),
{
    let v = node_text_of(src, n);
    trim_chars(v.as_slice())
}

/// A walk through named children from the root reaches node `i`.
pub open spec fn walked(t: Seq<NodeTuple>, i: int) -> bool
    decreases i,
{
    if i <= 0 {
        true
    } else {
        t[i].1 && match parent_of(t, i) {
            Some(p) => 0 <= p < i && walked(t, p),
            None => false,
        }
    }
}

/// Which nodes a walk through named children from the root reaches.
pub fn walked_nodes(nodes: &[SyntaxNode], parents: &[usize]) -> (r: Vec<bool>)
    requires
        well_shaped(node_tuples(nodes@)),
        parents.len() == nodes.len(),
        forall|i: int|
            1 <= i < nodes.len() ==> parent_of(node_tuples(nodes@), i) == Some(#[trigger] parents@[i] as int),
    ensures
        r.len() == nodes.len(),
        forall|i: int| 0 <= i < nodes.len() ==> #[trigger] r@[i] == walked(node_tuples(nodes@), i),
{
    let ghost t = node_tuples(nodes@);
    let mut r: Vec<bool> = Vec::new();
    r.push(true);
    let mut i: usize = 1;
    while i < nodes.len()
        invariant
            t == node_tuples(nodes@),
            1 <= i <= nodes.len(),
            r.len() == i,
            parents.len() == nodes.len(),
            forall|k: int| 1 <= k < nodes.len() ==> parent_of(t, k) == Some(#[trigger] parents@[k] as int),
            forall|k: int| 0 <= k < i ==> #[trigger] r@[k] == walked(t, k),
        decreases nodes.len() - i,
    {
        let p = parents[i];
        proof {
            assert(parent_of(t, i as int) == Some(parents@[i as int] as int));
            lemma_parent_before(t, i as int);
            assert(t[i as int] == node_tuple(nodes@[i as int]));
        }
        let here = nodes[i].named && r[p];
        r.push(here);
        i += 1;
    }
    r
}

/// Whether the node's kind is `k`.
pub fn kind_is(n: &SyntaxNode, k: &str) -> (r: bool)
    ensures
        r == (node_tuple(*n).0 == k@),
{
    crate::text::str_eq(n.kind.as_str(), k)
}

} // verus!
