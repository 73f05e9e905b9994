//! The shape of a frame's tree: which nodes are the children of which, and
//! how the links between the nodes record it.

use crate::node::Node;
use vstd::prelude::*;

verus! {

/// Whether `l` is the link to the node at position `i`.
pub open spec fn points_to(l: Option<usize>, i: int) -> bool {
    match l {
        Some(q) => q as int == i,
        None => false,
    }
}

/// The children of node `p` among the first `m` nodes, in the order in which
/// they were begun.
pub open spec fn kids_upto(nodes: Seq<Node>, p: int, m: int) -> Seq<int>
    decreases m,
{
    if m <= 0 {
        Seq::empty()
    } else {
        let rest = kids_upto(nodes, p, m - 1);
        if points_to(nodes[m - 1].parent, p) {
            rest.push(m - 1)
        } else {
            rest
        }
    }
}

/// The children of node `p`, in the order in which they were begun.
pub open spec fn kids(nodes: Seq<Node>, p: int) -> Seq<int> {
    kids_upto(nodes, p, nodes.len() as int)
}

/// Whether the links of node `p` and of its children record the children in
/// their order.
pub open spec fn links_ok(nodes: Seq<Node>, p: int) -> bool {
    let ch = kids(nodes, p);
    &&& nodes[p].child_count == ch.len()
    &&& ch.len() == 0 ==> nodes[p].first_child is None && nodes[p].last_child is None
    &&& ch.len() > 0 ==> {
        &&& points_to(nodes[p].first_child, ch[0])
        &&& points_to(nodes[p].last_child, ch[ch.len() - 1])
        &&& nodes[ch[0]].prev_sibling is None
        &&& nodes[ch[ch.len() - 1]].next_sibling is None
    }
    &&& forall|j: int, k: int|
        0 <= j && k == j + 1 && k < ch.len() ==> {
            &&& points_to(nodes[#[trigger] ch[j]].next_sibling, #[trigger] ch[k])
            &&& points_to(nodes[ch[k]].prev_sibling, ch[j])
        }
}

/// Whether node `i` is sound: its parent was begun before it, a root has no
/// siblings, its links record its children, and no extent is negative.
pub open spec fn node_wf(nodes: Seq<Node>, i: int) -> bool {
    &&& match nodes[i].parent {
        Some(p) => p < i,
        None => nodes[i].prev_sibling is None && nodes[i].next_sibling is None,
    }
    &&& links_ok(nodes, i)
    &&& nodes[i].fit.w >= 0
    &&& nodes[i].fit.h >= 0
    &&& nodes[i].size.w >= 0
    &&& nodes[i].size.h >= 0
}

/// Whether the table of nodes is a sound forest.
pub open spec fn tree_wf(nodes: Seq<Node>) -> bool {
    forall|i: int| 0 <= i < nodes.len() ==> #[trigger] node_wf(nodes, i)
}

/// Whether two nodes differ in nothing but the links to their children and
/// siblings.
pub open spec fn same_but_links(a: Node, b: Node) -> bool {
    &&& a.id == b.id
    &&& a.parent == b.parent
    &&& a.style == b.style
    &&& a.fit == b.fit
    &&& a.size == b.size
    &&& a.pos == b.pos
    &&& a.last_touched == b.last_touched
}

/// Whether two nodes have the same links.
pub open spec fn same_links(a: Node, b: Node) -> bool {
    &&& a.parent == b.parent
    &&& a.first_child == b.first_child
    &&& a.last_child == b.last_child
    &&& a.next_sibling == b.next_sibling
    &&& a.prev_sibling == b.prev_sibling
    &&& a.child_count == b.child_count
}

/// Every child found among the first `m` nodes lies there, names `p` as its
/// parent, and the children are listed in rising order.
pub proof fn lemma_kids_upto_props(nodes: Seq<Node>, p: int, m: int)
    requires
        m <= nodes.len(),
    ensures
        kids_upto(nodes, p, m).len() <= (if m < 0 { 0 } else { m }),
        forall|k: int|
            0 <= k < kids_upto(nodes, p, m).len() ==> {
                &&& 0 <= (#[trigger] kids_upto(nodes, p, m)[k]) < m
                &&& points_to(nodes[kids_upto(nodes, p, m)[k]].parent, p)
            },
        forall|k1: int, k2: int|
            0 <= k1 < k2 < kids_upto(nodes, p, m).len() ==> kids_upto(nodes, p, m)[k1]
                < kids_upto(nodes, p, m)[k2],
    decreases m,
{
    if m > 0 {
        lemma_kids_upto_props(nodes, p, m - 1);
    }
}

/// The children of `p` lie in the table, name `p` as their parent and are
/// listed in rising order.
pub proof fn lemma_kids_props(nodes: Seq<Node>, p: int)
    ensures
        kids(nodes, p).len() <= nodes.len(),
        forall|k: int|
            0 <= k < kids(nodes, p).len() ==> {
                &&& 0 <= (#[trigger] kids(nodes, p)[k]) < nodes.len()
                &&& points_to(nodes[kids(nodes, p)[k]].parent, p)
            },
        forall|k1: int, k2: int|
            0 <= k1 < k2 < kids(nodes, p).len() ==> kids(nodes, p)[k1] < kids(nodes, p)[k2],
{
    lemma_kids_upto_props(nodes, p, nodes.len() as int);
}

/// Tables that agree on who is whose parent agree on the children.
pub proof fn lemma_kids_upto_same(a: Seq<Node>, b: Seq<Node>, p: int, m: int)
    requires
        m <= a.len(),
        m <= b.len(),
        forall|j: int| 0 <= j < m ==> a[j].parent == b[j].parent,
    ensures
        kids_upto(a, p, m) == kids_upto(b, p, m),
    decreases m,
{
    if m > 0 {
        lemma_kids_upto_same(a, b, p, m - 1);
    }
}

/// Tables of one length that agree on who is whose parent agree on the
/// children of every node.
pub proof fn lemma_kids_same(a: Seq<Node>, b: Seq<Node>)
    requires
        a.len() == b.len(),
        forall|j: int| 0 <= j < a.len() ==> a[j].parent == b[j].parent,
    ensures
        forall|p: int| #[trigger] kids(a, p) == kids(b, p),
{
    assert forall|p: int| #[trigger] kids(a, p) == kids(b, p) by {
        lemma_kids_upto_same(a, b, p, a.len() as int);
    }
}

/// Tables with the same links at every node record the same children in
/// the same way.
pub proof fn lemma_links_same(a: Seq<Node>, b: Seq<Node>, p: int)
    requires
        a.len() == b.len(),
        0 <= p < a.len(),
        forall|j: int| 0 <= j < a.len() ==> same_links(#[trigger] a[j], b[j]),
        links_ok(b, p),
    ensures
        links_ok(a, p),
{
    lemma_kids_upto_same(a, b, p, a.len() as int);
    lemma_kids_props(b, p);
    let ch = kids(b, p);
    assert(same_links(a[p], b[p]));
    if ch.len() > 0 {
        assert(same_links(a[ch[0]], b[ch[0]]));
        assert(same_links(a[ch[ch.len() - 1]], b[ch[ch.len() - 1]]));
    }
    assert forall|j: int, k: int| 0 <= j && k == j + 1 && k < ch.len() implies {
        &&& points_to(a[#[trigger] ch[j]].next_sibling, #[trigger] ch[k])
        &&& points_to(a[ch[k]].prev_sibling, ch[j])
    } by {
        assert(same_links(a[ch[j]], b[ch[j]]));
        assert(same_links(a[ch[k]], b[ch[k]]));
    }
}

/// In a sound forest a node at or behind the end of the table has no
/// children, and the children of a node come after it.
pub proof fn lemma_kids_after(nodes: Seq<Node>, p: int)
    requires
        tree_wf(nodes),
    ensures
        forall|k: int| 0 <= k < kids(nodes, p).len() ==> p < #[trigger] kids(nodes, p)[k],
        p + 1 >= nodes.len() ==> kids(nodes, p).len() == 0,
{
    lemma_kids_props(nodes, p);
    let ch = kids(nodes, p);
    assert forall|k: int| 0 <= k < ch.len() implies p < #[trigger] ch[k] by {
        assert(node_wf(nodes, ch[k]));
    }
    if p + 1 >= nodes.len() && ch.len() > 0 {
        assert(p < ch[0]);
    }
}

/// In a sound forest the children of `p` among the first `m` nodes all come
/// after `p`, so there are fewer of them than nodes after `p`.
pub proof fn lemma_kids_count(nodes: Seq<Node>, p: int, m: int)
    requires
        tree_wf(nodes),
        0 <= p,
        m <= nodes.len(),
    ensures
        kids_upto(nodes, p, m).len() <= (if m > p + 1 { m - p - 1 } else { 0 }),
    decreases m,
{
    if m > 0 {
        lemma_kids_count(nodes, p, m - 1);
        if points_to(nodes[m - 1].parent, p) {
            assert(node_wf(nodes, m - 1));
        }
    }
}

/// Whether `after` is `before` with one more node, linked in as the last
/// child of `parent` or as a root.
pub open spec fn appended(before: Seq<Node>, after: Seq<Node>, parent: Option<usize>) -> bool {
    let n = before.len() as int;
    let prev = match parent {
        Some(p) => before[p as int].last_child,
        None => None,
    };
    &&& after.len() == n + 1
    &&& after[n].parent == parent
    &&& after[n].first_child is None
    &&& after[n].last_child is None
    &&& after[n].next_sibling is None
    &&& after[n].prev_sibling == prev
    &&& after[n].child_count == 0
    &&& forall|j: int| 0 <= j < n ==> same_but_links(#[trigger] after[j], before[j])
    &&& forall|j: int|
        0 <= j < n && !points_to(parent, j) && !points_to(prev, j) ==> same_links(
            #[trigger] after[j],
            before[j],
        )
    &&& match parent {
        Some(p) => {
            &&& points_to(after[p as int].last_child, n)
            &&& if before[p as int].first_child is None {
                points_to(after[p as int].first_child, n)
            } else {
                after[p as int].first_child == before[p as int].first_child
            }
            &&& after[p as int].child_count == before[p as int].child_count + 1
            &&& after[p as int].next_sibling == before[p as int].next_sibling
            &&& after[p as int].prev_sibling == before[p as int].prev_sibling
        },
        None => true,
    }
    &&& match prev {
        Some(l) => {
            &&& points_to(after[l as int].next_sibling, n)
            &&& after[l as int].prev_sibling == before[l as int].prev_sibling
            &&& after[l as int].first_child == before[l as int].first_child
            &&& after[l as int].last_child == before[l as int].last_child
            &&& after[l as int].child_count == before[l as int].child_count
        },
        None => true,
    }
}

/// The children of every node after a node has been appended.
pub proof fn lemma_appended_kids(before: Seq<Node>, after: Seq<Node>, parent: Option<usize>, q: int)
    requires
        appended(before, after, parent),
    ensures
        kids(after, q) == (if points_to(parent, q) {
            kids(before, q).push(before.len() as int)
        } else {
            kids(before, q)
        }),
{
    let n = before.len() as int;
    assert forall|j: int| 0 <= j < n implies before[j].parent == after[j].parent by {
        assert(same_but_links(after[j], before[j]));
    }
    lemma_kids_upto_same(before, after, q, n);
}

/// The links of the parent and of its children after a node has been
/// appended below it.
proof fn lemma_appended_parent(before: Seq<Node>, after: Seq<Node>, parent: Option<usize>, i: int)
    requires
        tree_wf(before),
        appended(before, after, parent),
        0 <= i < before.len(),
        points_to(parent, i),
    ensures
        links_ok(after, i),
{
    let n = before.len() as int;
    lemma_appended_kids(before, after, parent, i);
    lemma_kids_props(before, i);
    lemma_kids_after(before, i);
    assert(node_wf(before, i));
    let ch = kids(after, i);
    let old_ch = kids(before, i);
    let m = old_ch.len() as int;
    assert(ch == old_ch.push(n));
    assert(ch[m] == n);
    let prev = before[i].last_child;
    assert(parent == Some(i as usize));
    if m > 0 {
        assert(ch[0] == old_ch[0]);
        assert(points_to(prev, old_ch[m - 1]));
        assert(i < old_ch[0]);
        if m > 1 {
            assert(old_ch[0] < old_ch[m - 1]);
        }
    }
    assert forall|j: int, k: int| 0 <= j && k == j + 1 && k < ch.len() implies {
        &&& points_to(after[#[trigger] ch[j]].next_sibling, #[trigger] ch[k])
        &&& points_to(after[ch[k]].prev_sibling, ch[j])
    } by {
        let c = old_ch[j];
        assert(ch[j] == c);
        assert(i < c);
        if k < m {
            let d = old_ch[k];
            assert(ch[k] == d);
            assert(i < d);
            assert(c < old_ch[m - 1]);
            assert(same_links(after[c], before[c]));
            if k < m - 1 {
                assert(d < old_ch[m - 1]);
                assert(same_links(after[d], before[d]));
            }
        }
    }
}

/// The links of a node that is neither the new node nor its parent, after a
/// node has been appended.
proof fn lemma_appended_other(before: Seq<Node>, after: Seq<Node>, parent: Option<usize>, i: int)
    requires
        tree_wf(before),
        parent matches Some(p) ==> p < before.len(),
        appended(before, after, parent),
        0 <= i < before.len(),
        !points_to(parent, i),
    ensures
        links_ok(after, i),
{
    let n = before.len() as int;
    lemma_appended_kids(before, after, parent, i);
    lemma_kids_props(before, i);
    lemma_kids_after(before, i);
    assert(node_wf(before, i));
    let ch = kids(after, i);
    assert(ch == kids(before, i));
    let prev = match parent {
        Some(p) => before[p as int].last_child,
        None => None,
    };
    if let Some(p) = parent {
        assert(node_wf(before, p as int));
        lemma_kids_props(before, p as int);
        lemma_kids_after(before, p as int);
        if let Some(l) = prev {
            let pch = kids(before, p as int);
            assert(points_to(prev, pch[pch.len() - 1]));
            assert(points_to(before[l as int].parent, p as int));
        }
    }
    assert forall|k: int| 0 <= k < ch.len() implies after[#[trigger] ch[k]].prev_sibling
        == before[ch[k]].prev_sibling && after[ch[k]].next_sibling == before[ch[k]].next_sibling by {
        let c = ch[k];
        assert(points_to(before[c].parent, i));
        assert(!points_to(prev, c));
        assert(i < c);
        if points_to(parent, c) {
        } else {
            assert(same_links(after[c], before[c]));
        }
    }
    if points_to(prev, i) {
    } else {
        assert(same_links(after[i], before[i]));
    }
}

/// A sound forest stays one when a node is appended, and the new node joins
/// the children of its parent, at their end, and no others.
pub proof fn lemma_appended(before: Seq<Node>, after: Seq<Node>, parent: Option<usize>)
    requires
        tree_wf(before),
        parent matches Some(p) ==> p < before.len(),
        appended(before, after, parent),
        after[before.len() as int].fit.w >= 0,
        after[before.len() as int].fit.h >= 0,
        after[before.len() as int].size.w >= 0,
        after[before.len() as int].size.h >= 0,
    ensures
        tree_wf(after),
        forall|q: int|
            #[trigger] kids(after, q) == (if points_to(parent, q) {
                kids(before, q).push(before.len() as int)
            } else {
                kids(before, q)
            }),
{
    let n = before.len() as int;
    assert forall|q: int|
        #[trigger] kids(after, q) == (if points_to(parent, q) {
            kids(before, q).push(n)
        } else {
            kids(before, q)
        }) by {
        lemma_appended_kids(before, after, parent, q);
    }
    assert forall|i: int| 0 <= i < after.len() implies #[trigger] node_wf(after, i) by {
        if i == n {
            lemma_kids_after(before, i);
            lemma_appended_kids(before, after, parent, i);
            assert(kids(after, i).len() == 0);
            if let Some(p) = parent {
                assert(node_wf(before, p as int));
            }
        } else {
            assert(node_wf(before, i));
            assert(same_but_links(after[i], before[i]));
            if points_to(parent, i) {
                lemma_appended_parent(before, after, parent, i);
            } else {
                lemma_appended_other(before, after, parent, i);
            }
            let prev = match parent {
                Some(p) => before[p as int].last_child,
                None => None,
            };
            if points_to(prev, i) {
                let p = parent->0 as int;
                assert(node_wf(before, p));
                lemma_kids_props(before, p);
            }
        }
    }
}

/// Begins a node: appends it to the table as the last child of `parent`, or
/// as a root, and links it to its parent and to the child before it. All
/// that changes in the nodes that were there is their links; who is whose
/// parent stays.
pub fn append_child(nodes: &mut Vec<Node>, parent: Option<usize>, node: Node) -> (idx: usize)
    requires
        tree_wf(old(nodes)@),
        parent matches Some(p) ==> p < old(nodes).len(),
        node.fit.w >= 0,
        node.fit.h >= 0,
        node.size.w >= 0,
        node.size.h >= 0,
    ensures
        tree_wf(final(nodes)@),
        idx == old(nodes).len(),
        appended(old(nodes)@, final(nodes)@, parent),
        same_but_links(final(nodes)[idx as int], Node { parent, ..node }),
        forall|q: int|
            #[trigger] kids(final(nodes)@, q) == (if points_to(parent, q) {
                kids(old(nodes)@, q).push(idx as int)
            } else {
                kids(old(nodes)@, q)
            }),
{
    let idx: usize = nodes.len();
    let ghost before = nodes@;
    let mut prev: Option<usize> = None;
    match parent {
        Some(p) => {
            proof {
                assert(node_wf(before, p as int));
                lemma_kids_props(before, p as int);
                lemma_kids_after(before, p as int);
                lemma_kids_count(before, p as int, before.len() as int);
            }
            let above = nodes[p];
            prev = above.last_child;
            match prev {
                Some(l) => {
                    let last = nodes[l];
                    nodes.set(l, Node { next_sibling: Some(idx), ..last });
                    nodes.set(
                        p,
                        Node {
                            last_child: Some(idx),
                            child_count: above.child_count + 1,
                            ..above
                        },
                    );
                },
                None => {
                    nodes.set(
                        p,
                        Node {
                            first_child: Some(idx),
                            last_child: Some(idx),
                            child_count: above.child_count + 1,
                            ..above
                        },
                    );
                },
            }
        },
        None => {},
    }
    nodes.push(
        Node {
            parent,
            first_child: None,
            last_child: None,
            next_sibling: None,
            prev_sibling: prev,
            child_count: 0,
            ..node
        },
    );
    proof {
        lemma_appended(before, nodes@, parent);
    }
    idx
}

} // verus!
