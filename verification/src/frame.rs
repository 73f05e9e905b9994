//! What holds of a frame under construction: which nodes are open, which
//! are measured, which are laid out, and how the store follows.

use crate::id::Id;
use crate::layout::{belongs_from, laid_out, lemma_laid_out_same, same_but_resolved};
use crate::node::Node;
use crate::sizing::{fit_ok, lemma_fit_extent_same, same_but_fit};
use crate::geom::Axis;
use crate::tree::{
    appended, kids, lemma_appended_kids, lemma_kids_props, lemma_kids_same, node_wf, points_to,
    same_but_links, tree_wf,
};
use vstd::prelude::*;

verus! {

/// Whether node `j` is open: begun and not yet ended.
pub open spec fn is_open(stack: Seq<usize>, j: int) -> bool {
    exists|k: int| 0 <= k < stack.len() && #[trigger] stack[k] == j
}

/// Whether the build stack fits the tree: it holds nodes of the table, the
/// lowest is a root, and each other is a child of the one below it.
pub open spec fn stack_ok(nodes: Seq<Node>, stack: Seq<usize>) -> bool {
    &&& forall|k: int| 0 <= k < stack.len() ==> #[trigger] stack[k] < nodes.len()
    &&& stack.len() > 0 ==> nodes[stack[0] as int].parent is None
    &&& forall|j: int, k: int|
        0 <= j && k == j + 1 && k < stack.len() ==> points_to(
            nodes[#[trigger] stack[k] as int].parent,
            #[trigger] stack[j] as int,
        )
}

/// The number of nodes whose root has been ended: all nodes before the
/// lowest open one.
pub open spec fn done(nodes: Seq<Node>, stack: Seq<usize>) -> int {
    if stack.len() > 0 {
        stack[0] as int
    } else {
        nodes.len() as int
    }
}

/// Whether every node that has been ended holds its measured extent.
pub open spec fn closed_fit(nodes: Seq<Node>, stack: Seq<usize>) -> bool {
    forall|j: int| 0 <= j < nodes.len() && !is_open(stack, j) ==> #[trigger] fit_ok(nodes, j)
}

/// Whether every node whose root has been ended is laid out.
pub open spec fn done_laid_out(nodes: Seq<Node>, stack: Seq<usize>) -> bool {
    forall|q: int| 0 <= q < done(nodes, stack) ==> #[trigger] laid_out(nodes, q)
}

/// Whether every node of the table has an identity and was begun in
/// `frame`.
pub open spec fn stamped(nodes: Seq<Node>, frame: u64) -> bool {
    forall|j: int|
        0 <= j < nodes.len() ==> !(#[trigger] nodes[j]).id.spec_is_null() && nodes[j].last_touched
            == frame
}

/// Whether one of the nodes from `lo` up to `hi` has the identity `k`.
pub open spec fn has_id(nodes: Seq<Node>, lo: int, hi: int, k: u64) -> bool {
    exists|j: int| lo <= j < hi && (#[trigger] nodes[j]).id == Id(k)
}

/// Whether the store holds nothing from the future, and nothing from
/// `frame` but what was begun in it.
pub open spec fn store_fresh(store: Map<u64, Node>, nodes: Seq<Node>, frame: u64) -> bool {
    forall|k: u64|
        store.contains_key(k) ==> (#[trigger] store[k]).last_touched <= frame && (
        store[k].last_touched == frame ==> has_id(nodes, 0, nodes.len() as int, k))
}

/// Whether node `j` is accounted for: the store holds its identity with the
/// stamp of `frame`, or a node under construction has taken it out.
pub open spec fn accounted(
    store: Map<u64, Node>,
    nodes: Seq<Node>,
    frame: u64,
    d: int,
    j: int,
) -> bool {
    let k = nodes[j].id.0;
    ||| store.contains_key(k) && store[k].last_touched == frame
    ||| has_id(nodes, d, nodes.len() as int, k)
}

/// Whether every node whose root has been ended is accounted for.
pub open spec fn done_kept(
    store: Map<u64, Node>,
    nodes: Seq<Node>,
    stack: Seq<usize>,
    frame: u64,
) -> bool {
    forall|j: int|
        0 <= j < done(nodes, stack) ==> #[trigger] accounted(
            store,
            nodes,
            frame,
            done(nodes, stack),
            j,
        )
}

/// Everything that holds of a frame under construction.
pub open spec fn frame_ok(
    store: Map<u64, Node>,
    nodes: Seq<Node>,
    stack: Seq<usize>,
    frame: u64,
) -> bool {
    &&& tree_wf(nodes)
    &&& stack_ok(nodes, stack)
    &&& closed_fit(nodes, stack)
    &&& done_laid_out(nodes, stack)
    &&& stamped(nodes, frame)
    &&& store_fresh(store, nodes, frame)
    &&& done_kept(store, nodes, stack, frame)
}

/// The open nodes stand on the stack in rising order, none before the
/// lowest.
pub proof fn lemma_stack_rises(nodes: Seq<Node>, stack: Seq<usize>, k: int)
    requires
        tree_wf(nodes),
        stack_ok(nodes, stack),
        0 <= k < stack.len(),
    ensures
        stack[0] <= stack[k],
        k > 0 ==> stack[k - 1] < stack[k],
    decreases k,
{
    if k > 0 {
        lemma_stack_rises(nodes, stack, k - 1);
        let a = stack[k - 1];
        let b = stack[k];
        assert(points_to(nodes[b as int].parent, a as int));
        assert(node_wf(nodes, b as int));
    }
}

/// The parent of the node on top of the stack is open, where it has one.
pub proof fn lemma_top_parent_open(nodes: Seq<Node>, stack: Seq<usize>)
    requires
        tree_wf(nodes),
        stack_ok(nodes, stack),
        stack.len() > 0,
    ensures
        match nodes[stack.last() as int].parent {
            Some(p) => stack.len() > 1 && p == stack[stack.len() - 2] && is_open(
                stack.drop_last(),
                p as int,
            ) && p >= stack[0],
            None => stack.len() == 1,
        },
{
    let n = stack.len() as int;
    if n > 1 {
        let a = stack[n - 2];
        let b = stack[n - 1];
        assert(points_to(nodes[b as int].parent, a as int));
        assert(stack.drop_last()[n - 2] == a);
        lemma_stack_rises(nodes, stack, n - 2);
    }
}

/// A frame stays sound when a node is begun: appended below the node on top
/// of the stack, or as a root, pushed on the stack, and its identity taken
/// out of the store.
pub proof fn lemma_begin(
    store: Map<u64, Node>,
    before: Seq<Node>,
    after: Seq<Node>,
    stack: Seq<usize>,
    frame: u64,
)
    requires
        frame_ok(store, before, stack, frame),
        before.len() <= usize::MAX,
        appended(
            before,
            after,
            if stack.len() > 0 {
                Some(stack.last())
            } else {
                None
            },
        ),
        tree_wf(after),
        !after[before.len() as int].id.spec_is_null(),
        after[before.len() as int].last_touched == frame,
    ensures
        frame_ok(
            store.remove(after[before.len() as int].id.0),
            after,
            stack.push(before.len() as usize),
            frame,
        ),
{
    let n = before.len() as int;
    let parent = if stack.len() > 0 {
        Some(stack.last())
    } else {
        None
    };
    let id = after[n].id;
    let store2 = store.remove(id.0);
    let stack2 = stack.push(n as usize);
    assert(stack2.len() == stack.len() + 1);
    assert(stack2[stack.len() as int] == n);
    assert forall|k: int| 0 <= k < stack.len() implies stack2[k] == stack[k] by {}
    assert forall|j: int| 0 <= j < n implies same_but_links(#[trigger] after[j], before[j]) by {}
    // the stack
    assert(stack_ok(after, stack2)) by {
        assert forall|k: int| 0 <= k < stack2.len() implies #[trigger] stack2[k] < after.len() by {
            if k < stack.len() {
                assert(stack[k] < before.len());
            }
        }
        if stack.len() > 0 {
            assert(stack2[0] == stack[0]);
            assert(same_but_links(after[stack[0] as int], before[stack[0] as int]));
        }
        assert forall|j: int, k: int| 0 <= j && k == j + 1 && k < stack2.len() implies points_to(
            after[#[trigger] stack2[k] as int].parent,
            #[trigger] stack2[j] as int,
        ) by {
            if k < stack.len() {
                assert(points_to(before[stack[k] as int].parent, stack[j] as int));
                assert(same_but_links(after[stack[k] as int], before[stack[k] as int]));
            } else {
                assert(stack2[j] == stack.last());
            }
        }
    }
    assert(done(after, stack2) == done(before, stack)) by {
        if stack.len() > 0 {
            assert(stack2[0] == stack[0]);
        }
    }
    let d = done(before, stack);
    if stack.len() > 0 {
        lemma_stack_rises(before, stack, stack.len() - 1);
    }
    // measured extents
    assert(closed_fit(after, stack2)) by {
        assert forall|j: int| 0 <= j < after.len() && !is_open(stack2, j) implies #[trigger] fit_ok(
            after,
            j,
        ) by {
            if j == n {
                assert(stack2[stack.len() as int] == j);
            }
            if !is_open(stack, j) {
                assert(fit_ok(before, j));
                lemma_appended_kids(before, after, parent, j);
                if points_to(parent, j) {
                    assert(stack[stack.len() - 1] == j);
                }
                lemma_kids_props(before, j);
                assert forall|k: int| 0 <= k < kids(after, j).len() implies after[#[trigger] kids(
                    after,
                    j,
                )[k]].fit == before[kids(after, j)[k]].fit by {
                    let c = kids(before, j)[k];
                    assert(same_but_links(after[c], before[c]));
                }
                assert(same_but_links(after[j], before[j]));
                lemma_fit_extent_same(after, before, j, Axis::X);
                lemma_fit_extent_same(after, before, j, Axis::Y);
            } else {
                let k = choose|k: int| 0 <= k < stack.len() && #[trigger] stack[k] == j;
                assert(stack2[k] == j);
            }
        }
    }
    // layout
    assert(done_laid_out(after, stack2)) by {
        assert forall|q: int| 0 <= q < d implies #[trigger] laid_out(after, q) by {
            assert(laid_out(before, q));
            lemma_appended_kids(before, after, parent, q);
            lemma_kids_props(before, q);
            assert(same_but_links(after[q], before[q]));
            assert forall|k: int| 0 <= k < kids(before, q).len() implies {
                &&& after[#[trigger] kids(before, q)[k]].fit == before[kids(before, q)[k]].fit
                &&& after[kids(before, q)[k]].size == before[kids(before, q)[k]].size
                &&& after[kids(before, q)[k]].pos == before[kids(before, q)[k]].pos
                &&& after[kids(before, q)[k]].style == before[kids(before, q)[k]].style
            } by {
                let c = kids(before, q)[k];
                assert(same_but_links(after[c], before[c]));
            }
            lemma_laid_out_same(after, before, q);
        }
    }
    // identities
    assert(stamped(after, frame)) by {
        assert forall|j: int| 0 <= j < after.len() implies !(#[trigger] after[j]).id.spec_is_null()
            && after[j].last_touched == frame by {
            if j < n {
                assert(same_but_links(after[j], before[j]));
                assert(!before[j].id.spec_is_null());
            }
        }
    }
    assert(store_fresh(store2, after, frame)) by {
        assert forall|k: u64| store2.contains_key(k) implies (#[trigger] store2[k]).last_touched
            <= frame && (store2[k].last_touched == frame ==> has_id(after, 0, after.len() as int, k)) by {
            assert(store.contains_key(k));
            assert(store2[k] == store[k]);
            if store[k].last_touched == frame {
                let j = choose|j: int| 0 <= j < before.len() && (#[trigger] before[j]).id == Id(k);
                assert(same_but_links(after[j], before[j]));
                assert(after[j].id == Id(k));
            }
        }
    }
    assert(done_kept(store2, after, stack2, frame)) by {
        assert forall|j: int| 0 <= j < d implies #[trigger] accounted(store2, after, frame, d, j) by {
            assert(accounted(store, before, frame, d, j));
            assert(same_but_links(after[j], before[j]));
            let k = before[j].id.0;
            if k == id.0 {
                assert(after[n].id == Id(k));
            } else if store.contains_key(k) && store[k].last_touched == frame {
                assert(store2.contains_key(k));
            } else {
                let j2 = choose|j2: int| d <= j2 < before.len() && (#[trigger] before[j2]).id == Id(k);
                assert(same_but_links(after[j2], before[j2]));
                assert(after[j2].id == Id(k));
            }
        }
    }
}

/// What holds once the node on top of the stack has been measured and
/// taken off the stack. Where the node has a parent, the frame is sound
/// again; where it is a root, its subtree is yet to be laid out.
pub proof fn lemma_measured(
    store: Map<u64, Node>,
    before: Seq<Node>,
    after: Seq<Node>,
    stack: Seq<usize>,
    frame: u64,
)
    requires
        frame_ok(store, before, stack, frame),
        stack.len() > 0,
        same_but_fit(after, before, stack.last() as int),
        fit_ok(after, stack.last() as int),
        tree_wf(after),
    ensures
        stack_ok(after, stack.drop_last()),
        closed_fit(after, stack.drop_last()),
        stamped(after, frame),
        store_fresh(store, after, frame),
        forall|q: int| 0 <= q < done(before, stack) ==> #[trigger] laid_out(after, q),
        forall|j: int|
            0 <= j < done(before, stack) ==> #[trigger] accounted(
                store,
                after,
                frame,
                done(before, stack),
                j,
            ),
        stack.len() > 1 ==> frame_ok(store, after, stack.drop_last(), frame),
{
    let i = stack.last() as int;
    let rest = stack.drop_last();
    let d = done(before, stack);
    assert(stack[stack.len() - 1] == i);
    assert(i < before.len());
    lemma_top_parent_open(before, stack);
    lemma_stack_rises(before, stack, stack.len() - 1);
    assert forall|j: int| 0 <= j < after.len() implies (#[trigger] after[j]).parent
        == before[j].parent by {}
    lemma_kids_same(after, before);
    assert forall|k: int| 0 <= k < rest.len() implies rest[k] == stack[k] by {}
    assert(stack_ok(after, rest)) by {
        assert forall|k: int| 0 <= k < rest.len() implies #[trigger] rest[k] < after.len() by {
            assert(stack[k] < before.len());
        }
        assert forall|j: int, k: int| 0 <= j && k == j + 1 && k < rest.len() implies points_to(
            after[#[trigger] rest[k] as int].parent,
            #[trigger] rest[j] as int,
        ) by {
            assert(points_to(before[stack[k] as int].parent, stack[j] as int));
        }
        if rest.len() > 0 {
            assert(rest[0] == stack[0]);
        }
    }
    assert(closed_fit(after, rest)) by {
        assert forall|j: int| 0 <= j < after.len() && !is_open(rest, j) implies #[trigger] fit_ok(
            after,
            j,
        ) by {
            if j != i {
                if is_open(stack, j) {
                    let k = choose|k: int| 0 <= k < stack.len() && #[trigger] stack[k] == j;
                    assert(rest[k] == j);
                }
                assert(fit_ok(before, j));
                lemma_kids_props(before, j);
                assert forall|k: int| 0 <= k < kids(after, j).len() implies after[#[trigger] kids(
                    after,
                    j,
                )[k]].fit == before[kids(after, j)[k]].fit by {
                    let c = kids(before, j)[k];
                    assert(points_to(before[c].parent, j));
                    if c == i {
                        assert(is_open(rest, j));
                    }
                }
                lemma_fit_extent_same(after, before, j, Axis::X);
                lemma_fit_extent_same(after, before, j, Axis::Y);
            }
        }
    }
    assert(stamped(after, frame)) by {
        assert forall|j: int| 0 <= j < after.len() implies !(#[trigger] after[j]).id.spec_is_null()
            && after[j].last_touched == frame by {
            assert(!before[j].id.spec_is_null());
        }
    }
    assert(store_fresh(store, after, frame)) by {
        assert forall|k: u64| store.contains_key(k) implies (#[trigger] store[k]).last_touched
            <= frame && (store[k].last_touched == frame ==> has_id(after, 0, after.len() as int, k)) by {
            if store[k].last_touched == frame {
                let j = choose|j: int| 0 <= j < before.len() && (#[trigger] before[j]).id == Id(k);
                assert(after[j].id == Id(k));
            }
        }
    }
    assert forall|q: int| 0 <= q < d implies #[trigger] laid_out(after, q) by {
        assert(laid_out(before, q));
        lemma_kids_props(before, q);
        assert forall|k: int| 0 <= k < kids(before, q).len() implies after[#[trigger] kids(
            before,
            q,
        )[k]] == before[kids(before, q)[k]] by {
            let c = kids(before, q)[k];
            assert(points_to(before[c].parent, q));
        }
        lemma_laid_out_same(after, before, q);
    }
    assert forall|j: int| 0 <= j < d implies #[trigger] accounted(store, after, frame, d, j) by {
        assert(accounted(store, before, frame, d, j));
        let k = before[j].id.0;
        if !(store.contains_key(k) && store[k].last_touched == frame) {
            let j2 = choose|j2: int| d <= j2 < before.len() && (#[trigger] before[j2]).id == Id(k);
            assert(after[j2].id == Id(k));
        }
    }
    if stack.len() > 1 {
        assert(done(after, rest) == d);
    }
}

/// The store after the nodes from `lo` up to `hi` have been put in, one
/// after the other.
pub open spec fn stored_range(store: Map<u64, Node>, nodes: Seq<Node>, lo: int, hi: int) -> Map<
    u64,
    Node,
>
    decreases hi - lo,
{
    if hi <= lo {
        store
    } else {
        stored_range(store, nodes, lo, hi - 1).insert(nodes[hi - 1].id.0, nodes[hi - 1])
    }
}

/// What the store holds after nodes have been put in: under the identity of
/// each of them one of them, and what it held before under every other.
pub proof fn lemma_stored_range(store: Map<u64, Node>, nodes: Seq<Node>, lo: int, hi: int, k: u64)
    requires
        0 <= lo <= hi <= nodes.len(),
    ensures
        has_id(nodes, lo, hi, k) ==> stored_range(store, nodes, lo, hi).contains_key(k) && exists|
            j: int,
        |
            lo <= j < hi && (#[trigger] nodes[j]).id == Id(k) && stored_range(store, nodes, lo, hi)[k]
                == nodes[j],
        !has_id(nodes, lo, hi, k) ==> (stored_range(store, nodes, lo, hi).contains_key(k)
            <==> store.contains_key(k)) && stored_range(store, nodes, lo, hi)[k] == store[k],
    decreases hi - lo,
{
    if hi > lo {
        lemma_stored_range(store, nodes, lo, hi - 1, k);
        let last = nodes[hi - 1];
        if last.id == Id(k) {
            assert(has_id(nodes, lo, hi, k));
        } else if has_id(nodes, lo, hi, k) {
            let j = choose|j: int| lo <= j < hi && (#[trigger] nodes[j]).id == Id(k);
            assert(j < hi - 1);
            assert(has_id(nodes, lo, hi - 1, k));
            let j1 = choose|j1: int|
                lo <= j1 < hi - 1 && (#[trigger] nodes[j1]).id == Id(k) && stored_range(
                    store,
                    nodes,
                    lo,
                    hi - 1,
                )[k] == nodes[j1];
            assert(lo <= j1 < hi && nodes[j1].id == Id(k));
        } else {
            if has_id(nodes, lo, hi - 1, k) {
                let j = choose|j: int| lo <= j < hi - 1 && (#[trigger] nodes[j]).id == Id(k);
                assert(lo <= j < hi && nodes[j].id == Id(k));
            }
        }
    }
}

/// A frame is sound again when a root has been ended: measured and taken
/// off the stack, its subtree laid out, and the subtree's nodes put into the
/// store.
pub proof fn lemma_root_done(
    store: Map<u64, Node>,
    measured: Seq<Node>,
    after: Seq<Node>,
    r: int,
    frame: u64,
)
    requires
        tree_wf(measured),
        tree_wf(after),
        0 <= r < measured.len(),
        closed_fit(measured, Seq::<usize>::empty()),
        stamped(measured, frame),
        store_fresh(store, measured, frame),
        forall|q: int| 0 <= q < r ==> #[trigger] laid_out(measured, q),
        forall|j: int| 0 <= j < r ==> #[trigger] accounted(store, measured, frame, r, j),
        same_but_resolved(after, measured),
        forall|j: int|
            0 <= j < measured.len() && !belongs_from(measured, j, r) ==> #[trigger] after[j]
                == measured[j],
        forall|q: int| r <= q < measured.len() ==> #[trigger] laid_out(after, q),
    ensures
        frame_ok(
            stored_range(store, after, r, after.len() as int),
            after,
            Seq::<usize>::empty(),
            frame,
        ),
{
    let none = Seq::<usize>::empty();
    let n = after.len() as int;
    let store2 = stored_range(store, after, r, n);
    assert forall|j: int| 0 <= j < after.len() implies (#[trigger] after[j]).parent
        == measured[j].parent by {}
    lemma_kids_same(after, measured);
    assert(stack_ok(after, none));
    assert(closed_fit(after, none)) by {
        assert forall|j: int| 0 <= j < after.len() && !is_open(none, j) implies #[trigger] fit_ok(
            after,
            j,
        ) by {
            assert(!is_open(none, j));
            assert(fit_ok(measured, j));
            assert forall|k: int| 0 <= k < kids(after, j).len() implies after[#[trigger] kids(
                after,
                j,
            )[k]].fit == measured[kids(after, j)[k]].fit by {
                lemma_kids_props(measured, j);
            }
            lemma_fit_extent_same(after, measured, j, Axis::X);
            lemma_fit_extent_same(after, measured, j, Axis::Y);
        }
    }
    assert(done_laid_out(after, none)) by {
        assert forall|q: int| 0 <= q < n implies #[trigger] laid_out(after, q) by {
            if q < r {
                assert(laid_out(measured, q));
                assert(node_wf(measured, q));
                lemma_kids_props(measured, q);
                assert forall|k: int| 0 <= k < kids(measured, q).len() implies after[#[trigger] kids(
                    measured,
                    q,
                )[k]] == measured[kids(measured, q)[k]] by {
                    let c = kids(measured, q)[k];
                    assert(points_to(measured[c].parent, q));
                }
                lemma_laid_out_same(after, measured, q);
            }
        }
    }
    assert(stamped(after, frame)) by {
        assert forall|j: int| 0 <= j < after.len() implies !(#[trigger] after[j]).id.spec_is_null()
            && after[j].last_touched == frame by {
            assert(!measured[j].id.spec_is_null());
        }
    }
    assert(store_fresh(store2, after, frame)) by {
        assert forall|k: u64| store2.contains_key(k) implies (#[trigger] store2[k]).last_touched
            <= frame && (store2[k].last_touched == frame ==> has_id(after, 0, n, k)) by {
            lemma_stored_range(store, after, r, n, k);
            if has_id(after, r, n, k) {
                let j = choose|j: int|
                    r <= j < n && (#[trigger] after[j]).id == Id(k) && store2[k] == after[j];
                assert(0 <= j < n && after[j].id == Id(k));
            } else {
                assert(store.contains_key(k));
                if store[k].last_touched == frame {
                    let j = choose|j: int| 0 <= j < measured.len() && (#[trigger] measured[j]).id == Id(k);
                    assert(after[j].id == Id(k));
                }
            }
        }
    }
    assert(done_kept(store2, after, none, frame)) by {
        assert forall|j: int| 0 <= j < n implies #[trigger] accounted(store2, after, frame, n, j) by {
            let k = after[j].id.0;
            assert(after[j].id == measured[j].id);
            lemma_stored_range(store, after, r, n, k);
            if j < r {
                assert(accounted(store, measured, frame, r, j));
                if has_id(measured, r, n, k) {
                    let j2 = choose|j2: int| r <= j2 < n && (#[trigger] measured[j2]).id == Id(k);
                    assert(after[j2].id == Id(k));
                    assert(has_id(after, r, n, k));
                }
            } else {
                assert(has_id(after, r, n, k));
            }
            if has_id(after, r, n, k) {
                let j3 = choose|j3: int|
                    r <= j3 < n && (#[trigger] after[j3]).id == Id(k) && store2[k] == after[j3];
                assert(store2[k].last_touched == frame);
            }
        }
    }
}

} // verus!
