//! Measuring: the extent that a node needs for its content, bottom-up.

use crate::geom::{max_int, sat, sat_add, Axis, Size};
use crate::node::{Node, SizingMode};
use crate::tree::{kids, lemma_kids_after, lemma_kids_count, lemma_kids_props, node_wf, points_to, tree_wf};
use vstd::prelude::*;

verus! {

/// The measured extents of the nodes `ch` along `axis`, added up.
pub open spec fn sum_fit(nodes: Seq<Node>, ch: Seq<int>, axis: Axis) -> int
    decreases ch.len(),
{
    if ch.len() == 0 {
        0
    } else {
        sum_fit(nodes, ch.drop_last(), axis) + nodes[ch.last()].fit.spec_along(axis)
    }
}

/// The largest measured extent of the nodes `ch` along `axis`, zero where
/// there is none.
pub open spec fn max_fit(nodes: Seq<Node>, ch: Seq<int>, axis: Axis) -> int
    decreases ch.len(),
{
    if ch.len() == 0 {
        0
    } else {
        max_int(max_fit(nodes, ch.drop_last(), axis), nodes[ch.last()].fit.spec_along(axis) as int)
    }
}

/// The gaps between `count` children that follow each other.
pub open spec fn gaps(gap: u32, count: int) -> int {
    if count > 1 {
        gap * (count - 1)
    } else {
        0
    }
}

/// What the content of node `i` needs along `axis`: along the node's layout
/// axis its own content, its children one after the other and the gaps
/// between them; across it the largest of its own content and its children.
pub open spec fn content_extent(nodes: Seq<Node>, i: int, axis: Axis) -> int {
    let n = nodes[i];
    let ch = kids(nodes, i);
    if axis == n.style.axis {
        n.style.spec_content(axis) + sum_fit(nodes, ch, axis) + gaps(n.style.gap, ch.len() as int)
    } else {
        max_int(n.style.spec_content(axis) as int, max_fit(nodes, ch, axis))
    }
}

/// The extent that node `i` measures along `axis`: the fixed extent where
/// one is declared, else what the content needs, and the node's own padding
/// on top of either.
pub open spec fn fit_extent(nodes: Seq<Node>, i: int, axis: Axis) -> int {
    let n = nodes[i];
    let base = match n.style.spec_sizing(axis) {
        SizingMode::Fixed(v) => v as int,
        _ => content_extent(nodes, i, axis),
    };
    sat(base + n.style.padding.spec_along(axis))
}

/// Whether node `i` holds its measured extent on both axes.
pub open spec fn fit_ok(nodes: Seq<Node>, i: int) -> bool {
    &&& nodes[i].fit.w == fit_extent(nodes, i, Axis::X)
    &&& nodes[i].fit.h == fit_extent(nodes, i, Axis::Y)
}

/// Whether two tables differ in nothing but what node `i` measures.
pub open spec fn same_but_fit(a: Seq<Node>, b: Seq<Node>, i: int) -> bool {
    &&& a.len() == b.len()
    &&& forall|j: int| 0 <= j < a.len() && j != i ==> #[trigger] a[j] == b[j]
    &&& a[i] == (Node { fit: a[i].fit, ..b[i] })
}

/// One more gap is due for every child but the first.
pub proof fn lemma_gaps_step(gap: u32, count: int)
    requires
        count >= 0,
    ensures
        gaps(gap, count + 1) == gaps(gap, count) + (if count >= 1 { gap as int } else { 0 }),
        gaps(gap, count) >= 0,
{
    assert(gap * count == gap * (count - 1) + gap) by (nonlinear_arith);
    if count > 1 {
        assert(gap * (count - 1) >= 0) by (nonlinear_arith)
            requires
                count > 1,
                gap >= 0,
        ;
    }
}

/// The sum and the largest of measured extents over one more node.
pub proof fn lemma_fit_take(nodes: Seq<Node>, ch: Seq<int>, axis: Axis, k: int)
    requires
        0 <= k < ch.len(),
    ensures
        sum_fit(nodes, ch.take(k + 1), axis) == sum_fit(nodes, ch.take(k), axis)
            + nodes[ch[k]].fit.spec_along(axis),
        max_fit(nodes, ch.take(k + 1), axis) == max_int(
            max_fit(nodes, ch.take(k), axis),
            nodes[ch[k]].fit.spec_along(axis) as int,
        ),
{
    assert(ch.take(k + 1).drop_last() == ch.take(k));
}

/// Sums and maxima of measured extents depend on nothing but what the listed
/// nodes measure.
pub proof fn lemma_fit_same(a: Seq<Node>, b: Seq<Node>, ch: Seq<int>, axis: Axis)
    requires
        forall|k: int| 0 <= k < ch.len() ==> a[#[trigger] ch[k]].fit == b[ch[k]].fit,
    ensures
        sum_fit(a, ch, axis) == sum_fit(b, ch, axis),
        max_fit(a, ch, axis) == max_fit(b, ch, axis),
    decreases ch.len(),
{
    if ch.len() > 0 {
        let rest = ch.drop_last();
        assert forall|k: int| 0 <= k < rest.len() implies a[#[trigger] rest[k]].fit
            == b[rest[k]].fit by {
            assert(rest[k] == ch[k]);
        }
        lemma_fit_same(a, b, rest, axis);
        assert(ch.last() == ch[ch.len() - 1]);
    }
}

/// Sums and maxima of extents that are not negative are not negative, and no
/// smaller than any one of them.
pub proof fn lemma_fit_bounds(nodes: Seq<Node>, ch: Seq<int>, axis: Axis)
    requires
        forall|k: int| 0 <= k < ch.len() ==> nodes[#[trigger] ch[k]].fit.spec_along(axis) >= 0,
    ensures
        sum_fit(nodes, ch, axis) >= 0,
        max_fit(nodes, ch, axis) >= 0,
        forall|k: int|
            0 <= k < ch.len() ==> nodes[#[trigger] ch[k]].fit.spec_along(axis) <= sum_fit(
                nodes,
                ch,
                axis,
            ),
        forall|k: int|
            0 <= k < ch.len() ==> nodes[#[trigger] ch[k]].fit.spec_along(axis) <= max_fit(
                nodes,
                ch,
                axis,
            ),
    decreases ch.len(),
{
    if ch.len() > 0 {
        let rest = ch.drop_last();
        assert forall|k: int| 0 <= k < rest.len() implies nodes[#[trigger] rest[k]].fit.spec_along(
            axis,
        ) >= 0 by {
            assert(rest[k] == ch[k]);
        }
        lemma_fit_bounds(nodes, rest, axis);
        assert(ch.last() == ch[ch.len() - 1]);
        assert forall|k: int| 0 <= k < ch.len() implies nodes[#[trigger] ch[k]].fit.spec_along(axis)
            <= sum_fit(nodes, ch, axis) && nodes[ch[k]].fit.spec_along(axis) <= max_fit(
            nodes,
            ch,
            axis,
        ) by {
            if k < rest.len() {
                assert(rest[k] == ch[k]);
            }
        }
    }
}

/// What a node measures depends on nothing but its own style and what its
/// children measure.
pub proof fn lemma_fit_extent_same(a: Seq<Node>, b: Seq<Node>, i: int, axis: Axis)
    requires
        0 <= i < a.len(),
        0 <= i < b.len(),
        kids(a, i) == kids(b, i),
        a[i].style == b[i].style,
        forall|k: int| 0 <= k < kids(a, i).len() ==> a[#[trigger] kids(a, i)[k]].fit == b[kids(a, i)[k]].fit,
    ensures
        fit_extent(a, i, axis) == fit_extent(b, i, axis),
{
    lemma_fit_same(a, b, kids(a, i), axis);
}

/// The children of node `p`, read off the links.
pub fn children_of(nodes: &Vec<Node>, p: usize) -> (ch: Vec<usize>)
    requires
        tree_wf(nodes@),
        p < nodes.len(),
    ensures
        ch.len() == kids(nodes@, p as int).len(),
        forall|k: int| 0 <= k < ch.len() ==> #[trigger] ch[k] as int == kids(nodes@, p as int)[k],
        forall|k: int| 0 <= k < ch.len() ==> p < #[trigger] ch[k] < nodes.len(),
{
    let ghost all = kids(nodes@, p as int);
    proof {
        assert(node_wf(nodes@, p as int));
        lemma_kids_props(nodes@, p as int);
        lemma_kids_after(nodes@, p as int);
        lemma_kids_count(nodes@, p as int, nodes.len() as int);
    }
    let mut ch: Vec<usize> = Vec::new();
    let mut cur: Option<usize> = nodes[p].first_child;
    let count: usize = nodes[p].child_count;
    let mut k: usize = 0;
    while k < count
        invariant
            tree_wf(nodes@),
            p < nodes.len(),
            all == kids(nodes@, p as int),
            count == all.len(),
            k <= count,
            ch.len() == k,
            k < count ==> points_to(cur, all[k as int]),
            forall|t: int| 0 <= t < k ==> #[trigger] ch[t] as int == all[t],
            forall|t: int| 0 <= t < all.len() ==> p < #[trigger] all[t] < nodes.len(),
        decreases count - k,
    {
        assert(cur is Some);
        if let Some(c) = cur {
            ch.push(c);
            proof {
                assert(c as int == all[k as int]);
                assert(node_wf(nodes@, p as int));
                if k + 1 < count {
                    let next = all[k as int + 1];
                    assert(points_to(nodes@[all[k as int]].next_sibling, next));
                }
            }
            cur = nodes[c].next_sibling;
        }
        k = k + 1;
    }
    ch
}

/// Measures node `i` from its style and from what its children measure.
/// Nothing else changes.
pub fn measure(nodes: &mut Vec<Node>, i: usize)
    requires
        tree_wf(old(nodes)@),
        i < old(nodes).len(),
    ensures
        tree_wf(final(nodes)@),
        same_but_fit(final(nodes)@, old(nodes)@, i as int),
        fit_ok(final(nodes)@, i as int),
{
    let ghost before = nodes@;
    let ghost all = kids(before, i as int);
    let ch = children_of(nodes, i);
    let node = nodes[i];
    let style = node.style;
    let main = style.axis;
    let cross = main.cross();
    let mut along: i64 = style.content(main) as i64;
    let mut across: i64 = style.content(cross) as i64;
    let mut k: usize = 0;
    proof {
        lemma_kids_props(before, i as int);
        assert(all.take(0) =~= Seq::<int>::empty());
        assert forall|t: int| 0 <= t < all.len() implies before[#[trigger] all[t]].fit.spec_along(
            main,
        ) >= 0 && before[all[t]].fit.spec_along(cross) >= 0 by {
            assert(node_wf(before, all[t]));
        }
    }
    while k < ch.len()
        invariant
            nodes@ == before,
            all == kids(before, i as int),
            ch.len() == all.len(),
            k <= ch.len(),
            forall|t: int| 0 <= t < ch.len() ==> #[trigger] ch[t] as int == all[t],
            forall|t: int| 0 <= t < ch.len() ==> i < #[trigger] ch[t] < nodes.len(),
            forall|t: int|
                0 <= t < all.len() ==> before[#[trigger] all[t]].fit.spec_along(main) >= 0
                    && before[all[t]].fit.spec_along(cross) >= 0,
            along == sat(
                style.spec_content(main) + sum_fit(before, all.take(k as int), main) + gaps(
                    style.gap,
                    k as int,
                ),
            ),
            across == max_int(
                style.spec_content(cross) as int,
                max_fit(before, all.take(k as int), cross),
            ),
            along >= 0,
            across >= 0,
        decreases ch.len() - k,
    {
        let child = nodes[ch[k]];
        proof {
            lemma_fit_take(before, all, main, k as int);
            lemma_fit_take(before, all, cross, k as int);
            lemma_gaps_step(style.gap, k as int);
            assert forall|t: int| 0 <= t < all.take(k as int).len() implies before[#[trigger] all.take(
                k as int,
            )[t]].fit.spec_along(main) >= 0 by {
                assert(all.take(k as int)[t] == all[t]);
            }
            lemma_fit_bounds(before, all.take(k as int), main);
            assert(before[all[k as int]].fit.spec_along(main) >= 0);
        }
        if k > 0 {
            along = sat_add(along, style.gap as i64);
        }
        along = sat_add(along, child.fit.along(main));
        let c: i64 = child.fit.along(cross);
        if c > across {
            across = c;
        }
        k = k + 1;
    }
    proof {
        assert(all.take(all.len() as int) =~= all);
        lemma_fit_bounds(before, all, main);
        lemma_fit_bounds(before, all, cross);
        lemma_gaps_step(style.gap, all.len() as int);
    }
    let base_main: i64 = match style.sizing(main) {
        SizingMode::Fixed(v) => v as i64,
        _ => along,
    };
    let base_cross: i64 = match style.sizing(cross) {
        SizingMode::Fixed(v) => v as i64,
        _ => across,
    };
    let fit_main: i64 = sat_add(base_main, style.padding.along(main));
    let fit_cross: i64 = sat_add(base_cross, style.padding.along(cross));
    let fit = Size { w: 0, h: 0 }.with(main, fit_main).with(cross, fit_cross);
    nodes.set(i, Node { fit, ..node });
    proof {
        let after = nodes@;
        assert(fit.spec_along(main) == fit_main);
        assert(fit.spec_along(cross) == fit_cross);
        assert forall|j: int| 0 <= j < after.len() implies (#[trigger] after[j]).parent
            == before[j].parent by {}
        crate::tree::lemma_kids_same(after, before);
        assert forall|t: int| 0 <= t < all.len() implies after[#[trigger] all[t]] == before[all[t]] by {
            assert(i < ch[t]);
        }
        assert forall|j: int| 0 <= j < after.len() implies #[trigger] node_wf(after, j) by {
            assert(node_wf(before, j));
            assert(kids(after, j) == kids(before, j));
            lemma_kids_props(before, j);
            lemma_kids_after(before, j);
            crate::tree::lemma_links_same(after, before, j);
        }
        lemma_fit_extent_same(after, before, i as int, main);
        lemma_fit_extent_same(after, before, i as int, cross);
        assert(fit_extent(before, i as int, main) == fit_main);
        assert(fit_extent(before, i as int, cross) == fit_cross);
    }
}

} // verus!
