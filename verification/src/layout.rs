//! Resolving: from the measured extents to final sizes and positions,
//! top-down.

use crate::geom::{max_int, sat, sat_add, sat_sub, Axis, Point, Size};
use crate::grow::{water_fill, water_filled};
use crate::node::Node;
use crate::sizing::{
    children_of, gaps, lemma_fit_bounds, lemma_fit_take, lemma_gaps_step, sum_fit,
};
use crate::tree::{
    kids, lemma_kids_after, lemma_kids_props, lemma_kids_same, lemma_links_same, node_wf,
    points_to, same_links, tree_wf,
};
use vstd::prelude::*;

verus! {

/// What the children of `p` measure along `axis`, child by child.
pub open spec fn kid_fits(nodes: Seq<Node>, p: int, axis: Axis) -> Seq<i64> {
    Seq::new(kids(nodes, p).len(), |k: int| nodes[kids(nodes, p)[k]].fit.spec_along(axis))
}

/// The resolved extents of the children of `p` along `axis`, child by child.
pub open spec fn kid_sizes(nodes: Seq<Node>, p: int, axis: Axis) -> Seq<i64> {
    Seq::new(kids(nodes, p).len(), |k: int| nodes[kids(nodes, p)[k]].size.spec_along(axis))
}

/// Which children of `p` grow along `axis`, child by child.
pub open spec fn kid_grows(nodes: Seq<Node>, p: int, axis: Axis) -> Seq<bool> {
    Seq::new(kids(nodes, p).len(), |k: int| nodes[kids(nodes, p)[k]].style.spec_grows(axis))
}

/// The extent of node `p` along `axis` inside its padding.
pub open spec fn inner_extent(nodes: Seq<Node>, p: int, axis: Axis) -> int {
    nodes[p].size.spec_along(axis) - nodes[p].style.padding.spec_along(axis)
}

/// The space that node `p` has left along its layout axis, once its padding,
/// what its children measure and the gaps between them are taken off.
pub open spec fn leftover(nodes: Seq<Node>, p: int) -> int {
    let a = nodes[p].style.axis;
    inner_extent(nodes, p, a) - sum_fit(nodes, kids(nodes, p), a) - gaps(
        nodes[p].style.gap,
        kids(nodes, p).len() as int,
    )
}

/// The resolved extent of a child across its parent's layout axis: what it
/// measures, or the parent's inner extent where the child grows and that is
/// more.
pub open spec fn cross_size(nodes: Seq<Node>, p: int, c: int) -> int {
    let b = nodes[p].style.axis.spec_cross();
    if nodes[c].style.spec_grows(b) {
        max_int(nodes[c].fit.spec_along(b) as int, inner_extent(nodes, p, b))
    } else {
        nodes[c].fit.spec_along(b) as int
    }
}

/// Whether the children of `p` have their resolved sizes: along the layout
/// axis of `p` the leftover space is shared among those that grow, and the
/// others keep what they measure; across it each child stands alone.
pub open spec fn grown_ok(nodes: Seq<Node>, p: int) -> bool {
    let a = nodes[p].style.axis;
    &&& water_filled(
        kid_fits(nodes, p, a),
        kid_grows(nodes, p, a),
        leftover(nodes, p),
        kid_sizes(nodes, p, a),
    )
    &&& forall|k: int|
        0 <= k < kids(nodes, p).len() ==> nodes[#[trigger] kids(nodes, p)[k]].size.spec_along(
            a.spec_cross(),
        ) == cross_size(nodes, p, kids(nodes, p)[k])
}

/// Whether `a` differs from `b` in nothing but resolved sizes and positions.
pub open spec fn same_but_resolved(a: Seq<Node>, b: Seq<Node>) -> bool {
    &&& a.len() == b.len()
    &&& forall|j: int|
        0 <= j < a.len() ==> #[trigger] a[j] == (Node { size: a[j].size, pos: a[j].pos, ..b[j] })
}

/// A sound forest stays one when sizes and positions change and no size
/// becomes negative; the children stay the same.
pub proof fn lemma_resolved_wf(a: Seq<Node>, b: Seq<Node>)
    requires
        tree_wf(b),
        same_but_resolved(a, b),
        forall|j: int| 0 <= j < a.len() ==> (#[trigger] a[j]).size.w >= 0 && a[j].size.h >= 0,
    ensures
        tree_wf(a),
        forall|p: int| #[trigger] kids(a, p) == kids(b, p),
{
    assert forall|j: int| 0 <= j < a.len() implies (#[trigger] a[j]).parent == b[j].parent by {}
    lemma_kids_same(a, b);
    assert forall|j: int| 0 <= j < a.len() implies same_links(#[trigger] a[j], b[j]) by {}
    assert forall|i: int| 0 <= i < a.len() implies #[trigger] node_wf(a, i) by {
        assert(node_wf(b, i));
        lemma_links_same(a, b, i);
    }
}

/// Gives the children of `p` their resolved sizes. Nothing else changes.
pub fn grow_children(nodes: &mut Vec<Node>, p: usize)
    requires
        tree_wf(old(nodes)@),
        p < old(nodes).len(),
    ensures
        tree_wf(final(nodes)@),
        same_but_resolved(final(nodes)@, old(nodes)@),
        forall|j: int|
            0 <= j < old(nodes).len() ==> (#[trigger] final(nodes)[j]).pos == old(nodes)[j].pos,
        forall|j: int|
            0 <= j < old(nodes).len() && !points_to(old(nodes)[j].parent, p as int)
                ==> #[trigger] final(nodes)[j] == old(nodes)[j],
        grown_ok(final(nodes)@, p as int),
{
    let ghost before = nodes@;
    let ghost all = kids(before, p as int);
    let ch = children_of(nodes, p);
    let parent = nodes[p];
    let main = parent.style.axis;
    let cross = main.cross();
    let gap = parent.style.gap;
    let inner_main: i64 = sat_sub(parent.size.along(main), parent.style.padding.along(main));
    let inner_cross: i64 = sat_sub(parent.size.along(cross), parent.style.padding.along(cross));
    proof {
        assert(node_wf(before, p as int));
        lemma_kids_props(before, p as int);
        lemma_kids_after(before, p as int);
        assert(all.take(0) =~= Seq::<int>::empty());
        assert forall|j: int| 0 <= j < before.len() implies (#[trigger] before[j]).size.w >= 0
            && before[j].size.h >= 0 by {
            assert(node_wf(before, j));
        }
        assert forall|t: int| 0 <= t < all.len() implies before[#[trigger] all[t]].fit.spec_along(
            main,
        ) >= 0 && before[all[t]].fit.spec_along(cross) >= 0 by {
            assert(node_wf(before, all[t]));
        }
    }
    let mut ext: Vec<i64> = Vec::new();
    let mut mask: Vec<bool> = Vec::new();
    let mut used: i64 = 0;
    let mut k: usize = 0;
    while k < ch.len()
        invariant
            nodes@ == before,
            all == kids(before, p as int),
            ch.len() == all.len(),
            k <= ch.len(),
            ext.len() == k,
            mask.len() == k,
            forall|t: int| 0 <= t < ch.len() ==> #[trigger] ch[t] as int == all[t],
            forall|t: int| 0 <= t < ch.len() ==> p < #[trigger] ch[t] < nodes.len(),
            forall|t: int| 0 <= t < all.len() ==> p < #[trigger] all[t] < before.len(),
            forall|t: int|
                0 <= t < all.len() ==> before[#[trigger] all[t]].fit.spec_along(main) >= 0,
            forall|t: int| 0 <= t < k ==> #[trigger] ext[t] == before[all[t]].fit.spec_along(main),
            forall|t: int| 0 <= t < k ==> #[trigger] mask[t] == before[all[t]].style.spec_grows(main),
            used == sat(sum_fit(before, all.take(k as int), main) + gaps(gap, k as int)),
            used >= 0,
        decreases ch.len() - k,
    {
        let child = nodes[ch[k]];
        proof {
            lemma_fit_take(before, all, main, k as int);
            lemma_gaps_step(gap, k as int);
            assert forall|t: int| 0 <= t < all.take(k as int).len() implies before[#[trigger] all.take(
                k as int,
            )[t]].fit.spec_along(main) >= 0 by {
                assert(all.take(k as int)[t] == all[t]);
            }
            lemma_fit_bounds(before, all.take(k as int), main);
            assert(before[all[k as int]].fit.spec_along(main) >= 0);
        }
        if k > 0 {
            used = sat_add(used, gap as i64);
        }
        used = sat_add(used, child.fit.along(main));
        ext.push(child.fit.along(main));
        mask.push(child.style.grows(main));
        k = k + 1;
    }
    let budget: i64 = sat_sub(inner_main, used);
    proof {
        assert(all.take(all.len() as int) =~= all);
        lemma_fit_bounds(before, all, main);
        lemma_gaps_step(gap, all.len() as int);
        assert(ext@ =~= kid_fits(before, p as int, main));
        assert(mask@ =~= kid_grows(before, p as int, main));
        assert forall|t: int| 0 <= t < ext.len() && #[trigger] mask[t] implies 0 <= ext[t] && ext[t]
            + budget <= i64::MAX by {
            assert(ext[t] == before[all[t]].fit.spec_along(main));
        }
    }
    let ghost start = ext@;
    water_fill(&mut ext, &mask, budget);
    proof {
        assert(water_filled(start, mask@, leftover(before, p as int), ext@));
    }
    let mut k: usize = 0;
    while k < ch.len()
        invariant
            tree_wf(before),
            nodes.len() == before.len(),
            p < nodes.len(),
            all == kids(before, p as int),
            ch.len() == all.len(),
            ext.len() == all.len(),
            start.len() == all.len(),
            k <= ch.len(),
            cross == main.spec_cross(),
            main == before[p as int].style.axis,
            inner_cross == inner_extent(before, p as int, cross),
            forall|t: int| 0 <= t < ch.len() ==> #[trigger] ch[t] as int == all[t],
            forall|t: int| 0 <= t < ch.len() ==> p < #[trigger] ch[t] < nodes.len(),
            forall|t: int| 0 <= t < all.len() ==> p < #[trigger] all[t] < before.len(),
            forall|t1: int, t2: int| 0 <= t1 < t2 < all.len() ==> all[t1] < all[t2],
            forall|t: int| 0 <= t < all.len() ==> points_to(before[#[trigger] all[t]].parent, p as int),
            forall|t: int| 0 <= t < all.len() ==> #[trigger] ext[t] >= start[t],
            forall|t: int|
                0 <= t < all.len() ==> #[trigger] start[t] == before[all[t]].fit.spec_along(main),
            forall|t: int| 0 <= t < all.len() ==> before[#[trigger] all[t]].fit.spec_along(main) >= 0
                && before[all[t]].fit.spec_along(cross) >= 0,
            forall|j: int|
                0 <= j < nodes.len() ==> #[trigger] nodes[j] == (Node {
                    size: nodes[j].size,
                    ..before[j]
                }),
            forall|j: int|
                0 <= j < nodes.len() && !points_to(before[j].parent, p as int) ==> #[trigger] nodes[j]
                    == before[j],
            forall|j: int| 0 <= j < nodes.len() ==> (#[trigger] nodes[j]).size.w >= 0 && nodes[j].size.h >= 0,
            forall|t: int|
                0 <= t < k ==> (#[trigger] nodes[all[t]]).size.spec_along(main) == ext[t]
                    && nodes[all[t]].size.spec_along(cross) == cross_size(before, p as int, all[t]),
        decreases ch.len() - k,
    {
        let c: usize = ch[k];
        let child = nodes[c];
        let fit_cross: i64 = child.fit.along(cross);
        let across: i64 = if child.style.grows(cross) && inner_cross > fit_cross {
            inner_cross
        } else {
            fit_cross
        };
        let size = Size { w: 0, h: 0 }.with(main, ext[k]).with(cross, across);
        proof {
            assert(c as int == all[k as int]);
            assert(child == (Node { size: child.size, ..before[c as int] }));
            assert(size.spec_along(main) == ext[k as int]);
            assert(size.spec_along(cross) == across);
            assert(start[k as int] >= 0);
            assert(before[all[k as int]].fit.spec_along(cross) >= 0);
            assert forall|t: int| 0 <= t < k implies all[t] != c by {
                assert(all[t] < all[k as int]);
            }
        }
        nodes.set(c, Node { size, ..child });
        k = k + 1;
    }
    proof {
        let after = nodes@;
        assert forall|j: int| 0 <= j < after.len() implies #[trigger] after[j] == (Node {
            size: after[j].size,
            pos: after[j].pos,
            ..before[j]
        }) by {
            assert(after[j] == (Node { size: after[j].size, ..before[j] }));
        }
        lemma_resolved_wf(after, before);
        assert(kids(after, p as int) == all);
        assert(after[p as int] == before[p as int]);
        assert(kid_sizes(after, p as int, main) =~= ext@);
        assert(kid_fits(after, p as int, main) =~= start);
        assert(kid_grows(after, p as int, main) =~= mask@);
        assert forall|t: int| 0 <= t < all.len() implies after[#[trigger] all[t]].fit == before[all[t]].fit by {}
        crate::sizing::lemma_fit_same(after, before, all, main);
        assert(leftover(after, p as int) == leftover(before, p as int));
        assert forall|t: int| 0 <= t < all.len() implies after[#[trigger] all[t]].size.spec_along(
            main.spec_cross(),
        ) == cross_size(after, p as int, all[t]) by {
            assert(after[all[t]].size.spec_along(cross) == cross_size(before, p as int, all[t]));
        }
    }
}

/// The way from the first of the nodes `ch` to behind the last of them along
/// `axis`: their resolved extents, each followed by one gap.
pub open spec fn run_extent(nodes: Seq<Node>, ch: Seq<int>, axis: Axis, gap: u32) -> int
    decreases ch.len(),
{
    if ch.len() == 0 {
        0
    } else {
        run_extent(nodes, ch.drop_last(), axis, gap) + nodes[ch.last()].size.spec_along(axis) + gap
    }
}

/// Where child number `k` of `p` belongs by the rules of the parent: along
/// the layout axis behind the parent's leading padding and the children
/// before it, across it behind the parent's leading padding.
pub open spec fn natural_pos(nodes: Seq<Node>, p: int, k: int) -> Point {
    let a = nodes[p].style.axis;
    let b = a.spec_cross();
    let along = sat(
        nodes[p].pos.spec_along(a) + nodes[p].style.padding.spec_lead(a) + run_extent(
            nodes,
            kids(nodes, p).take(k),
            a,
            nodes[p].style.gap,
        ),
    );
    let across = sat(nodes[p].pos.spec_along(b) + nodes[p].style.padding.spec_lead(b));
    (Point { x: 0, y: 0 }).spec_with(a, along as i64).spec_with(b, across as i64)
}

/// Whether every child of `p` stands where it belongs: at its own fixed
/// position where it declares one, else where the parent puts it.
pub open spec fn placed_ok(nodes: Seq<Node>, p: int) -> bool {
    forall|k: int|
        0 <= k < kids(nodes, p).len() ==> (#[trigger] nodes[kids(nodes, p)[k]]).pos == (match nodes[kids(
            nodes,
            p,
        )[k]].style.fixed_pos {
            Some(f) => f,
            None => natural_pos(nodes, p, k),
        })
}

/// Whether the root `r` is resolved: it has the size that it measures and
/// stands at its fixed position, or at the origin where it declares none.
pub open spec fn root_ok(nodes: Seq<Node>, r: int) -> bool {
    &&& nodes[r].size == nodes[r].fit
    &&& nodes[r].pos == (match nodes[r].style.fixed_pos {
        Some(f) => f,
        None => Point { x: 0, y: 0 },
    })
}

/// Whether node `p` is laid out: its children have their sizes and
/// positions, and so has `p` itself where it is a root.
pub open spec fn laid_out(nodes: Seq<Node>, p: int) -> bool {
    &&& grown_ok(nodes, p)
    &&& placed_ok(nodes, p)
    &&& nodes[p].parent is None ==> root_ok(nodes, p)
}

/// The way past one more node.
pub proof fn lemma_run_take(nodes: Seq<Node>, ch: Seq<int>, axis: Axis, gap: u32, k: int)
    requires
        0 <= k < ch.len(),
    ensures
        run_extent(nodes, ch.take(k + 1), axis, gap) == run_extent(nodes, ch.take(k), axis, gap)
            + nodes[ch[k]].size.spec_along(axis) + gap,
{
    assert(ch.take(k + 1).drop_last() == ch.take(k));
}

/// The way past nodes depends on nothing but their resolved sizes, and is
/// not negative where they are not.
pub proof fn lemma_run_same(a: Seq<Node>, b: Seq<Node>, ch: Seq<int>, axis: Axis, gap: u32)
    requires
        forall|k: int| 0 <= k < ch.len() ==> a[#[trigger] ch[k]].size == b[ch[k]].size,
    ensures
        run_extent(a, ch, axis, gap) == run_extent(b, ch, axis, gap),
    decreases ch.len(),
{
    if ch.len() > 0 {
        let rest = ch.drop_last();
        assert forall|k: int| 0 <= k < rest.len() implies a[#[trigger] rest[k]].size
            == b[rest[k]].size by {
            assert(rest[k] == ch[k]);
        }
        lemma_run_same(a, b, rest, axis, gap);
        assert(ch.last() == ch[ch.len() - 1]);
    }
}

/// The way past nodes without negative sizes is not negative.
pub proof fn lemma_run_bounds(nodes: Seq<Node>, ch: Seq<int>, axis: Axis, gap: u32)
    requires
        forall|k: int| 0 <= k < ch.len() ==> nodes[#[trigger] ch[k]].size.spec_along(axis) >= 0,
    ensures
        run_extent(nodes, ch, axis, gap) >= 0,
    decreases ch.len(),
{
    if ch.len() > 0 {
        let rest = ch.drop_last();
        assert forall|k: int| 0 <= k < rest.len() implies nodes[#[trigger] rest[k]].size.spec_along(
            axis,
        ) >= 0 by {
            assert(rest[k] == ch[k]);
        }
        lemma_run_bounds(nodes, rest, axis, gap);
        assert(ch.last() == ch[ch.len() - 1]);
    }
}

/// Whether the children of `p` have their sizes depends on nothing but the
/// size and style of `p` and on what its children measure, declare and have
/// as their size.
pub proof fn lemma_grown_same(a: Seq<Node>, b: Seq<Node>, p: int)
    requires
        0 <= p < a.len(),
        0 <= p < b.len(),
        kids(a, p) == kids(b, p),
        a[p].size == b[p].size,
        a[p].style == b[p].style,
        forall|k: int|
            0 <= k < kids(b, p).len() ==> {
                &&& a[#[trigger] kids(b, p)[k]].fit == b[kids(b, p)[k]].fit
                &&& a[kids(b, p)[k]].size == b[kids(b, p)[k]].size
                &&& a[kids(b, p)[k]].style == b[kids(b, p)[k]].style
            },
    ensures
        grown_ok(a, p) == grown_ok(b, p),
{
    let ch = kids(b, p);
    let ax = b[p].style.axis;
    assert(kid_fits(a, p, ax) =~= kid_fits(b, p, ax));
    assert(kid_sizes(a, p, ax) =~= kid_sizes(b, p, ax));
    assert(kid_grows(a, p, ax) =~= kid_grows(b, p, ax));
    crate::sizing::lemma_fit_same(a, b, ch, ax);
    assert(leftover(a, p) == leftover(b, p));
    assert forall|k: int| 0 <= k < ch.len() implies cross_size(a, p, #[trigger] ch[k]) == cross_size(
        b,
        p,
        ch[k],
    ) by {}
    if grown_ok(b, p) {
        assert forall|k: int| 0 <= k < ch.len() implies a[#[trigger] ch[k]].size.spec_along(
            ax.spec_cross(),
        ) == cross_size(a, p, ch[k]) by {
            assert(b[ch[k]].size.spec_along(ax.spec_cross()) == cross_size(b, p, ch[k]));
        }
    }
    if grown_ok(a, p) {
        assert forall|k: int| 0 <= k < ch.len() implies b[#[trigger] ch[k]].size.spec_along(
            ax.spec_cross(),
        ) == cross_size(b, p, ch[k]) by {
            assert(a[ch[k]].size.spec_along(ax.spec_cross()) == cross_size(a, p, ch[k]));
        }
    }
}

/// Whether the children of `p` stand where they belong depends on nothing
/// but the position and style of `p` and on the sizes, positions and styles
/// of its children.
pub proof fn lemma_placed_same(a: Seq<Node>, b: Seq<Node>, p: int)
    requires
        0 <= p < a.len(),
        0 <= p < b.len(),
        kids(a, p) == kids(b, p),
        a[p].pos == b[p].pos,
        a[p].style == b[p].style,
        forall|k: int|
            0 <= k < kids(b, p).len() ==> {
                &&& a[#[trigger] kids(b, p)[k]].pos == b[kids(b, p)[k]].pos
                &&& a[kids(b, p)[k]].size == b[kids(b, p)[k]].size
                &&& a[kids(b, p)[k]].style == b[kids(b, p)[k]].style
            },
    ensures
        placed_ok(a, p) == placed_ok(b, p),
{
    let ch = kids(b, p);
    let ax = b[p].style.axis;
    assert forall|k: int| 0 <= k < ch.len() implies natural_pos(a, p, k) == natural_pos(b, p, k) by {
        let pre = ch.take(k);
        assert forall|t: int| 0 <= t < pre.len() implies a[#[trigger] pre[t]].size == b[pre[t]].size by {
            assert(pre[t] == ch[t]);
        }
        lemma_run_same(a, b, pre, ax, b[p].style.gap);
    }
    if placed_ok(b, p) {
        assert forall|k: int| 0 <= k < ch.len() implies (#[trigger] a[ch[k]]).pos == (match a[ch[k]].style.fixed_pos {
            Some(f) => f,
            None => natural_pos(a, p, k),
        }) by {
            assert(b[ch[k]].pos == (match b[ch[k]].style.fixed_pos {
                Some(f) => f,
                None => natural_pos(b, p, k),
            }));
        }
    }
    if placed_ok(a, p) {
        assert forall|k: int| 0 <= k < ch.len() implies (#[trigger] b[ch[k]]).pos == (match b[ch[k]].style.fixed_pos {
            Some(f) => f,
            None => natural_pos(b, p, k),
        }) by {
            assert(a[ch[k]].pos == (match a[ch[k]].style.fixed_pos {
                Some(f) => f,
                None => natural_pos(a, p, k),
            }));
        }
    }
}

/// Whether node `p` is laid out depends on nothing but `p` and its children.
pub proof fn lemma_laid_out_same(a: Seq<Node>, b: Seq<Node>, p: int)
    requires
        0 <= p < a.len(),
        0 <= p < b.len(),
        kids(a, p) == kids(b, p),
        a[p].parent == b[p].parent,
        a[p].size == b[p].size,
        a[p].pos == b[p].pos,
        a[p].fit == b[p].fit,
        a[p].style == b[p].style,
        forall|k: int|
            0 <= k < kids(b, p).len() ==> {
                &&& a[#[trigger] kids(b, p)[k]].fit == b[kids(b, p)[k]].fit
                &&& a[kids(b, p)[k]].size == b[kids(b, p)[k]].size
                &&& a[kids(b, p)[k]].pos == b[kids(b, p)[k]].pos
                &&& a[kids(b, p)[k]].style == b[kids(b, p)[k]].style
            },
    ensures
        laid_out(a, p) == laid_out(b, p),
{
    lemma_grown_same(a, b, p);
    lemma_placed_same(a, b, p);
}

/// Puts the children of `p` where they belong. Nothing but their positions
/// changes.
pub fn place_children(nodes: &mut Vec<Node>, p: usize)
    requires
        tree_wf(old(nodes)@),
        p < old(nodes).len(),
    ensures
        tree_wf(final(nodes)@),
        final(nodes).len() == old(nodes).len(),
        forall|j: int|
            0 <= j < old(nodes).len() ==> #[trigger] final(nodes)[j] == (Node {
                pos: final(nodes)[j].pos,
                ..old(nodes)[j]
            }),
        forall|j: int|
            0 <= j < old(nodes).len() && !points_to(old(nodes)[j].parent, p as int)
                ==> #[trigger] final(nodes)[j] == old(nodes)[j],
        placed_ok(final(nodes)@, p as int),
{
    let ghost before = nodes@;
    let ghost all = kids(before, p as int);
    let ch = children_of(nodes, p);
    let parent = nodes[p];
    let main = parent.style.axis;
    let cross = main.cross();
    let gap = parent.style.gap;
    let across: i64 = sat_add(parent.pos.along(cross), parent.style.padding.lead(cross) as i64);
    let mut cursor: i64 = sat_add(parent.pos.along(main), parent.style.padding.lead(main) as i64);
    proof {
        assert(node_wf(before, p as int));
        lemma_kids_props(before, p as int);
        lemma_kids_after(before, p as int);
        assert(all.take(0) =~= Seq::<int>::empty());
        assert forall|t: int| 0 <= t < all.len() implies before[#[trigger] all[t]].size.spec_along(
            main,
        ) >= 0 by {
            assert(node_wf(before, all[t]));
        }
    }
    let mut k: usize = 0;
    while k < ch.len()
        invariant
            tree_wf(before),
            nodes.len() == before.len(),
            p < nodes.len(),
            all == kids(before, p as int),
            ch.len() == all.len(),
            k <= ch.len(),
            cross == main.spec_cross(),
            main == before[p as int].style.axis,
            gap == before[p as int].style.gap,
            across == sat(
                before[p as int].pos.spec_along(cross) + before[p as int].style.padding.spec_lead(
                    cross,
                ),
            ),
            cursor == sat(
                before[p as int].pos.spec_along(main) + before[p as int].style.padding.spec_lead(
                    main,
                ) + run_extent(before, all.take(k as int), main, gap),
            ),
            forall|t: int| 0 <= t < ch.len() ==> #[trigger] ch[t] as int == all[t],
            forall|t: int| 0 <= t < ch.len() ==> p < #[trigger] ch[t] < nodes.len(),
            forall|t: int| 0 <= t < all.len() ==> p < #[trigger] all[t] < before.len(),
            forall|t1: int, t2: int| 0 <= t1 < t2 < all.len() ==> all[t1] < all[t2],
            forall|t: int| 0 <= t < all.len() ==> before[#[trigger] all[t]].size.spec_along(main) >= 0,
            forall|t: int| 0 <= t < all.len() ==> points_to(before[#[trigger] all[t]].parent, p as int),
            forall|j: int|
                0 <= j < nodes.len() ==> #[trigger] nodes[j] == (Node { pos: nodes[j].pos, ..before[j] }),
            forall|j: int|
                0 <= j < nodes.len() && !points_to(before[j].parent, p as int) ==> #[trigger] nodes[j]
                    == before[j],
            forall|t: int|
                0 <= t < k ==> (#[trigger] nodes[all[t]]).pos == (match before[all[t]].style.fixed_pos {
                    Some(f) => f,
                    None => natural_pos(before, p as int, t),
                }),
        decreases ch.len() - k,
    {
        let c: usize = ch[k];
        let child = nodes[c];
        let natural = Point { x: 0, y: 0 }.with(main, cursor).with(cross, across);
        let pos = match child.style.fixed_pos {
            Some(f) => f,
            None => natural,
        };
        proof {
            assert(c as int == all[k as int]);
            assert(child == (Node { pos: child.pos, ..before[c as int] }));
            assert(natural == natural_pos(before, p as int, k as int));
            lemma_run_take(before, all, main, gap, k as int);
            assert forall|t: int| 0 <= t < all.take(k as int).len() implies before[#[trigger] all.take(
                k as int,
            )[t]].size.spec_along(main) >= 0 by {
                assert(all.take(k as int)[t] == all[t]);
            }
            lemma_run_bounds(before, all.take(k as int), main, gap);
            assert(before[all[k as int]].size.spec_along(main) >= 0);
            assert forall|t: int| 0 <= t < k implies all[t] != c by {
                assert(all[t] < all[k as int]);
            }
        }
        nodes.set(c, Node { pos, ..child });
        cursor = sat_add(sat_add(cursor, child.size.along(main)), gap as i64);
        k = k + 1;
    }
    proof {
        let after = nodes@;
        assert forall|j: int| 0 <= j < after.len() implies #[trigger] after[j] == (Node {
            size: after[j].size,
            pos: after[j].pos,
            ..before[j]
        }) by {
            assert(after[j] == (Node { pos: after[j].pos, ..before[j] }));
        }
        assert forall|j: int| 0 <= j < after.len() implies (#[trigger] after[j]).size.w >= 0
            && after[j].size.h >= 0 by {
            assert(node_wf(before, j));
            assert(after[j] == (Node { pos: after[j].pos, ..before[j] }));
        }
        lemma_resolved_wf(after, before);
        assert(kids(after, p as int) == all);
        assert(after[p as int] == before[p as int]);
        assert forall|t: int| 0 <= t < all.len() implies natural_pos(after, p as int, t) == natural_pos(
            before,
            p as int,
            t,
        ) by {
            let pre = all.take(t);
            assert forall|u: int| 0 <= u < pre.len() implies after[#[trigger] pre[u]].size
                == before[pre[u]].size by {
                assert(pre[u] == all[u]);
                assert(after[all[u]] == (Node { pos: after[all[u]].pos, ..before[all[u]] }));
            }
            lemma_run_same(after, before, pre, main, gap);
        }
        assert forall|t: int| 0 <= t < all.len() implies (#[trigger] after[all[t]]).pos == (match after[all[t]].style.fixed_pos {
            Some(f) => f,
            None => natural_pos(after, p as int, t),
        }) by {
            assert(after[all[t]] == (Node { pos: after[all[t]].pos, ..before[all[t]] }));
        }
    }
}

/// Resolves a root: it gets the size that it measures and stands at its
/// fixed position, or at the origin where it declares none.
pub fn resolve_root(nodes: &mut Vec<Node>, r: usize)
    requires
        tree_wf(old(nodes)@),
        r < old(nodes).len(),
    ensures
        tree_wf(final(nodes)@),
        same_but_resolved(final(nodes)@, old(nodes)@),
        forall|j: int|
            0 <= j < old(nodes).len() && j != r ==> #[trigger] final(nodes)[j] == old(nodes)[j],
        root_ok(final(nodes)@, r as int),
{
    let ghost before = nodes@;
    let node = nodes[r];
    let pos = match node.style.fixed_pos {
        Some(f) => f,
        None => Point { x: 0, y: 0 },
    };
    proof {
        assert(node_wf(before, r as int));
    }
    nodes.set(r, Node { size: node.fit, pos, ..node });
    proof {
        let after = nodes@;
        assert forall|j: int| 0 <= j < after.len() implies (#[trigger] after[j]).size.w >= 0
            && after[j].size.h >= 0 by {
            assert(node_wf(before, j));
        }
        lemma_resolved_wf(after, before);
    }
}

/// Lays out node `i`: resolves it where it is a root, then gives its
/// children their sizes and positions. Nothing changes but the sizes and
/// positions of the children, and of `i` where it is a root.
pub fn layout_node(nodes: &mut Vec<Node>, i: usize)
    requires
        tree_wf(old(nodes)@),
        i < old(nodes).len(),
    ensures
        tree_wf(final(nodes)@),
        same_but_resolved(final(nodes)@, old(nodes)@),
        forall|j: int|
            0 <= j < old(nodes).len() && !points_to(old(nodes)[j].parent, i as int) && !(j == i
                && old(nodes)[j].parent is None) ==> #[trigger] final(nodes)[j] == old(nodes)[j],
        laid_out(final(nodes)@, i as int),
{
    let ghost before = nodes@;
    if nodes[i].parent.is_none() {
        resolve_root(nodes, i);
    }
    let ghost rooted = nodes@;
    grow_children(nodes, i);
    let ghost grown = nodes@;
    place_children(nodes, i);
    proof {
        let after = nodes@;
        assert(node_wf(before, i as int));
        assert(!points_to(before[i as int].parent, i as int));
        assert(after[i as int] == rooted[i as int]);
        assert forall|j: int| 0 <= j < after.len() implies (#[trigger] after[j]).parent
            == grown[j].parent by {
            assert(after[j] == (Node { pos: after[j].pos, ..grown[j] }));
        }
        assert forall|k: int| 0 <= k < kids(grown, i as int).len() implies {
            &&& after[#[trigger] kids(grown, i as int)[k]].fit == grown[kids(grown, i as int)[k]].fit
            &&& after[kids(grown, i as int)[k]].size == grown[kids(grown, i as int)[k]].size
            &&& after[kids(grown, i as int)[k]].style == grown[kids(grown, i as int)[k]].style
        } by {
            lemma_kids_props(grown, i as int);
            let c = kids(grown, i as int)[k];
            assert(after[c] == (Node { pos: after[c].pos, ..grown[c] }));
        }
        lemma_kids_same(after, grown);
        lemma_grown_same(after, grown, i as int);
        assert forall|j: int| 0 <= j < after.len() implies #[trigger] after[j] == (Node {
            size: after[j].size,
            pos: after[j].pos,
            ..before[j]
        }) by {
            assert(after[j] == (Node { pos: after[j].pos, ..grown[j] }));
            assert(grown[j] == (Node { size: grown[j].size, pos: grown[j].pos, ..rooted[j] }));
            assert(rooted[j] == (Node { size: rooted[j].size, pos: rooted[j].pos, ..before[j] }));
        }
    }
}

/// Whether node `j` is resolved by a pass over the nodes from `r` on: its
/// parent is one of them, or it is one of them and a root.
pub open spec fn belongs_from(nodes: Seq<Node>, j: int, r: int) -> bool {
    match nodes[j].parent {
        Some(p) => p >= r,
        None => j >= r,
    }
}

/// Lays out every node from `r` on, each before its children. Run when the
/// root `r` has been closed, this resolves the whole subtree below it.
/// Nothing changes but the sizes and positions of the roots from `r` on and
/// of the children of the nodes from `r` on.
pub fn layout_subtree(nodes: &mut Vec<Node>, r: usize)
    requires
        tree_wf(old(nodes)@),
        r <= old(nodes).len(),
    ensures
        tree_wf(final(nodes)@),
        same_but_resolved(final(nodes)@, old(nodes)@),
        forall|j: int|
            0 <= j < old(nodes).len() && !belongs_from(old(nodes)@, j, r as int)
                ==> (#[trigger] final(nodes)[j]) == old(nodes)[j],
        forall|q: int| r <= q < old(nodes).len() ==> #[trigger] laid_out(final(nodes)@, q),
{
    let ghost before = nodes@;
    let n: usize = nodes.len();
    let mut i: usize = r;
    while i < n
        invariant
            tree_wf(nodes@),
            same_but_resolved(nodes@, before),
            n == before.len(),
            r <= i <= n,
            forall|j: int|
                0 <= j < n && !belongs_from(before, j, r as int) ==> #[trigger] nodes[j] == before[j],
            forall|q: int| r <= q < i ==> #[trigger] laid_out(nodes@, q),
        decreases n - i,
    {
        let ghost prev = nodes@;
        layout_node(nodes, i);
        proof {
            let after = nodes@;
            assert forall|j: int| 0 <= j < i implies #[trigger] after[j] == prev[j] by {
                assert(node_wf(prev, j));
            }
            assert forall|j: int| 0 <= j < after.len() implies (#[trigger] after[j]).parent
                == prev[j].parent by {}
            lemma_kids_same(after, prev);
            assert forall|q: int| r <= q < i implies #[trigger] laid_out(after, q) by {
                assert(laid_out(prev, q));
                lemma_kids_props(prev, q);
                assert forall|k: int| 0 <= k < kids(prev, q).len() implies after[#[trigger] kids(
                    prev,
                    q,
                )[k]] == prev[kids(prev, q)[k]] by {
                    let c = kids(prev, q)[k];
                    assert(points_to(prev[c].parent, q));
                }
                lemma_laid_out_same(after, prev, q);
            }
            assert forall|j: int| 0 <= j < after.len() implies #[trigger] after[j] == (Node {
                size: after[j].size,
                pos: after[j].pos,
                ..before[j]
            }) by {
                assert(after[j] == (Node { size: after[j].size, pos: after[j].pos, ..prev[j] }));
                assert(prev[j] == (Node { size: prev[j].size, pos: prev[j].pos, ..before[j] }));
            }
        }
        i = i + 1;
    }
}

} // verus!
