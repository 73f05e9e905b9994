//! What holds of the engine as a whole, proved from the contracts of its
//! parts.

use crate::frame::{has_id, store_fresh};
use crate::geom::{sat, Axis, Point};
use crate::grow::{any_grows, total, water_filled};
use crate::id::{spec_id_from_label, Id};
use crate::input_recorder::{ButtonState, MouseButton, MouseState, PerButton};
use crate::layout::{grown_ok, inner_extent, kid_fits, kid_grows, kid_sizes, leftover};
use crate::node::{Node, SizingMode};
use crate::sizing::{fit_extent, fit_ok, gaps, sum_fit};
use crate::store::NodeStore;
use crate::tabbar::{count_before, moved, offset_at, sum_widths, TabItem};
use crate::tracker::{button_signal, went_down, went_up};
use crate::tree::kids;
use vstd::prelude::*;

verus! {

/// Identity is a function of the scope and the label: the same scope and
/// the same label give the same identity, in every call and every frame,
/// and never the reserved one.
pub proof fn law_identity_is_stable(
    scope_a: Id,
    label_a: Seq<char>,
    scope_b: Id,
    label_b: Seq<char>,
)
    requires
        scope_a == scope_b,
        label_a == label_b,
    ensures
        spec_id_from_label(scope_a, label_a) == spec_id_from_label(scope_b, label_b),
        !spec_id_from_label(scope_a, label_a).spec_is_null(),
{
}

/// The fixed extents that the nodes `ch` declare along `axis`, added up.
pub open spec fn sum_fixed(nodes: Seq<Node>, ch: Seq<int>, axis: Axis) -> int
    decreases ch.len(),
{
    if ch.len() == 0 {
        0
    } else {
        sum_fixed(nodes, ch.drop_last(), axis) + (match nodes[ch.last()].style.spec_sizing(axis) {
            SizingMode::Fixed(v) => v as int,
            _ => 0,
        })
    }
}

/// Whether node `c` declares a fixed extent along `axis` and no padding.
pub open spec fn is_plain_fixed(nodes: Seq<Node>, c: int, axis: Axis) -> bool {
    &&& nodes[c].style.spec_sizing(axis) is Fixed
    &&& nodes[c].style.padding.spec_lead(axis) == 0
    &&& nodes[c].style.padding.spec_trail(axis) == 0
}

/// Measured nodes with a fixed extent and no padding measure what they
/// declare.
proof fn lemma_sum_fixed(nodes: Seq<Node>, ch: Seq<int>, axis: Axis)
    requires
        forall|k: int|
            0 <= k < ch.len() ==> is_plain_fixed(nodes, #[trigger] ch[k], axis) && fit_ok(
                nodes,
                ch[k],
            ),
    ensures
        sum_fit(nodes, ch, axis) == sum_fixed(nodes, ch, axis),
    decreases ch.len(),
{
    if ch.len() > 0 {
        let rest = ch.drop_last();
        assert forall|k: int| 0 <= k < rest.len() implies is_plain_fixed(
            nodes,
            #[trigger] rest[k],
            axis,
        ) && fit_ok(nodes, rest[k]) by {
            assert(rest[k] == ch[k]);
        }
        lemma_sum_fixed(nodes, rest, axis);
        let c = ch[ch.len() - 1];
        assert(is_plain_fixed(nodes, c, axis) && fit_ok(nodes, c));
        assert(ch.last() == c);
    }
}

/// Sizing: a node that is fitted along its layout axis, has no content of
/// its own, and whose `N` children all declare fixed extents and no
/// padding along that axis, measures its leading and trailing padding,
/// `N - 1` gaps and the fixed extents of its children, as far as that is a
/// length at all.
pub proof fn law_fit_of_fixed_children(nodes: Seq<Node>, p: int)
    requires
        0 <= p < nodes.len(),
        fit_ok(nodes, p),
        !(nodes[p].style.spec_sizing(nodes[p].style.axis) is Fixed),
        nodes[p].style.spec_content(nodes[p].style.axis) == 0,
        forall|k: int|
            0 <= k < kids(nodes, p).len() ==> is_plain_fixed(
                nodes,
                #[trigger] kids(nodes, p)[k],
                nodes[p].style.axis,
            ) && fit_ok(nodes, kids(nodes, p)[k]),
    ensures
        nodes[p].fit.spec_along(nodes[p].style.axis) == sat(
            nodes[p].style.padding.spec_lead(nodes[p].style.axis) + nodes[p].style.padding.spec_trail(
                nodes[p].style.axis,
            ) + gaps(nodes[p].style.gap, kids(nodes, p).len() as int) + sum_fixed(
                nodes,
                kids(nodes, p),
                nodes[p].style.axis,
            ),
        ),
        kids(nodes, p).len() >= 1 ==> gaps(nodes[p].style.gap, kids(nodes, p).len() as int) == (kids(
            nodes,
            p,
        ).len() - 1) * nodes[p].style.gap,
{
    let a = nodes[p].style.axis;
    lemma_sum_fixed(nodes, kids(nodes, p), a);
    assert(nodes[p].fit.spec_along(a) == fit_extent(nodes, p, a)) by {
        match a {
            Axis::X => {},
            Axis::Y => {},
        }
    }
    let n = kids(nodes, p).len() as int;
    let g = nodes[p].style.gap;
    if n >= 1 {
        assert(gaps(g, n) == (n - 1) * g) by (nonlinear_arith)
            requires
                n >= 1,
                gaps(g, n) == (if n > 1 {
                    g * (n - 1)
                } else {
                    0
                }),
        ;
    }
}

/// How many of the first `m` flags are set.
pub open spec fn count_set(mask: Seq<bool>, m: int) -> int
    decreases m,
{
    if m <= 0 {
        0
    } else {
        count_set(mask, m - 1) + (if mask[m - 1] {
            1int
        } else {
            0int
        })
    }
}

/// The sum over a prefix and one more.
proof fn lemma_total_take(v: Seq<i64>, m: int)
    requires
        0 <= m < v.len(),
    ensures
        total(v.take(m + 1)) == total(v.take(m)) + v[m],
{
    assert(v.take(m + 1).drop_last() == v.take(m));
}

/// Bounds on what was handed out among the first `m` extents, where the
/// extents that grow started at zero and ended between `lo` and `hi`.
proof fn lemma_share_bounds(
    start: Seq<i64>,
    mask: Seq<bool>,
    end: Seq<i64>,
    lo: int,
    hi: int,
    m: int,
)
    requires
        start.len() == end.len(),
        mask.len() == end.len(),
        0 <= m <= end.len(),
        forall|k: int| 0 <= k < end.len() && !mask[k] ==> #[trigger] end[k] == start[k],
        forall|k: int| 0 <= k < end.len() && mask[k] ==> #[trigger] start[k] == 0,
        forall|k: int| 0 <= k < end.len() && mask[k] ==> lo <= #[trigger] end[k] <= hi,
    ensures
        lo * count_set(mask, m) <= total(end.take(m)) - total(start.take(m)) <= hi * count_set(
            mask,
            m,
        ),
        0 <= count_set(mask, m) <= m,
    decreases m,
{
    if m == 0 {
        assert(end.take(0) =~= Seq::<i64>::empty());
        assert(start.take(0) =~= Seq::<i64>::empty());
        assert(lo * 0 == 0 && hi * 0 == 0) by (nonlinear_arith);
    } else {
        lemma_share_bounds(start, mask, end, lo, hi, m - 1);
        lemma_total_take(end, m - 1);
        lemma_total_take(start, m - 1);
        let c = count_set(mask, m - 1);
        assert(lo * (c + 1) == lo * c + lo && hi * (c + 1) == hi * c + hi) by (nonlinear_arith);
        if mask[m - 1] {
            assert(start[m - 1] == 0);
            assert(lo <= end[m - 1] <= hi);
        } else {
            assert(end[m - 1] == start[m - 1]);
        }
    }
}

/// As `lemma_share_bounds`, where one of the extents that grow ended at
/// `at`: the bounds move by the distance from `at` to `lo` and to `hi`.
proof fn lemma_share_bounds_at(
    start: Seq<i64>,
    mask: Seq<bool>,
    end: Seq<i64>,
    lo: int,
    hi: int,
    m: int,
    i: int,
)
    requires
        start.len() == end.len(),
        mask.len() == end.len(),
        0 <= i < m <= end.len(),
        mask[i],
        forall|k: int| 0 <= k < end.len() && !mask[k] ==> #[trigger] end[k] == start[k],
        forall|k: int| 0 <= k < end.len() && mask[k] ==> #[trigger] start[k] == 0,
        forall|k: int| 0 <= k < end.len() && mask[k] ==> lo <= #[trigger] end[k] <= hi,
    ensures
        lo * count_set(mask, m) + (end[i] - lo) <= total(end.take(m)) - total(start.take(m)),
        total(end.take(m)) - total(start.take(m)) <= hi * count_set(mask, m) - (hi - end[i]),
    decreases m,
{
    lemma_total_take(end, m - 1);
    lemma_total_take(start, m - 1);
    let c = count_set(mask, m - 1);
    assert(lo * (c + 1) == lo * c + lo && hi * (c + 1) == hi * c + hi) by (nonlinear_arith);
    if i == m - 1 {
        lemma_share_bounds(start, mask, end, lo, hi, m - 1);
        assert(start[i] == 0);
        assert(lo <= end[i] <= hi);
    } else {
        lemma_share_bounds_at(start, mask, end, lo, hi, m - 1, i);
        if mask[m - 1] {
            assert(start[m - 1] == 0);
            assert(lo <= end[m - 1] <= hi);
        } else {
            assert(end[m - 1] == start[m - 1]);
        }
    }
}

/// Growing shares evenly: where `budget` is shared among `M` extents that
/// grow and start at zero, each of them ends at the `M`-th part of the
/// budget, rounded down, or one unit above it, and exactly at the `M`-th
/// part where the budget divides evenly. The extents that do not grow stay
/// as they are.
pub proof fn law_even_shares(start: Seq<i64>, mask: Seq<bool>, budget: int, end: Seq<i64>)
    requires
        mask.len() == start.len(),
        water_filled(start, mask, budget, end),
        budget >= 0,
        forall|k: int| 0 <= k < start.len() && mask[k] ==> #[trigger] start[k] == 0,
    ensures
        forall|k: int| 0 <= k < start.len() && !mask[k] ==> #[trigger] end[k] == start[k],
        forall|k: int|
            0 <= k < start.len() && mask[k] ==> budget / count_set(mask, start.len() as int)
                <= #[trigger] end[k] <= budget / count_set(mask, start.len() as int) + 1,
        forall|k: int|
            0 <= k < start.len() && mask[k] && budget % count_set(mask, start.len() as int) == 0
                ==> #[trigger] end[k] == budget / count_set(mask, start.len() as int),
{
    let n = start.len() as int;
    let count = count_set(mask, n);
    assert(end.take(n) =~= end);
    assert(start.take(n) =~= start);
    assert forall|k: int| 0 <= k < n && mask[k] implies budget / count <= #[trigger] end[k] <= budget
        / count + 1 && (budget % count == 0 ==> end[k] == budget / count) by {
        assert(any_grows(mask));
        let spent = total(end) - total(start);
        assert(spent == budget);
        let e = end[k] as int;
        assert(start[k] == 0);
        assert(e >= 0);
        assert forall|j: int| 0 <= j < n && mask[j] implies e - 1 <= #[trigger] end[j] <= e + 1 by {
            assert(start[j] == 0);
            assert(end[j] >= start[j]);
            if end[j] > e + 1 {
                assert(end[j] > start[j]);
                assert(end[j] <= end[k] + 1);
            }
            if e > end[j] + 1 {
                assert(end[k] > start[k]);
                assert(end[k] <= end[j] + 1);
            }
        }
        lemma_share_bounds_at(start, mask, end, e - 1, e + 1, n, k);
        lemma_share_bounds(start, mask, end, e - 1, e + 1, n);
        assert(count >= 1) by {
            lemma_count_set_positive(mask, n, k);
        }
        let q = budget / count;
        assert(q <= e <= q + 1 && (budget % count == 0 ==> e == q)) by (nonlinear_arith)
            requires
                count >= 1,
                budget >= 0,
                (e - 1) * count + 1 <= budget,
                budget <= (e + 1) * count - 1,
                q == budget / count,
        ;
    }
}

/// Where a flag is set among the first `m`, the count of set flags is
/// positive.
proof fn lemma_count_set_positive(mask: Seq<bool>, m: int, k: int)
    requires
        0 <= k < m,
        mask[k],
    ensures
        count_set(mask, m) >= 1,
        count_set(mask, k) >= 0,
    decreases m,
{
    lemma_count_set_nonneg(mask, k);
    lemma_count_set_nonneg(mask, m - 1);
    if k < m - 1 {
        lemma_count_set_positive(mask, m - 1, k);
    }
}

/// A count is not negative.
proof fn lemma_count_set_nonneg(mask: Seq<bool>, m: int)
    ensures
        count_set(mask, m) >= 0,
    decreases m,
{
    if m > 0 {
        lemma_count_set_nonneg(mask, m - 1);
    }
}

/// The first place at which two lists differ among the first `m`.
proof fn lemma_first_difference(a: Seq<i64>, b: Seq<i64>, m: int) -> (i: int)
    requires
        a.len() == b.len(),
        0 <= m <= a.len(),
        exists|k: int| 0 <= k < m && a[k] != b[k],
    ensures
        0 <= i < m,
        a[i] != b[i],
        forall|k: int| 0 <= k < i ==> a[k] == b[k],
    decreases m,
{
    if exists|k: int| 0 <= k < m - 1 && a[k] != b[k] {
        lemma_first_difference(a, b, m - 1)
    } else {
        m - 1
    }
}

/// A list that is nowhere below another has no smaller sum, and a larger
/// one where it is above the other anywhere.
proof fn lemma_dominance(a: Seq<i64>, b: Seq<i64>, m: int)
    requires
        a.len() == b.len(),
        0 <= m <= a.len(),
        forall|k: int| 0 <= k < m ==> a[k] >= b[k],
    ensures
        total(a.take(m)) >= total(b.take(m)),
        (exists|k: int| 0 <= k < m && a[k] > b[k]) ==> total(a.take(m)) > total(b.take(m)),
    decreases m,
{
    if m == 0 {
        assert(a.take(0) =~= Seq::<i64>::empty());
        assert(b.take(0) =~= Seq::<i64>::empty());
    } else {
        lemma_dominance(a, b, m - 1);
        lemma_total_take(a, m - 1);
        lemma_total_take(b, m - 1);
        if exists|k: int| 0 <= k < m && a[k] > b[k] {
            let k = choose|k: int| 0 <= k < m && a[k] > b[k];
            if k < m - 1 {
                assert(0 <= k < m - 1 && a[k] > b[k]);
            }
        }
    }
}

/// Two ways of sharing one budget cannot differ first at a place where the
/// one gives more than the other.
proof fn lemma_no_first_excess(
    start: Seq<i64>,
    mask: Seq<bool>,
    budget: int,
    a: Seq<i64>,
    b: Seq<i64>,
    i: int,
)
    requires
        mask.len() == start.len(),
        water_filled(start, mask, budget, a),
        water_filled(start, mask, budget, b),
        0 <= i < start.len(),
        forall|k: int| 0 <= k < i ==> a[k] == b[k],
    ensures
        a[i] <= b[i],
{
    if a[i] > b[i] {
        let n = start.len() as int;
        assert(a.take(n) =~= a);
        assert(b.take(n) =~= b);
        assert(b[i] >= start[i]);
        assert(mask[i]) by {
            if !mask[i] {
                assert(a[i] == start[i]);
            }
        }
        // the sums agree, so the other gives more somewhere
        if forall|k: int| 0 <= k < n ==> a[k] >= b[k] {
            lemma_dominance(a, b, n);
            assert(0 <= i < n && a[i] > b[i]);
            assert(false);
        }
        let j = choose|j: int| 0 <= j < n && !(a[j] >= b[j]);
        assert(j > i) by {
            if j < i {
                assert(a[j] == b[j]);
            }
        }
        assert(a[j] >= start[j]);
        assert(mask[j]) by {
            if !mask[j] {
                assert(b[j] == start[j]);
            }
        }
        // raised in `b` behind `i`, so not above it there
        assert(b[j] > start[j]);
        assert(b[j] <= b[i]);
        // raised in `a`, so at most one above `j` there
        assert(a[i] > start[i]);
        assert(a[i] <= a[j] + 1);
    }
}

/// The shares are determined: there is one way only to share a budget
/// among the extents that grow.
pub proof fn law_shares_are_unique(
    start: Seq<i64>,
    mask: Seq<bool>,
    budget: int,
    a: Seq<i64>,
    b: Seq<i64>,
)
    requires
        mask.len() == start.len(),
        water_filled(start, mask, budget, a),
        water_filled(start, mask, budget, b),
    ensures
        a == b,
{
    if exists|k: int| 0 <= k < a.len() && a[k] != b[k] {
        let i = lemma_first_difference(a, b, a.len() as int);
        lemma_no_first_excess(start, mask, budget, a, b, i);
        assert forall|k: int| 0 <= k < i implies b[k] == a[k] by {}
        lemma_no_first_excess(start, mask, budget, b, a, i);
    }
    assert(a =~= b);
}

/// The sum of what the children measure is the sum of the extents in the
/// list of what they measure.
proof fn lemma_total_is_sum_fit(nodes: Seq<Node>, p: int, axis: Axis, m: int)
    requires
        0 <= m <= kids(nodes, p).len(),
    ensures
        total(kid_fits(nodes, p, axis).take(m)) == sum_fit(nodes, kids(nodes, p).take(m), axis),
    decreases m,
{
    let ch = kids(nodes, p);
    let fits = kid_fits(nodes, p, axis);
    if m == 0 {
        assert(fits.take(0) =~= Seq::<i64>::empty());
        assert(ch.take(0) =~= Seq::<int>::empty());
    } else {
        lemma_total_is_sum_fit(nodes, p, axis, m - 1);
        lemma_total_take(fits, m - 1);
        assert(ch.take(m).drop_last() == ch.take(m - 1));
    }
}

/// Growing never overflows: once the children of a node have their sizes,
/// their extents along the node's layout axis and the gaps between them
/// fill the node's inner extent exactly, where the node had space left and
/// a child grows, and take what the children measure where not.
pub proof fn law_grown_children_fit(nodes: Seq<Node>, p: int)
    requires
        0 <= p < nodes.len(),
        grown_ok(nodes, p),
    ensures
        total(kid_sizes(nodes, p, nodes[p].style.axis)) + gaps(
            nodes[p].style.gap,
            kids(nodes, p).len() as int,
        ) == (if leftover(nodes, p) > 0 && any_grows(kid_grows(nodes, p, nodes[p].style.axis)) {
            inner_extent(nodes, p, nodes[p].style.axis)
        } else {
            sum_fit(nodes, kids(nodes, p), nodes[p].style.axis) + gaps(
                nodes[p].style.gap,
                kids(nodes, p).len() as int,
            )
        }),
        forall|k: int|
            0 <= k < kids(nodes, p).len() && !nodes[kids(nodes, p)[k]].style.spec_grows(
                nodes[p].style.axis,
            ) ==> nodes[#[trigger] kids(nodes, p)[k]].size.spec_along(nodes[p].style.axis)
                == nodes[kids(nodes, p)[k]].fit.spec_along(nodes[p].style.axis),
{
    let a = nodes[p].style.axis;
    let ch = kids(nodes, p);
    let n = ch.len() as int;
    lemma_total_is_sum_fit(nodes, p, a, n);
    assert(kid_fits(nodes, p, a).take(n) =~= kid_fits(nodes, p, a));
    assert(ch.take(n) =~= ch);
    assert forall|k: int| 0 <= k < n && !nodes[ch[k]].style.spec_grows(a) implies nodes[#[trigger] ch[k]].size.spec_along(
        a,
    ) == nodes[ch[k]].fit.spec_along(a) by {
        assert(!kid_grows(nodes, p, a)[k]);
        assert(kid_sizes(nodes, p, a)[k] == kid_fits(nodes, p, a)[k]);
    }
}

/// Grow equalization: where a node has space left along its layout axis
/// and its children that grow measure nothing along it, each of them gets
/// the leftover space divided by their number, rounded down, or one unit
/// more, and exactly that share where the space divides evenly. The
/// children that do not grow keep what they measure.
pub proof fn law_grow_equalizes(nodes: Seq<Node>, p: int)
    requires
        0 <= p < nodes.len(),
        grown_ok(nodes, p),
        leftover(nodes, p) >= 0,
        forall|k: int|
            0 <= k < kids(nodes, p).len() && nodes[kids(nodes, p)[k]].style.spec_grows(
                nodes[p].style.axis,
            ) ==> nodes[#[trigger] kids(nodes, p)[k]].fit.spec_along(nodes[p].style.axis) == 0,
    ensures
        forall|k: int|
            0 <= k < kids(nodes, p).len() && !nodes[kids(nodes, p)[k]].style.spec_grows(
                nodes[p].style.axis,
            ) ==> nodes[#[trigger] kids(nodes, p)[k]].size.spec_along(nodes[p].style.axis)
                == nodes[kids(nodes, p)[k]].fit.spec_along(nodes[p].style.axis),
        forall|k: int|
            0 <= k < kids(nodes, p).len() && nodes[kids(nodes, p)[k]].style.spec_grows(
                nodes[p].style.axis,
            ) ==> {
                let share = leftover(nodes, p) / count_set(
                    kid_grows(nodes, p, nodes[p].style.axis),
                    kids(nodes, p).len() as int,
                );
                &&& share <= nodes[#[trigger] kids(nodes, p)[k]].size.spec_along(nodes[p].style.axis)
                    <= share + 1
                &&& leftover(nodes, p) % count_set(
                    kid_grows(nodes, p, nodes[p].style.axis),
                    kids(nodes, p).len() as int,
                ) == 0 ==> nodes[kids(nodes, p)[k]].size.spec_along(nodes[p].style.axis) == share
            },
{
    let a = nodes[p].style.axis;
    let ch = kids(nodes, p);
    let fits = kid_fits(nodes, p, a);
    let mask = kid_grows(nodes, p, a);
    let sizes = kid_sizes(nodes, p, a);
    assert forall|k: int| 0 <= k < fits.len() && mask[k] implies #[trigger] fits[k] == 0 by {
        assert(nodes[ch[k]].fit.spec_along(a) == 0);
    }
    law_even_shares(fits, mask, leftover(nodes, p), sizes);
    assert forall|k: int| 0 <= k < ch.len() && !nodes[ch[k]].style.spec_grows(a) implies nodes[#[trigger] ch[k]].size.spec_along(
        a,
    ) == nodes[ch[k]].fit.spec_along(a) by {
        assert(!mask[k]);
        assert(sizes[k] == fits[k]);
    }
    assert forall|k: int| 0 <= k < ch.len() && nodes[ch[k]].style.spec_grows(a) implies {
        let share = leftover(nodes, p) / count_set(mask, ch.len() as int);
        &&& share <= nodes[#[trigger] ch[k]].size.spec_along(a) <= share + 1
        &&& leftover(nodes, p) % count_set(mask, ch.len() as int) == 0 ==> nodes[ch[k]].size.spec_along(
            a,
        ) == share
    } by {
        assert(mask[k]);
        assert(sizes[k] == nodes[ch[k]].size.spec_along(a));
    }
}

/// Pruning: after the store has been pruned at the end of a frame, it
/// holds no identity that was not begun in that frame.
pub proof fn law_untouched_is_pruned(store: Map<u64, Node>, nodes: Seq<Node>, frame: u64, k: u64)
    requires
        store_fresh(store, nodes, frame),
        !has_id(nodes, 0, nodes.len() as int, k),
    ensures
        !NodeStore::pruned(store, frame).contains_key(k),
{
    if store.contains_key(k) {
        assert(store[k].last_touched <= frame);
    }
}

/// Signals: a button that goes down over a node presses it and does not
/// click it, and makes it the node that holds the press. When the button
/// goes up over the node that holds the press, the node is clicked, and it
/// is neither pressed nor dragged.
pub proof fn law_press_then_click(
    input: MouseState,
    before: PerButton<bool>,
    active: Id,
    id: Id,
    button: MouseButton,
)
    ensures
        went_down(input, before, button) ==> {
            &&& button_signal(input, before, active, id, true, button).pressed
            &&& !button_signal(input, before, active, id, true, button).clicked
            &&& !button_signal(input, before, active, id, true, button).released
        },
        went_up(input, before, button) ==> {
            &&& button_signal(input, before, id, id, true, button).clicked
            &&& button_signal(input, before, id, id, true, button).released
            &&& !button_signal(input, before, id, id, true, button).pressed
            &&& !button_signal(input, before, id, id, true, button).dragging
        },
        !button_signal(input, before, active, id, false, button).pressed,
        !button_signal(input, before, active, id, false, button).clicked,
{
}

/// Double clicks: a button is pressed at `t1`, released at `t2`, pressed
/// again at `t3` and released at `t4`, on a clock that does not run
/// backwards. The second release ends a double click exactly if the first
/// press was short, the second press came within the window after the
/// first release, and the second press was short too.
pub proof fn law_double_click(
    state: ButtonState,
    pos: Point,
    window: u64,
    t1: u64,
    t2: u64,
    t3: u64,
    t4: u64,
)
    requires
        !state.pressed,
        t1 <= t2 <= t3 <= t4,
    ensures
        state.after_report(true, pos, t1, window).after_report(false, pos, t2, window).after_report(
            true,
            pos,
            t3,
            window,
        ).after_report(false, pos, t4, window).double_release == (t2 - t1 <= window && t3 - t2
            <= window && t4 - t3 <= window),
        state.after_report(true, pos, t1, window).after_report(false, pos, t2, window).after_report(
            true,
            pos,
            t3,
            window,
        ).double_press == (t2 - t1 <= window && t3 - t2 <= window),
{
}

/// The widths after one more tab.
proof fn lemma_sum_widths_push(tabs: Seq<TabItem>, t: TabItem)
    ensures
        sum_widths(tabs.push(t)) == sum_widths(tabs) + t.width,
{
    assert(tabs.push(t).drop_last() == tabs);
}

/// The widths without the tab at place `i`.
proof fn lemma_sum_widths_remove(tabs: Seq<TabItem>, i: int)
    requires
        0 <= i < tabs.len(),
    ensures
        sum_widths(tabs.remove(i)) == sum_widths(tabs) - tabs[i].width,
    decreases tabs.len(),
{
    if i == tabs.len() - 1 {
        assert(tabs.remove(i) == tabs.drop_last());
    } else {
        assert(tabs.remove(i).drop_last() == tabs.drop_last().remove(i));
        assert(tabs.remove(i).last() == tabs.last());
        lemma_sum_widths_remove(tabs.drop_last(), i);
    }
}

/// The widths with one more tab at place `i`.
proof fn lemma_sum_widths_insert(tabs: Seq<TabItem>, i: int, t: TabItem)
    requires
        0 <= i <= tabs.len(),
    ensures
        sum_widths(tabs.insert(i, t)) == sum_widths(tabs) + t.width,
    decreases tabs.len(),
{
    if i == tabs.len() {
        assert(tabs.insert(i, t) == tabs.push(t));
        lemma_sum_widths_push(tabs, t);
    } else {
        assert(tabs.insert(i, t).drop_last() == tabs.drop_last().insert(i, t));
        assert(tabs.insert(i, t).last() == tabs.last());
        lemma_sum_widths_insert(tabs.drop_last(), i, t);
    }
}

/// Reordering keeps the strip: moving a tab changes neither the number of
/// tabs nor the sum of their widths, so the strip is as wide as before,
/// and the tab that was moved stands at the place it was moved to.
pub proof fn law_move_keeps_width(tabs: Seq<TabItem>, from: int, to: int)
    ensures
        moved(tabs, from, to).len() == tabs.len(),
        sum_widths(moved(tabs, from, to)) == sum_widths(tabs),
        0 <= from < tabs.len() && 0 <= to < tabs.len() ==> moved(tabs, from, to)[to] == tabs[from],
{
    if 0 <= from < tabs.len() && 0 <= to < tabs.len() {
        lemma_sum_widths_remove(tabs, from);
        lemma_sum_widths_insert(tabs.remove(from), to, tabs[from]);
    }
}

/// A tab begins behind every tab before it.
proof fn lemma_offsets_rise(tabs: Seq<TabItem>, gap: u32, j: int, i: int)
    requires
        0 <= j < i,
    ensures
        offset_at(tabs, gap, i) >= offset_at(tabs, gap, j) + tabs[j].width + gap,
    decreases i,
{
    if j < i - 1 {
        lemma_offsets_rise(tabs, gap, j, i - 1);
    }
}

/// Among the first `m` tabs of a strip at rest, the tabs that lie before
/// the tab at place `indx` are the tabs at the places before it.
proof fn lemma_count_at_rest(tabs: Seq<TabItem>, gap: u32, origin: int, indx: int, m: int)
    requires
        0 <= indx < tabs.len(),
        0 <= m <= tabs.len(),
        forall|k: int| 0 <= k < tabs.len() ==> (#[trigger] tabs[k]).offset == offset_at(tabs, gap, k),
    ensures
        count_before(
            tabs,
            origin,
            origin + tabs[indx].offset,
            tabs[indx].width as int,
            indx,
            m,
        ) == (if m <= indx {
            m
        } else {
            indx
        }),
    decreases m,
{
    if m > 0 {
        lemma_count_at_rest(tabs, gap, origin, indx, m - 1);
        let j = m - 1;
        assert(tabs[j].offset == offset_at(tabs, gap, j));
        assert(tabs[indx].offset == offset_at(tabs, gap, indx));
        if j < indx {
            lemma_offsets_rise(tabs, gap, j, indx);
        } else if j > indx {
            lemma_offsets_rise(tabs, gap, indx, j);
        }
    }
}

/// A tab at rest stays: in a strip whose tabs stand at their places, a tab
/// whose left edge is where the strip put it belongs at the place it has.
pub proof fn law_tab_at_rest_stays(tabs: Seq<TabItem>, gap: u32, origin: int, indx: int)
    requires
        0 <= indx < tabs.len(),
        forall|k: int| 0 <= k < tabs.len() ==> (#[trigger] tabs[k]).offset == offset_at(tabs, gap, k),
    ensures
        count_before(
            tabs,
            origin,
            origin + tabs[indx].offset,
            tabs[indx].width as int,
            indx,
            tabs.len() as int,
        ) == indx,
        moved(tabs, indx, indx) == tabs,
{
    lemma_count_at_rest(tabs, gap, origin, indx, tabs.len() as int);
    assert(tabs.remove(indx).insert(indx, tabs[indx]) =~= tabs);
}

} // verus!
