//! Sharing leftover space among the extents that grow: the smallest are
//! raised first, level by level, until the space is used up.

use vstd::prelude::*;

verus! {

/// The sum of the extents.
pub open spec fn total(v: Seq<i64>) -> int
    decreases v.len(),
{
    if v.len() == 0 {
        0
    } else {
        total(v.drop_last()) + v.last()
    }
}

/// How many of the first `m` extents grow and stand at `level`.
pub open spec fn count_at(v: Seq<i64>, mask: Seq<bool>, level: int, m: int) -> int
    decreases m,
{
    if m <= 0 {
        0
    } else {
        count_at(v, mask, level, m - 1) + (if mask[m - 1] && v[m - 1] == level {
            1int
        } else {
            0int
        })
    }
}

/// Whether any extent grows.
pub open spec fn any_grows(mask: Seq<bool>) -> bool {
    exists|k: int| 0 <= k < mask.len() && #[trigger] mask[k]
}

/// Whether `level` is the smallest of the extents that grow.
pub open spec fn is_lowest(v: Seq<i64>, mask: Seq<bool>, level: int) -> bool {
    &&& exists|k: int| 0 <= k < v.len() && #[trigger] mask[k] && v[k] == level
    &&& forall|k: int| 0 <= k < v.len() && #[trigger] mask[k] ==> v[k] >= level
}

/// Whether `end` shares `budget` among the extents of `start` that grow, as
/// evenly as whole units allow:
/// no extent shrinks and only those that grow change; the budget is used up
/// exactly, where it is positive and anything grows; an extent that was
/// raised is at most one unit above any other that grows, and not above any
/// that grows and comes before it.
pub open spec fn water_filled(start: Seq<i64>, mask: Seq<bool>, budget: int, end: Seq<i64>) -> bool {
    &&& end.len() == start.len()
    &&& forall|k: int| 0 <= k < start.len() ==> #[trigger] end[k] >= start[k]
    &&& forall|k: int| 0 <= k < start.len() && !mask[k] ==> #[trigger] end[k] == start[k]
    &&& total(end) - total(start) == (if budget > 0 && any_grows(mask) {
        budget
    } else {
        0
    })
    &&& forall|i: int, j: int|
        0 <= i < start.len() && 0 <= j < start.len() && mask[i] && mask[j] && #[trigger] end[i]
            > start[i] ==> end[i] <= #[trigger] end[j] + 1 && (j < i ==> end[i] <= end[j])
}

/// The sum after one extent has been replaced.
pub proof fn lemma_total_update(v: Seq<i64>, k: int, x: i64)
    requires
        0 <= k < v.len(),
    ensures
        total(v.update(k, x)) == total(v) - v[k] + x,
    decreases v.len(),
{
    let w = v.update(k, x);
    if k == v.len() - 1 {
        assert(w.drop_last() == v.drop_last());
    } else {
        assert(w.drop_last() == v.drop_last().update(k, x));
        lemma_total_update(v.drop_last(), k, x);
    }
}

/// The count of extents at a level lies between zero and the number of
/// extents looked at.
pub proof fn lemma_count_bounds(v: Seq<i64>, mask: Seq<bool>, level: int, m: int)
    ensures
        0 <= count_at(v, mask, level, m) <= (if m > 0 { m } else { 0 }),
    decreases m,
{
    if m > 0 {
        lemma_count_bounds(v, mask, level, m - 1);
    }
}

/// Where an extent that grows stands at the level, the count is positive
/// from there on.
pub proof fn lemma_count_positive(v: Seq<i64>, mask: Seq<bool>, level: int, m: int, k: int)
    requires
        0 <= k < m,
        mask[k],
        v[k] == level,
    ensures
        count_at(v, mask, level, m) >= count_at(v, mask, level, k) + 1,
    decreases m,
{
    lemma_count_bounds(v, mask, level, m - 1);
    if k < m - 1 {
        lemma_count_positive(v, mask, level, m - 1, k);
    }
}

/// The smallest of the extents that grow, if any grows.
pub fn lowest(ext: &Vec<i64>, grows: &Vec<bool>) -> (r: Option<i64>)
    requires
        grows.len() == ext.len(),
    ensures
        match r {
            Some(level) => is_lowest(ext@, grows@, level as int),
            None => !any_grows(grows@),
        },
{
    let mut best: Option<i64> = None;
    let mut k: usize = 0;
    while k < ext.len()
        invariant
            grows.len() == ext.len(),
            k <= ext.len(),
            match best {
                Some(level) => {
                    &&& exists|t: int| 0 <= t < k && #[trigger] grows[t] && ext[t] == level
                    &&& forall|t: int| 0 <= t < k && #[trigger] grows[t] ==> ext[t] >= level
                },
                None => forall|t: int| 0 <= t < k ==> !#[trigger] grows[t],
            },
        decreases ext.len() - k,
    {
        if grows[k] {
            let v: i64 = ext[k];
            match best {
                Some(level) => {
                    if v < level {
                        best = Some(v);
                        assert(grows[k as int] && ext[k as int] == v);
                    } else {
                        let ghost w = choose|t: int| 0 <= t < k && #[trigger] grows[t] && ext[t] == level;
                        assert(0 <= w < k + 1 && grows[w] && ext[w] == level);
                    }
                },
                None => {
                    best = Some(v);
                    assert(grows[k as int] && ext[k as int] == v);
                },
            }
        } else {
            if let Some(level) = best {
                let ghost w = choose|t: int| 0 <= t < k && #[trigger] grows[t] && ext[t] == level;
                assert(0 <= w < k + 1 && grows[w] && ext[w] == level);
            }
        }
        k = k + 1;
    }
    best
}

/// How many of the extents that grow stand at `level`, and the smallest of
/// those that stand above it, if any does.
pub fn level_info(ext: &Vec<i64>, grows: &Vec<bool>, level: i64) -> (r: (usize, Option<i64>))
    requires
        grows.len() == ext.len(),
    ensures
        r.0 == count_at(ext@, grows@, level as int, ext.len() as int),
        match r.1 {
            Some(next) => {
                &&& next > level
                &&& forall|k: int|
                    0 <= k < ext.len() && #[trigger] grows[k] && ext[k] > level ==> ext[k] >= next
            },
            None => forall|k: int| 0 <= k < ext.len() && #[trigger] grows[k] ==> ext[k] <= level,
        },
{
    let mut count: usize = 0;
    let mut next: Option<i64> = None;
    let mut k: usize = 0;
    while k < ext.len()
        invariant
            grows.len() == ext.len(),
            k <= ext.len(),
            count == count_at(ext@, grows@, level as int, k as int),
            count <= k,
            match next {
                Some(n) => {
                    &&& n > level
                    &&& forall|t: int| 0 <= t < k && #[trigger] grows[t] && ext[t] > level ==> ext[t] >= n
                },
                None => forall|t: int| 0 <= t < k && #[trigger] grows[t] ==> ext[t] <= level,
            },
        decreases ext.len() - k,
    {
        if grows[k] {
            let v: i64 = ext[k];
            if v == level {
                count = count + 1;
            } else if v > level {
                match next {
                    Some(n) => {
                        if v < n {
                            next = Some(v);
                        }
                    },
                    None => {
                        next = Some(v);
                    },
                }
            }
        }
        k = k + 1;
    }
    (count, next)
}

/// Raises every extent that grows and stands at `level` by `step`.
pub fn raise(ext: &mut Vec<i64>, grows: &Vec<bool>, level: i64, step: i64)
    requires
        grows.len() == old(ext).len(),
        step > 0,
        level + step <= i64::MAX,
    ensures
        final(ext).len() == old(ext).len(),
        forall|k: int|
            0 <= k < old(ext).len() ==> #[trigger] final(ext)[k] == (if grows[k] && old(ext)[k] == level {
                (level + step) as i64
            } else {
                old(ext)[k]
            }),
        total(final(ext)@) == total(old(ext)@) + step * count_at(
            old(ext)@,
            grows@,
            level as int,
            old(ext).len() as int,
        ),
{
    let ghost before = ext@;
    let n: usize = ext.len();
    let mut k: usize = 0;
    proof {
        assert(step * 0 == 0) by (nonlinear_arith);
    }
    while k < n
        invariant
            grows.len() == n,
            ext.len() == n,
            before.len() == n,
            k <= n,
            step > 0,
            level + step <= i64::MAX,
            forall|t: int|
                0 <= t < k ==> #[trigger] ext[t] == (if grows[t] && before[t] == level {
                    (level + step) as i64
                } else {
                    before[t]
                }),
            forall|t: int| k <= t < n ==> #[trigger] ext[t] == before[t],
            total(ext@) == total(before) + step * count_at(before, grows@, level as int, k as int),
        decreases n - k,
    {
        if grows[k] && ext[k] == level {
            proof {
                lemma_total_update(ext@, k as int, (level + step) as i64);
                let c = count_at(before, grows@, level as int, k as int);
                assert(step * (c + 1) == step * c + step) by (nonlinear_arith);
            }
            ext.set(k, level + step);
        }
        k = k + 1;
    }
}

/// Hands `units` single units to the first extents that grow and stand at
/// `level`, one each, as far as the units go.
pub fn hand_out(ext: &mut Vec<i64>, grows: &Vec<bool>, level: i64, units: i64)
    requires
        grows.len() == old(ext).len(),
        0 < units < count_at(old(ext)@, grows@, level as int, old(ext).len() as int),
        level < i64::MAX,
    ensures
        final(ext).len() == old(ext).len(),
        total(final(ext)@) == total(old(ext)@) + units,
        forall|k: int|
            0 <= k < old(ext).len() && !(grows[k] && old(ext)[k] == level) ==> (#[trigger] final(ext)[k])
                == old(ext)[k],
        forall|k: int|
            0 <= k < old(ext).len() && grows[k] && old(ext)[k] == level ==> level
                <= #[trigger] final(ext)[k] <= level + 1,
        forall|i: int, j: int|
            0 <= j < i < old(ext).len() && grows[i] && grows[j] && old(ext)[i] == level
                && old(ext)[j] == level && (#[trigger] final(ext)[i]) == level + 1
                ==> (#[trigger] final(ext)[j]) == level + 1,
{
    let ghost before = ext@;
    let n: usize = ext.len();
    let mut left: i64 = units;
    let mut k: usize = 0;
    while k < n
        invariant
            grows.len() == n,
            ext.len() == n,
            before.len() == n,
            k <= n,
            level < i64::MAX,
            0 <= left <= units,
            left > 0 ==> left == units - count_at(before, grows@, level as int, k as int),
            units < count_at(before, grows@, level as int, n as int),
            total(ext@) == total(before) + units - left,
            forall|t: int| k <= t < n ==> #[trigger] ext[t] == before[t],
            forall|t: int|
                0 <= t < n && !(grows[t] && before[t] == level) ==> #[trigger] ext[t] == before[t],
            forall|t: int|
                0 <= t < k && grows[t] && before[t] == level ==> level <= #[trigger] ext[t] <= level
                    + 1,
            forall|t: int|
                0 <= t < k && grows[t] && before[t] == level && left > 0 ==> #[trigger] ext[t]
                    == level + 1,
            forall|i: int, j: int|
                0 <= j < i < k && grows[i] && grows[j] && before[i] == level && before[j] == level
                    && (#[trigger] ext[i]) == level + 1 ==> (#[trigger] ext[j]) == level + 1,
        decreases n - k,
    {
        if grows[k] && ext[k] == level && left > 0 {
            proof {
                lemma_total_update(ext@, k as int, (level + 1) as i64);
            }
            ext.set(k, level + 1);
            left = left - 1;
        }
        k = k + 1;
    }
    proof {
        if left > 0 {
            assert(false);
        }
    }
}

/// Shares `budget` among the extents that grow. Round by round the extents
/// at the lowest level are raised together, up to the next level above them
/// or as far as the rest of the budget goes round; what is left when it no
/// longer goes round is handed out in single units, first come first served.
/// A budget that is not positive changes nothing.
pub fn water_fill(ext: &mut Vec<i64>, grows: &Vec<bool>, budget: i64)
    requires
        grows.len() == old(ext).len(),
        forall|k: int|
            0 <= k < old(ext).len() && #[trigger] grows[k] ==> 0 <= old(ext)[k] && old(ext)[k]
                + budget <= i64::MAX,
    ensures
        water_filled(old(ext)@, grows@, budget as int, final(ext)@),
{
    let ghost start = ext@;
    if budget <= 0 {
        return ;
    }
    match lowest(ext, grows) {
        None => {
            return ;
        },
        Some(_) => {},
    }
    let mut rem: i64 = budget;
    while rem > 0
        invariant_except_break
            0 <= rem <= budget,
            forall|k: int| 0 <= k < start.len() ==> #[trigger] ext[k] >= start[k],
            forall|k: int| 0 <= k < start.len() && !grows[k] ==> #[trigger] ext[k] == start[k],
            total(ext@) - total(start) == budget - rem,
            forall|i: int, j: int|
                0 <= i < start.len() && 0 <= j < start.len() && grows[i] && grows[j]
                    && #[trigger] ext[i] > start[i] ==> ext[i] <= #[trigger] ext[j],
            forall|k: int|
                0 <= k < start.len() && #[trigger] grows[k] ==> 0 <= ext[k] && ext[k] + rem
                    <= i64::MAX,
        invariant
            ext.len() == start.len(),
            grows.len() == start.len(),
            any_grows(grows@),
            budget > 0,
        ensures
            water_filled(start, grows@, budget as int, ext@),
        decreases rem,
    {
        let ghost before = ext@;
        let found = lowest(ext, grows);
        let level: i64 = match found {
            Some(l) => l,
            None => 0,
        };
        assert(is_lowest(before, grows@, level as int));
        let (count, next) = level_info(ext, grows, level);
        let ghost at = choose|k: int| 0 <= k < before.len() && #[trigger] grows[k] && before[k] == level;
        proof {
            lemma_count_positive(before, grows@, level as int, before.len() as int, at);
            lemma_count_bounds(before, grows@, level as int, at);
            lemma_count_bounds(before, grows@, level as int, before.len() as int);
        }
        let share: i64 = ((rem as u128) / (count as u128)) as i64;
        proof {
            assert(share * count <= rem && share >= 0 && (share == 0 ==> rem < count)) by (nonlinear_arith)
                requires
                    share == (rem as int) / (count as int),
                    rem > 0,
                    count >= 1,
            ;
        }
        let step: i64 = match next {
            Some(n) => {
                if n - level < share {
                    n - level
                } else {
                    share
                }
            },
            None => share,
        };
        if step == 0 {
            hand_out(ext, grows, level, rem);
            proof {
                let after = ext@;
                assert forall|i: int, j: int|
                    0 <= i < start.len() && 0 <= j < start.len() && grows[i] && grows[j]
                        && #[trigger] after[i] > start[i] implies after[i] <= #[trigger] after[j] + 1 && (j
                    < i ==> after[i] <= after[j]) by {
                    if before[i] != level {
                        assert(after[i] == before[i]);
                        assert(before[i] > start[i]);
                        assert(before[i] <= before[at]);
                    }
                    assert(after[j] >= before[j]) by {
                        if grows[j] && before[j] == level {
                        } else {
                            assert(after[j] == before[j]);
                        }
                    }
                }
                assert forall|k: int| 0 <= k < start.len() implies #[trigger] after[k] >= start[k] by {
                    if grows[k] && before[k] == level {
                    } else {
                        assert(after[k] == before[k]);
                    }
                }
                assert forall|k: int| 0 <= k < start.len() && !grows[k] implies #[trigger] after[k]
                    == start[k] by {
                    assert(after[k] == before[k]);
                }
            }
            rem = 0;
            break ;
        } else {
            proof {
                assert(step * count <= rem && step * count >= step) by (nonlinear_arith)
                    requires
                        0 < step <= share,
                        share * count <= rem,
                        count >= 1,
                ;
                assert(grows[at] && before[at] == level);
            }
            raise(ext, grows, level, step);
            let spent: i64 = ((step as i128) * (count as i128)) as i64;
            rem = rem - spent;
            proof {
                let after = ext@;
                assert forall|i: int, j: int|
                    0 <= i < start.len() && 0 <= j < start.len() && grows[i] && grows[j]
                        && #[trigger] after[i] > start[i] implies after[i] <= #[trigger] after[j] by {
                    if before[i] != level {
                        assert(after[i] == before[i]);
                        assert(before[i] > start[i]);
                        assert(before[i] <= before[at]);
                    }
                    assert(after[i] == level + step);
                    if before[j] != level {
                        assert(after[j] == before[j]);
                        assert(before[j] > level);
                    }
                }
                assert forall|k: int| 0 <= k < start.len() && #[trigger] grows[k] implies 0 <= after[k]
                    && after[k] + rem <= i64::MAX by {
                    if before[k] != level {
                        assert(after[k] == before[k]);
                    }
                }
                assert forall|k: int| 0 <= k < start.len() implies #[trigger] after[k] >= start[k] by {
                    if grows[k] && before[k] == level {
                    } else {
                        assert(after[k] == before[k]);
                    }
                }
                assert forall|k: int| 0 <= k < start.len() && !grows[k] implies #[trigger] after[k]
                    == start[k] by {
                    assert(after[k] == before[k]);
                }
            }
        }
    }
}

} // verus!
