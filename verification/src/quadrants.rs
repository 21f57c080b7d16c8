//! Quartile-based quadrant classification and the per-threshold count
//! views.
//!
//! Every point is judged against the third quartiles of two metrics —
//! population weight and stations-within-distance — and lands in exactly
//! one of four categories. Quartiles are scaled by four (see
//! [`crate::stats`]), so each comparison is `4 * metric` against a scaled
//! quartile.

use vstd::prelude::*;
use vstd::multiset::Multiset;
use crate::geometry::MAX_THRESHOLD;
use crate::index::{count_within, StationIndex};
use crate::loader::{pp_pt, PopPoint};
use crate::query::{all_points_ok, count_n_stations, point_station_count};
use crate::stats::{boxplot_outliers, outliers_of, quartile_scaled, quartile_x4, sort_u64, sorted_of};

verus! {

/// The four quadrant categories, named by their plotting colours.
#[derive(Clone, Copy, PartialEq, Eq, Structural, Debug)]
pub enum PointType {
    /// Normal population, many stations.
    Red,
    /// High population, few stations.
    Orange,
    /// High population, many stations.
    Blue,
    /// Normal population, few stations.
    Green,
}

/// The classification predicate: metric above / at-or-below its scaled
/// third quartile, crossed over both metrics.
pub open spec fn quadrant_cond(
    t: PointType,
    pop: int,
    n_stations: int,
    pop_q3_x4: int,
    ns_q3_x4: int,
) -> bool {
    match t {
        PointType::Red => 4 * pop <= pop_q3_x4 && 4 * n_stations > ns_q3_x4,
        PointType::Orange => 4 * pop > pop_q3_x4 && 4 * n_stations <= ns_q3_x4,
        PointType::Blue => 4 * pop > pop_q3_x4 && 4 * n_stations > ns_q3_x4,
        PointType::Green => 4 * pop <= pop_q3_x4 && 4 * n_stations <= ns_q3_x4,
    }
}

impl PointType {
    /// Does a point with the given metrics fall in this category?
    pub fn to_cond(&self, pop: u64, n_stations: u64, pop_q3_x4: u128, ns_q3_x4: u128) -> (r: bool)
        ensures
            r == quadrant_cond(
                *self,
                pop as int,
                n_stations as int,
                pop_q3_x4 as int,
                ns_q3_x4 as int,
            ),
    {
        let p4: u128 = 4 * (pop as u128);
        let n4: u128 = 4 * (n_stations as u128);
        match self {
            PointType::Red => p4 <= pop_q3_x4 && n4 > ns_q3_x4,
            PointType::Orange => p4 > pop_q3_x4 && n4 <= ns_q3_x4,
            PointType::Blue => p4 > pop_q3_x4 && n4 > ns_q3_x4,
            PointType::Green => p4 <= pop_q3_x4 && n4 <= ns_q3_x4,
        }
    }
}

/// The four categories partition every point: for any metrics and any
/// thresholds, exactly one category's condition holds.
pub proof fn lemma_quadrant_partition(pop: int, n_stations: int, pop_q3_x4: int, ns_q3_x4: int)
    ensures
        exists|t: PointType| #[trigger] quadrant_cond(t, pop, n_stations, pop_q3_x4, ns_q3_x4),
        forall|a: PointType, b: PointType|
            #[trigger] quadrant_cond(a, pop, n_stations, pop_q3_x4, ns_q3_x4)
                && #[trigger] quadrant_cond(b, pop, n_stations, pop_q3_x4, ns_q3_x4) ==> a == b,
{
    if 4 * pop <= pop_q3_x4 {
        if 4 * n_stations > ns_q3_x4 {
            assert(quadrant_cond(PointType::Red, pop, n_stations, pop_q3_x4, ns_q3_x4));
        } else {
            assert(quadrant_cond(PointType::Green, pop, n_stations, pop_q3_x4, ns_q3_x4));
        }
    } else {
        if 4 * n_stations > ns_q3_x4 {
            assert(quadrant_cond(PointType::Blue, pop, n_stations, pop_q3_x4, ns_q3_x4));
        } else {
            assert(quadrant_cond(PointType::Orange, pop, n_stations, pop_q3_x4, ns_q3_x4));
        }
    }
}

/// The coordinates of the points of `ps` that fall in category `t`, in
/// input order.
pub open spec fn quadrant_sel(
    ps: Seq<PopPoint>,
    ms: Multiset<(int, int)>,
    d2: int,
    t: PointType,
    pop_q3_x4: int,
    ns_q3_x4: int,
) -> Seq<(int, int)>
    decreases ps.len(),
{
    if ps.len() == 0 {
        Seq::<(int, int)>::empty()
    } else {
        let rest = quadrant_sel(ps.drop_last(), ms, d2, t, pop_q3_x4, ns_q3_x4);
        let p = ps.last();
        if quadrant_cond(
            t,
            p.pop as int,
            count_within(ms, pp_pt(p), d2) as int,
            pop_q3_x4,
            ns_q3_x4,
        ) {
            rest.push(pp_pt(p))
        } else {
            rest
        }
    }
}

/// Selects the coordinates of every point in category `t`, judged
/// against the given scaled third quartiles.
pub fn quadrant_coords(
    idx: &StationIndex,
    points: &Vec<PopPoint>,
    max_distance: i64,
    t: PointType,
    pop_q3_x4: u128,
    ns_q3_x4: u128,
) -> (coords: Vec<(i64, i64)>)
    requires
        idx.wf(),
        all_points_ok(points@),
        0 <= max_distance <= MAX_THRESHOLD,
    ensures
        crate::geometry::coords_seq(coords@) == quadrant_sel(
            points@,
            idx.points(),
            max_distance * max_distance,
            t,
            pop_q3_x4 as int,
            ns_q3_x4 as int,
        ),
{
    assert(0 <= max_distance * max_distance <= MAX_THRESHOLD * MAX_THRESHOLD)
        by (nonlinear_arith)
        requires 0 <= max_distance <= MAX_THRESHOLD;
    let max_d2: i64 = max_distance * max_distance;
    let mut coords: Vec<(i64, i64)> = Vec::new();
    let n = points.len();
    let ghost d2 = max_d2 as int;
    assert(crate::geometry::coords_seq(coords@) =~= quadrant_sel(
        points@.take(0),
        idx.points(),
        d2,
        t,
        pop_q3_x4 as int,
        ns_q3_x4 as int,
    ));
    for i in 0..n
        invariant
            n == points@.len(),
            idx.wf(),
            all_points_ok(points@),
            0 <= max_d2,
            d2 == max_d2 as int,
            crate::geometry::coords_seq(coords@) =~= quadrant_sel(
                points@.take(i as int),
                idx.points(),
                d2,
                t,
                pop_q3_x4 as int,
                ns_q3_x4 as int,
            ),
    {
        let p = points[i];
        let c = point_station_count(idx, p, max_d2);
        let selected = t.to_cond(p.pop, c, pop_q3_x4, ns_q3_x4);
        if selected {
            coords.push((p.x, p.y));
        }
        proof {
            assert(points@.take(i + 1).drop_last() =~= points@.take(i as int));
            assert(points@.take(i + 1).last() == points@[i as int]);
            assert(crate::geometry::coords_seq(coords@) =~= quadrant_sel(
                points@.take(i + 1),
                idx.points(),
                d2,
                t,
                pop_q3_x4 as int,
                ns_q3_x4 as int,
            ));
        }
    }
    assert(points@.take(n as int) =~= points@);
    coords
}

/// The population weights of a point batch.
pub open spec fn pops_of(ps: Seq<PopPoint>) -> Seq<u64> {
    ps.map_values(|p: PopPoint| p.pop)
}

/// The per-point station counts of a batch, as 64-bit values.
pub open spec fn counts_of(ps: Seq<PopPoint>, ms: Multiset<(int, int)>, d2: int) -> Seq<u64> {
    ps.map_values(|p: PopPoint| count_within(ms, pp_pt(p), d2) as u64)
}

/// Computes the two scaled third quartiles a quadrant view needs: of the
/// population weights and of the per-point station counts.
pub fn quadrant_thresholds(idx: &StationIndex, points: &Vec<PopPoint>, max_distance: i64) -> (q: (
    u128,
    u128,
))
    requires
        idx.wf(),
        all_points_ok(points@),
        points@.len() > 0,
        0 <= max_distance <= MAX_THRESHOLD,
    ensures
        q.0 == quartile_x4(sorted_of(pops_of(points@)), 3),
        q.1 == quartile_x4(
            sorted_of(counts_of(points@, idx.points(), max_distance * max_distance)),
            3,
        ),
{
    let mut pops: Vec<u64> = Vec::new();
    let n = points.len();
    for i in 0..n
        invariant
            n == points@.len(),
            pops@.len() == i,
            forall|k: int| 0 <= k < i ==> #[trigger] pops@[k] == points@[k].pop,
    {
        pops.push(points[i].pop);
    }
    assert(pops@ =~= pops_of(points@));
    let sorted_pops = sort_u64(&pops);
    let pop_q3 = quartile_scaled(&sorted_pops, 3);
    let counts = count_n_stations(idx, points, max_distance);
    assert(counts@ =~= counts_of(points@, idx.points(), max_distance * max_distance));
    let sorted_counts = sort_u64(&counts);
    let ns_q3 = quartile_scaled(&sorted_counts, 3);
    (pop_q3, ns_q3)
}

/// One row per threshold: the threshold and every point's station count
/// at it, in point order.
pub fn sweep_station_counts(idx: &StationIndex, points: &Vec<PopPoint>, thresholds: &Vec<i64>) -> (
    rows: Vec<(i64, Vec<u64>)>)
    requires
        idx.wf(),
        all_points_ok(points@),
        forall|i: int| 0 <= i < thresholds@.len() ==> 0 <= #[trigger] thresholds@[i]
            <= MAX_THRESHOLD,
    ensures
        rows@.len() == thresholds@.len(),
        forall|i: int| 0 <= i < rows@.len() ==> (#[trigger] rows@[i]).0 == thresholds@[i]
            && rows@[i].1@ == counts_of(
            points@,
            idx.points(),
            thresholds@[i] * thresholds@[i],
        ),
{
    let mut rows: Vec<(i64, Vec<u64>)> = Vec::new();
    let n = thresholds.len();
    for i in 0..n
        invariant
            n == thresholds@.len(),
            idx.wf(),
            all_points_ok(points@),
            forall|k: int| 0 <= k < n ==> 0 <= #[trigger] thresholds@[k] <= MAX_THRESHOLD,
            rows@.len() == i,
            forall|k: int| 0 <= k < i ==> (#[trigger] rows@[k]).0 == thresholds@[k]
                && rows@[k].1@ == counts_of(
                points@,
                idx.points(),
                thresholds@[k] * thresholds@[k],
            ),
    {
        let t = thresholds[i];
        let counts = count_n_stations(idx, points, t);
        assert(counts@ =~= counts_of(points@, idx.points(), t * t));
        rows.push((t, counts));
    }
    rows
}

/// One row per threshold for the boxplot view: the threshold, every
/// point's station count, and the counts outside the boxplot fences.
pub fn sweep_counts_with_outliers(
    idx: &StationIndex,
    points: &Vec<PopPoint>,
    thresholds: &Vec<i64>,
) -> (rows: Vec<(i64, Vec<u64>, Vec<u64>)>)
    requires
        idx.wf(),
        all_points_ok(points@),
        points@.len() > 0,
        forall|i: int| 0 <= i < thresholds@.len() ==> 0 <= #[trigger] thresholds@[i]
            <= MAX_THRESHOLD,
    ensures
        rows@.len() == thresholds@.len(),
        forall|i: int| 0 <= i < rows@.len() ==> {
            let cs = counts_of(points@, idx.points(), thresholds@[i] * thresholds@[i]);
            &&& (#[trigger] rows@[i]).0 == thresholds@[i]
            &&& rows@[i].1@ == cs
            &&& rows@[i].2@ == outliers_of(cs, sorted_of(cs))
        },
{
    let mut rows: Vec<(i64, Vec<u64>, Vec<u64>)> = Vec::new();
    let n = thresholds.len();
    for i in 0..n
        invariant
            n == thresholds@.len(),
            idx.wf(),
            all_points_ok(points@),
            points@.len() > 0,
            forall|k: int| 0 <= k < n ==> 0 <= #[trigger] thresholds@[k] <= MAX_THRESHOLD,
            rows@.len() == i,
            forall|k: int| 0 <= k < i ==> {
                let cs = counts_of(points@, idx.points(), thresholds@[k] * thresholds@[k]);
                &&& (#[trigger] rows@[k]).0 == thresholds@[k]
                &&& rows@[k].1@ == cs
                &&& rows@[k].2@ == outliers_of(cs, sorted_of(cs))
            },
    {
        let t = thresholds[i];
        let counts = count_n_stations(idx, points, t);
        assert(counts@ =~= counts_of(points@, idx.points(), t * t));
        let outs = boxplot_outliers(&counts);
        rows.push((t, counts, outs));
    }
    rows
}

} // verus!
