//! The query executor: one spatial query per population point, run in
//! parallel across worker threads, with commutative per-point reductions.
//!
//! The per-point decision logic is verified; `rayon` only schedules calls
//! of those verified functions and combines their results with
//! order-insensitive reductions.

use vstd::prelude::*;
use vstd::multiset::Multiset;
use rayon::iter::IntoParallelRefIterator;
use rayon::iter::IndexedParallelIterator;
use rayon::iter::ParallelIterator;
use crate::geometry::{coord_ok, view_pt, MAX_THRESHOLD};
use crate::index::{count_within, within_any, StationIndex};
use crate::loader::{pp_pt, PopPoint};

verus! {

/// All points of the batch are within coordinate range.
pub open spec fn all_points_ok(ps: Seq<PopPoint>) -> bool {
    forall|i: int| 0 <= i < ps.len() ==> coord_ok(pp_pt(#[trigger] ps[i]))
}

/// Total weight of the rows whose coordinates have some station within
/// squared distance `d2`. A row is `(x, y, weight)`, as the loader's
/// mathematical view gives it.
pub open spec fn pops_within(rows: Seq<(int, int, int)>, ms: Multiset<(int, int)>, d2: int) -> int
    decreases rows.len(),
{
    if rows.len() == 0 {
        0
    } else {
        let r = rows.last();
        pops_within(rows.drop_last(), ms, d2) + if within_any(ms, (r.0, r.1), d2) {
            r.2
        } else {
            0
        }
    }
}

/// The weight a single point contributes at squared distance `max_d2`:
/// its population if some station lies within, zero otherwise.
pub fn point_pop_within(idx: &StationIndex, p: PopPoint, max_d2: i64) -> (r: u64)
    requires
        idx.wf(),
        coord_ok(pp_pt(p)),
        0 <= max_d2,
    ensures
        r == if within_any(idx.points(), pp_pt(p), max_d2 as int) {
            p.pop as int
        } else {
            0
        },
{
    match idx.nearest((p.x, p.y)) {
        Some((q, d)) => {
            if d <= max_d2 {
                assert(within_any(idx.points(), pp_pt(p), max_d2 as int)) by {
                    assert(idx.points().contains(view_pt(q)));
                }
                p.pop
            } else {
                assert(!within_any(idx.points(), pp_pt(p), max_d2 as int)) by {
                    assert(forall|s: (int, int)| #[trigger] idx.points().contains(s)
                        ==> d <= crate::geometry::dist2(pp_pt(p), s));
                }
                0
            }
        },
        None => {
            assert(!within_any(idx.points(), pp_pt(p), max_d2 as int)) by {
                vstd::multiset::lemma_multiset_empty_len(idx.points());
                broadcast use vstd::multiset::group_multiset_axioms;
            }
            0
        },
    }
}

/// Number of stations within squared distance `max_d2` of a single
/// point, as a 64-bit count.
pub fn point_station_count(idx: &StationIndex, p: PopPoint, max_d2: i64) -> (n: u64)
    requires
        idx.wf(),
        coord_ok(pp_pt(p)),
        0 <= max_d2,
    ensures
        n == count_within(idx.points(), pp_pt(p), max_d2 as int),
{
    let c = idx.count_within((p.x, p.y), max_d2);
    proof {
        broadcast use vstd::multiset::group_multiset_axioms;
    }
    c as u64
}

/// Relies on rayon's `par_iter().map(..).sum()`: the reduction combines
/// the per-point contributions with `u128` addition, which is
/// associative and commutative, so scheduling cannot change the result;
/// the mapped closure only calls the verified [`point_pop_within`]. The
/// sum cannot overflow: at most `usize::MAX` terms, each below `2^64`.
#[verifier::external_body]
fn par_pop_sum(idx: &StationIndex, points: &Vec<PopPoint>, max_d2: i64) -> (total: u128)
    requires
        idx.wf(),
        all_points_ok(points@),
        0 <= max_d2,
    ensures
        total == pops_within(crate::loader::pp_rows(points@), idx.points(), max_d2 as int),
{
    points.par_iter().map(|p| point_pop_within(idx, *p, max_d2) as u128).sum()
}

/// Relies on rayon's `par_iter().map(..).collect()`: collecting an
/// indexed parallel map into a `Vec` keeps the input order; the mapped
/// closure only calls the verified [`point_station_count`].
#[verifier::external_body]
fn par_station_counts(idx: &StationIndex, points: &Vec<PopPoint>, max_d2: i64) -> (counts: Vec<
    u64,
>)
    requires
        idx.wf(),
        all_points_ok(points@),
        0 <= max_d2,
    ensures
        counts@.len() == points@.len(),
        forall|i: int| 0 <= i < points@.len() ==> #[trigger] counts@[i] == count_within(
            idx.points(),
            pp_pt(points@[i]),
            max_d2 as int,
        ),
{
    points.par_iter().map(|p| point_station_count(idx, *p, max_d2)).collect()
}

/// Total population within `max_distance` of some station: one
/// nearest-neighbour query per point, in parallel, then a commutative
/// sum. Distances compare squared-against-squared.
pub fn pop_within_dist(idx: &StationIndex, points: &Vec<PopPoint>, max_distance: i64) -> (total:
    u128)
    requires
        idx.wf(),
        all_points_ok(points@),
        0 <= max_distance <= MAX_THRESHOLD,
    ensures
        total == pops_within(crate::loader::pp_rows(points@), idx.points(), max_distance * max_distance),
{
    assert(0 <= max_distance * max_distance <= MAX_THRESHOLD * MAX_THRESHOLD)
        by (nonlinear_arith)
        requires 0 <= max_distance <= MAX_THRESHOLD;
    let max_d2: i64 = max_distance * max_distance;
    par_pop_sum(idx, points, max_d2)
}

/// Stations within `max_distance` of each point: one range count per
/// point, in parallel, order preserved.
pub fn count_n_stations(idx: &StationIndex, points: &Vec<PopPoint>, max_distance: i64) -> (counts:
    Vec<u64>)
    requires
        idx.wf(),
        all_points_ok(points@),
        0 <= max_distance <= MAX_THRESHOLD,
    ensures
        counts@.len() == points@.len(),
        forall|i: int| 0 <= i < points@.len() ==> #[trigger] counts@[i] == count_within(
            idx.points(),
            pp_pt(points@[i]),
            max_distance * max_distance,
        ),
{
    assert(0 <= max_distance * max_distance <= MAX_THRESHOLD * MAX_THRESHOLD)
        by (nonlinear_arith)
        requires 0 <= max_distance <= MAX_THRESHOLD;
    let max_d2: i64 = max_distance * max_distance;
    par_station_counts(idx, points, max_d2)
}

/// Weight and station count for every point: the raw pairing the
/// quadrant views consume.
pub fn n_stations_within_dist(idx: &StationIndex, points: &Vec<PopPoint>, max_distance: i64) -> (
    pairs: Vec<(u64, u64)>)
    requires
        idx.wf(),
        all_points_ok(points@),
        0 <= max_distance <= MAX_THRESHOLD,
    ensures
        pairs@.len() == points@.len(),
        forall|i: int| 0 <= i < points@.len() ==> #[trigger] pairs@[i] == (
            points@[i].pop,
            count_within(idx.points(), pp_pt(points@[i]), max_distance * max_distance) as u64,
        ),
{
    let counts = count_n_stations(idx, points, max_distance);
    let mut pairs: Vec<(u64, u64)> = Vec::new();
    let n = points.len();
    for i in 0..n
        invariant
            n == points@.len(),
            counts@.len() == n,
            forall|k: int| 0 <= k < n ==> #[trigger] counts@[k] == count_within(
                idx.points(),
                pp_pt(points@[k]),
                max_distance * max_distance,
            ),
            pairs@.len() == i,
            forall|k: int| 0 <= k < i ==> #[trigger] pairs@[k] == (
                points@[k].pop,
                count_within(idx.points(), pp_pt(points@[k]), max_distance * max_distance) as u64,
            ),
    {
        pairs.push((points[i].pop, counts[i]));
    }
    pairs
}

} // verus!
