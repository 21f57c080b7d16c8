//! Cumulative proximity statistics: population mass within a distance
//! threshold, swept over an ascending sequence of thresholds.
//!
//! A proportion is reported as an exact pair — the mass within distance
//! and the total city population — so the caller divides once, with the
//! same denominator for every threshold.

use vstd::prelude::*;
use vstd::multiset::Multiset;
use crate::geometry::MAX_THRESHOLD;
use crate::index::{points_multiset, within_any, StationIndex};
use crate::loader::{
    data_lines, load_population_points, load_stations, pop_rows_of_lines, pp_rows,
    stations_of_lines, sum_pops, LoadError, PopPoint,
};
use crate::query::{all_points_ok, pop_within_dist, pops_within};
use crate::records::deep_view;

verus! {

/// One pass of the cumulative-proportion numerator per threshold, in
/// input order. Thresholds handed in ascending order come back in
/// ascending order, one row each.
pub fn sweep_proportions(idx: &StationIndex, points: &Vec<PopPoint>, thresholds: &Vec<i64>) -> (
    rows: Vec<(i64, u128)>)
    requires
        idx.wf(),
        all_points_ok(points@),
        forall|i: int| 0 <= i < thresholds@.len() ==> 0 <= #[trigger] thresholds@[i]
            <= MAX_THRESHOLD,
    ensures
        rows@.len() == thresholds@.len(),
        forall|i: int| 0 <= i < thresholds@.len() ==> #[trigger] rows@[i] == (
            thresholds@[i],
            pops_within(pp_rows(points@), idx.points(), thresholds@[i] * thresholds@[i]) as u128,
        ),
{
    let mut rows: Vec<(i64, u128)> = Vec::new();
    let n = thresholds.len();
    for i in 0..n
        invariant
            n == thresholds@.len(),
            idx.wf(),
            all_points_ok(points@),
            forall|k: int| 0 <= k < n ==> 0 <= #[trigger] thresholds@[k] <= MAX_THRESHOLD,
            rows@.len() == i,
            forall|k: int| 0 <= k < i ==> #[trigger] rows@[k] == (
                thresholds@[k],
                pops_within(pp_rows(points@), idx.points(), thresholds@[k] * thresholds@[k]) as u128,
            ),
    {
        let t = thresholds[i];
        let within = pop_within_dist(idx, points, t);
        rows.push((t, within));
    }
    rows
}

/// Which input file a one-shot run failed on.
#[derive(Clone, Copy, PartialEq, Eq, Structural, Debug)]
pub enum InputFile {
    Stations,
    Population,
}

/// One shot from raw file lines to the cumulative proportion: loads the
/// stations, bulk-loads the index, loads the population points, and
/// returns the pair (population within `max_distance` of some station,
/// total city population). The denominator is the unfiltered total. The
/// first malformed line of either file aborts the run.
pub fn proportion_from_lines(
    station_lines: &Vec<Vec<u8>>,
    pp_lines: &Vec<Vec<u8>>,
    max_distance: i64,
) -> (r: Result<(u128, u128), (InputFile, LoadError)>)
    requires
        0 <= max_distance <= MAX_THRESHOLD,
    ensures
        match r {
            Ok(p) => {
                let st = stations_of_lines(data_lines(deep_view(station_lines@)));
                let rows = pop_rows_of_lines(data_lines(deep_view(pp_lines@)));
                &&& p.0 == pops_within(rows, st.to_multiset(), max_distance * max_distance)
                &&& p.1 == sum_pops(rows)
                &&& p.0 <= p.1
            },
            Err((f, e)) => match f {
                InputFile::Stations => {
                    &&& 1 <= e.line < station_lines@.len()
                    &&& crate::loader::station_line_error(station_lines@[e.line as int]@)
                        == Some(e.kind)
                },
                InputFile::Population => {
                    &&& 1 <= e.line < pp_lines@.len()
                    &&& crate::loader::pop_line_error(pp_lines@[e.line as int]@) == Some(e.kind)
                },
            },
        },
{
    let stations = match load_stations(station_lines) {
        Ok(v) => v,
        Err(e) => {
            return Err((InputFile::Stations, e));
        },
    };
    let idx = StationIndex::build(&stations);
    let points = match load_population_points(pp_lines) {
        Ok(v) => v,
        Err(e) => {
            return Err((InputFile::Population, e));
        },
    };
    let total = crate::loader::total_city_pop(&points);
    let within = pop_within_dist(&idx, &points, max_distance);
    proof {
        assert(idx.points() == stations_of_lines(
            data_lines(deep_view(station_lines@)),
        ).to_multiset()) by {
            assert(points_multiset(stations@) == crate::geometry::coords_seq(
                stations@,
            ).to_multiset());
        }
        assert(forall|i: int| 0 <= i < pp_rows(points@).len()
            ==> (#[trigger] pp_rows(points@)[i]).2 >= 0);
        lemma_cumulative_at_most_total(
            pp_rows(points@),
            idx.points(),
            max_distance * max_distance,
        );
    }
    Ok((within, total))
}

/// The cumulative numerator never exceeds the total city population, so
/// the proportion is well-formed.
pub proof fn lemma_cumulative_at_most_total(
    rows: Seq<(int, int, int)>,
    ms: Multiset<(int, int)>,
    d2: int,
)
    requires
        forall|i: int| 0 <= i < rows.len() ==> (#[trigger] rows[i]).2 >= 0,
    ensures
        0 <= pops_within(rows, ms, d2) <= sum_pops(rows),
    decreases rows.len(),
{
    if rows.len() > 0 {
        lemma_cumulative_at_most_total(rows.drop_last(), ms, d2);
        assert(rows.last() == rows[rows.len() - 1]);
    }
}

/// Cumulative proportion is non-decreasing in the distance threshold:
/// widening the threshold can only admit more population mass.
pub proof fn lemma_cumulative_monotonic(
    rows: Seq<(int, int, int)>,
    ms: Multiset<(int, int)>,
    d2a: int,
    d2b: int,
)
    requires
        d2a <= d2b,
        forall|i: int| 0 <= i < rows.len() ==> (#[trigger] rows[i]).2 >= 0,
    ensures
        pops_within(rows, ms, d2a) <= pops_within(rows, ms, d2b),
    decreases rows.len(),
{
    if rows.len() > 0 {
        lemma_cumulative_monotonic(rows.drop_last(), ms, d2a, d2b);
        assert(rows.last() == rows[rows.len() - 1]);
        let p = (rows.last().0, rows.last().1);
        if within_any(ms, p, d2a) {
            let q = choose|q: (int, int)| #[trigger] ms.contains(q)
                && crate::geometry::dist2(p, q) <= d2a;
            assert(within_any(ms, p, d2b));
        }
    }
}

/// Once the threshold reaches every point's nearest station, the
/// cumulative numerator equals the total city population: the
/// proportion has converged to one.
pub proof fn lemma_cumulative_total(rows: Seq<(int, int, int)>, ms: Multiset<(int, int)>, d2: int)
    requires
        forall|i: int| 0 <= i < rows.len() ==> within_any(
            ms,
            ((#[trigger] rows[i]).0, rows[i].1),
            d2,
        ),
    ensures
        pops_within(rows, ms, d2) == sum_pops(rows),
    decreases rows.len(),
{
    if rows.len() > 0 {
        assert(forall|i: int| 0 <= i < rows.drop_last().len() ==> within_any(
            ms,
            ((#[trigger] rows.drop_last()[i]).0, rows.drop_last()[i].1),
            d2,
        ));
        lemma_cumulative_total(rows.drop_last(), ms, d2);
        assert(within_any(ms, (rows[rows.len() - 1].0, rows[rows.len() - 1].1), d2));
    }
}

} // verus!
