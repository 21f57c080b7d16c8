//! The spatial index over the reference (station) points: an R*-tree
//! bulk-loaded once, queried read-only afterwards.
//!
//! The tree itself comes from the `rstar` crate and is trusted through
//! the contracts below; everything computed from its answers is verified.

use vstd::prelude::*;
use vstd::multiset::Multiset;
use crate::geometry::{coord_ok, dist2, view_pt, MAX_DIST2};

verus! {

/// The spatial index: owns the reference points, immutable once built,
/// safe for concurrent read-only queries. The inner `rstar` tree is
/// opaque to the verifier; its contents are spoken of through
/// [`index_points`].
#[verifier::external_body]
pub struct StationIndex {
    tree: rstar::RTree<(i64, i64)>,
}

/// The points a station index holds, as a multiset: the tree imposes no
/// order and may hold duplicates.
pub uninterp spec fn index_points(idx: StationIndex) -> Multiset<(int, int)>;

/// The multiset of points behind an executable station vector.
pub open spec fn points_multiset(pts: Seq<(i64, i64)>) -> Multiset<(int, int)> {
    crate::geometry::coords_seq(pts).to_multiset()
}

/// Every point of the multiset is within coordinate range.
pub open spec fn all_coords_ok(ms: Multiset<(int, int)>) -> bool {
    forall|q: (int, int)| ms.contains(q) ==> #[trigger] coord_ok(q)
}

/// The predicate "within squared distance `r2` of `p`".
pub open spec fn within_pred(p: (int, int), r2: int) -> spec_fn((int, int)) -> bool {
    |q: (int, int)| dist2(p, q) <= r2
}

/// How many points of `ms` lie within squared distance `r2` of `p`.
pub open spec fn count_within(ms: Multiset<(int, int)>, p: (int, int), r2: int) -> nat {
    ms.filter(within_pred(p, r2)).len()
}

/// Some point of `ms` lies within squared distance `r2` of `p`.
pub open spec fn within_any(ms: Multiset<(int, int)>, p: (int, int), r2: int) -> bool {
    exists|q: (int, int)| #[trigger] ms.contains(q) && dist2(p, q) <= r2
}

/// Relies on rstar::RTree::bulk_load: builds an R*-tree holding exactly
/// the given elements, duplicates included.
#[verifier::external_body]
fn raw_build(stations: &Vec<(i64, i64)>) -> (idx: StationIndex)
    ensures
        index_points(idx) == points_multiset(stations@),
{
    StationIndex { tree: rstar::RTree::bulk_load(stations.clone()) }
}

/// Relies on rstar::RTree::nearest_neighbor: returns an element at
/// minimal squared distance from the query point, or None exactly when
/// the tree is empty. The coordinate bounds keep rstar's internal `i64`
/// squared distances from overflowing.
#[verifier::external_body]
fn raw_nearest(idx: &StationIndex, p: (i64, i64)) -> (r: Option<(i64, i64)>)
    requires
        coord_ok(view_pt(p)),
        all_coords_ok(index_points(*idx)),
    ensures
        match r {
            Some(q) => index_points(*idx).contains(view_pt(q)) && forall|s: (int, int)|
                #[trigger] index_points(*idx).contains(s) ==> dist2(view_pt(p), view_pt(q))
                    <= dist2(view_pt(p), s),
            None => index_points(*idx).len() == 0,
        },
{
    idx.tree.nearest_neighbor(p).copied()
}

/// Relies on rstar::RTree::locate_within_distance: yields exactly the
/// elements whose squared distance to the query point is at most the
/// given bound (the comparison is inclusive).
#[verifier::external_body]
fn raw_count_within(idx: &StationIndex, p: (i64, i64), max_d2: i64) -> (n: usize)
    requires
        coord_ok(view_pt(p)),
        all_coords_ok(index_points(*idx)),
        0 <= max_d2,
    ensures
        n == count_within(index_points(*idx), view_pt(p), max_d2 as int),
{
    idx.tree.locate_within_distance(p, max_d2).count()
}

/// Relies on rstar::RTree::size: the number of elements the tree holds.
#[verifier::external_body]
fn raw_len(idx: &StationIndex) -> (n: usize)
    ensures
        n == index_points(*idx).len(),
{
    idx.tree.size()
}

impl StationIndex {
    /// The reference points this index holds.
    pub open spec fn points(self) -> Multiset<(int, int)> {
        index_points(self)
    }

    /// All held points are within coordinate range.
    pub open spec fn wf(self) -> bool {
        all_coords_ok(self.points())
    }

    /// Bulk-loads the index from the full station set.
    pub fn build(stations: &Vec<(i64, i64)>) -> (idx: StationIndex)
        requires
            forall|i: int| 0 <= i < stations@.len() ==> coord_ok(view_pt(#[trigger] stations@[i])),
        ensures
            idx.points() == points_multiset(stations@),
            idx.wf(),
    {
        let idx = raw_build(stations);
        proof {
            let vs = crate::geometry::coords_seq(stations@);
            vs.to_multiset_ensures();
            assert forall|q: (int, int)| idx.points().contains(q) implies #[trigger] coord_ok(q) by {
                assert(vs.to_multiset().count(q) > 0);
                assert(vs.contains(q));
                let j = choose|j: int| 0 <= j < vs.len() && vs[j] == q;
                assert(coord_ok(view_pt(stations@[j])));
            }
        }
        idx
    }

    /// Number of stations in the index.
    pub fn len(&self) -> (n: usize)
        ensures
            n == self.points().len(),
    {
        raw_len(self)
    }

    /// Nearest station to `p` with its squared distance; None exactly
    /// when the index is empty.
    pub fn nearest(&self, p: (i64, i64)) -> (r: Option<((i64, i64), i64)>)
        requires
            self.wf(),
            coord_ok(view_pt(p)),
        ensures
            match r {
                Some((q, d)) => {
                    &&& self.points().contains(view_pt(q))
                    &&& d == dist2(view_pt(p), view_pt(q))
                    &&& 0 <= d <= MAX_DIST2
                    &&& forall|s: (int, int)| #[trigger] self.points().contains(s)
                        ==> d <= dist2(view_pt(p), s)
                },
                None => self.points().len() == 0,
            },
    {
        match raw_nearest(self, p) {
            None => None,
            Some(q) => {
                assert(coord_ok(view_pt(q)));
                let d = crate::geometry::squared_distance(p, q);
                Some((q, d))
            },
        }
    }

    /// Number of stations within squared distance `max_d2` of `p`.
    pub fn count_within(&self, p: (i64, i64), max_d2: i64) -> (n: usize)
        requires
            self.wf(),
            coord_ok(view_pt(p)),
            0 <= max_d2,
        ensures
            n == count_within(self.points(), view_pt(p), max_d2 as int),
    {
        raw_count_within(self, p, max_d2)
    }
}

} // verus!
