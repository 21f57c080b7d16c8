//! Planar points with integer coordinates and squared Euclidean distance.
//!
//! Every distance in this crate is a squared distance: comparisons are
//! squared-against-squared, which keeps all arithmetic exact.

use vstd::prelude::*;

verus! {

/// Largest magnitude a coordinate may have. Coordinates are projected
/// planar units (metres), so one billion covers any city many times over;
/// the bound keeps every squared distance inside `i64`.
pub const MAX_COORD: i64 = 1_000_000_000;

/// Largest admissible distance threshold; its square still fits in `i64`.
pub const MAX_THRESHOLD: i64 = 3_000_000_000;

/// Upper bound on any squared distance between two in-range points:
/// `2 * (2 * MAX_COORD)^2`.
pub const MAX_DIST2: i64 = 8_000_000_000_000_000_000;

/// The mathematical pair behind an executable coordinate pair.
pub open spec fn view_pt(p: (i64, i64)) -> (int, int) {
    (p.0 as int, p.1 as int)
}

/// The mathematical pairs behind a sequence of executable coordinate
/// pairs.
pub open spec fn coords_seq(v: Seq<(i64, i64)>) -> Seq<(int, int)> {
    v.map_values(|p: (i64, i64)| view_pt(p))
}

/// Both coordinates within `MAX_COORD` in magnitude.
pub open spec fn coord_ok(p: (int, int)) -> bool {
    &&& -MAX_COORD <= p.0 <= MAX_COORD
    &&& -MAX_COORD <= p.1 <= MAX_COORD
}

/// Squared Euclidean distance between two points.
pub open spec fn dist2(a: (int, int), b: (int, int)) -> int {
    (a.0 - b.0) * (a.0 - b.0) + (a.1 - b.1) * (a.1 - b.1)
}

/// A squared distance is non-negative, and bounded when both points are
/// in range.
pub proof fn lemma_dist2_bounds(a: (int, int), b: (int, int))
    ensures
        dist2(a, b) >= 0,
        coord_ok(a) && coord_ok(b) ==> dist2(a, b) <= MAX_DIST2,
{
    let dx = a.0 - b.0;
    let dy = a.1 - b.1;
    assert(dx * dx >= 0) by (nonlinear_arith);
    assert(dy * dy >= 0) by (nonlinear_arith);
    if coord_ok(a) && coord_ok(b) {
        assert(dx * dx <= 4_000_000_000_000_000_000) by (nonlinear_arith)
            requires -2_000_000_000 <= dx <= 2_000_000_000;
        assert(dy * dy <= 4_000_000_000_000_000_000) by (nonlinear_arith)
            requires -2_000_000_000 <= dy <= 2_000_000_000;
    }
}

/// Executable squared distance; exact, no overflow for in-range points.
pub fn squared_distance(a: (i64, i64), b: (i64, i64)) -> (r: i64)
    requires
        coord_ok(view_pt(a)),
        coord_ok(view_pt(b)),
    ensures
        r == dist2(view_pt(a), view_pt(b)),
        0 <= r <= MAX_DIST2,
{
    proof {
        lemma_dist2_bounds(view_pt(a), view_pt(b));
    }
    let dx: i64 = a.0 - b.0;
    let dy: i64 = a.1 - b.1;
    assert(dx * dx >= 0 && dy * dy >= 0) by (nonlinear_arith);
    assert(dx * dx <= 4_000_000_000_000_000_000) by (nonlinear_arith)
        requires -2_000_000_000 <= dx <= 2_000_000_000;
    assert(dy * dy <= 4_000_000_000_000_000_000) by (nonlinear_arith)
        requires -2_000_000_000 <= dy <= 2_000_000_000;
    dx * dx + dy * dy
}

} // verus!
