//! The brute-force variant: the full population-point × station distance
//! matrix, brute-force nearest/range queries to cross-check the spatial
//! index, and the consumers of a matrix file.
//!
//! Matrix rows hold squared distances, like every distance in this
//! crate; the matrix-file threshold comparison is therefore
//! squared-against-squared as well.

use vstd::prelude::*;
use vstd::multiset::Multiset;
use crate::geometry::{coord_ok, coords_seq, dist2, view_pt};
use crate::index::{count_within, within_pred};
use crate::loader::{pp_pt, LoadError, LoadErrorKind, PopPoint};
use crate::numbers::{dec_value, int_value, is_digits, is_int_text, parse_i64, parse_u64};
use crate::records::{deep_view, parse_csv_line, parse_line_spec};

verus! {

/// One row of the distance matrix: a population point, its weight, and
/// the squared distance to one station.
#[derive(Clone, Copy, PartialEq, Eq, Structural, Debug)]
pub struct MatrixRow {
    pub x: i64,
    pub y: i64,
    pub pop: u64,
    pub dist2: i64,
}

/// The mathematical rows behind a vector of matrix rows.
pub open spec fn matrix_view(rs: Seq<MatrixRow>) -> Seq<(int, int, int, int)> {
    rs.map_values(|r: MatrixRow| (r.x as int, r.y as int, r.pop as int, r.dist2 as int))
}

/// The rows one population point contributes: one per station, in
/// station order.
pub open spec fn point_rows(p: PopPoint, stations: Seq<(i64, i64)>) -> Seq<(int, int, int, int)>
    decreases stations.len(),
{
    if stations.len() == 0 {
        Seq::<(int, int, int, int)>::empty()
    } else {
        point_rows(p, stations.drop_last()).push(
            (p.x as int, p.y as int, p.pop as int, dist2(pp_pt(p), view_pt(stations.last()))),
        )
    }
}

/// The whole matrix: every point against every station, point-major.
pub open spec fn matrix_rows(ps: Seq<PopPoint>, stations: Seq<(i64, i64)>) -> Seq<
    (int, int, int, int),
>
    decreases ps.len(),
{
    if ps.len() == 0 {
        Seq::<(int, int, int, int)>::empty()
    } else {
        matrix_rows(ps.drop_last(), stations) + point_rows(ps.last(), stations)
    }
}

/// Computes the full distance matrix by brute force: `O(n * m)` rows,
/// one per point-station pair.
pub fn calculate_matrix(points: &Vec<PopPoint>, stations: &Vec<(i64, i64)>) -> (rows: Vec<
    MatrixRow,
>)
    requires
        forall|i: int| 0 <= i < points@.len() ==> coord_ok(pp_pt(#[trigger] points@[i])),
        forall|i: int| 0 <= i < stations@.len() ==> coord_ok(view_pt(#[trigger] stations@[i])),
    ensures
        matrix_view(rows@) == matrix_rows(points@, stations@),
{
    let mut rows: Vec<MatrixRow> = Vec::new();
    let n = points.len();
    let m = stations.len();
    assert(matrix_view(rows@) =~= matrix_rows(points@.take(0), stations@));
    for i in 0..n
        invariant
            n == points@.len(),
            m == stations@.len(),
            forall|k: int| 0 <= k < n ==> coord_ok(pp_pt(#[trigger] points@[k])),
            forall|k: int| 0 <= k < m ==> coord_ok(view_pt(#[trigger] stations@[k])),
            matrix_view(rows@) =~= matrix_rows(points@.take(i as int), stations@),
    {
        let p = points[i];
        assert(matrix_view(rows@) =~= matrix_rows(points@.take(i as int), stations@)
            + point_rows(p, stations@.take(0)));
        for j in 0..m
            invariant
                n == points@.len(),
                m == stations@.len(),
                0 <= i < n,
                p == points@[i as int],
                forall|k: int| 0 <= k < n ==> coord_ok(pp_pt(#[trigger] points@[k])),
                forall|k: int| 0 <= k < m ==> coord_ok(view_pt(#[trigger] stations@[k])),
                matrix_view(rows@) =~= matrix_rows(points@.take(i as int), stations@)
                    + point_rows(p, stations@.take(j as int)),
        {
            let d = crate::geometry::squared_distance((p.x, p.y), stations[j]);
            rows.push(MatrixRow { x: p.x, y: p.y, pop: p.pop, dist2: d });
            proof {
                assert(stations@.take(j + 1).drop_last() =~= stations@.take(j as int));
                assert(stations@.take(j + 1).last() == stations@[j as int]);
                assert(pp_pt(p) == view_pt((p.x, p.y)));
                assert(point_rows(p, stations@.take(j + 1)) =~= point_rows(
                    p,
                    stations@.take(j as int),
                ).push((p.x as int, p.y as int, p.pop as int, d as int)));
                assert(matrix_view(rows@) =~= (matrix_rows(points@.take(i as int), stations@)
                    + point_rows(p, stations@.take(j as int))).push(
                    (p.x as int, p.y as int, p.pop as int, d as int),
                ));
                assert(matrix_view(rows@) =~= matrix_rows(points@.take(i as int), stations@)
                    + point_rows(p, stations@.take(j + 1)));
            }
        }
        proof {
            assert(stations@.take(m as int) =~= stations@);
            assert(points@.take(i + 1).drop_last() =~= points@.take(i as int));
            assert(points@.take(i + 1).last() == points@[i as int]);
        }
    }
    assert(points@.take(n as int) =~= points@);
    rows
}

/// How many of the points of `s` lie within squared distance `r2` of
/// `p`, counted in order.
pub open spec fn count_within_seq(s: Seq<(int, int)>, p: (int, int), r2: int) -> nat
    decreases s.len(),
{
    if s.len() == 0 {
        0
    } else {
        count_within_seq(s.drop_last(), p, r2) + if dist2(p, s.last()) <= r2 {
            1nat
        } else {
            0nat
        }
    }
}

/// Brute-force nearest station: scans every station. The returned
/// station is held and no station is closer — the property the spatial
/// index is trusted for, proved outright here.
pub fn nearest_station_brute(stations: &Vec<(i64, i64)>, p: (i64, i64)) -> (r: Option<
    ((i64, i64), i64),
>)
    requires
        coord_ok(view_pt(p)),
        forall|i: int| 0 <= i < stations@.len() ==> coord_ok(view_pt(#[trigger] stations@[i])),
    ensures
        match r {
            Some((q, d)) => {
                &&& stations@.contains(q)
                &&& d == dist2(view_pt(p), view_pt(q))
                &&& forall|k: int| 0 <= k < stations@.len() ==> d <= dist2(
                    view_pt(p),
                    view_pt(#[trigger] stations@[k]),
                )
            },
            None => stations@.len() == 0,
        },
{
    let m = stations.len();
    if m == 0 {
        return None;
    }
    let mut best: (i64, i64) = stations[0];
    let mut best_d: i64 = crate::geometry::squared_distance(p, stations[0]);
    assert(stations@.contains(stations@[0]));
    for j in 1..m
        invariant
            m == stations@.len(),
            coord_ok(view_pt(p)),
            forall|k: int| 0 <= k < m ==> coord_ok(view_pt(#[trigger] stations@[k])),
            stations@.contains(best),
            best_d == dist2(view_pt(p), view_pt(best)),
            forall|k: int| 0 <= k < j ==> best_d <= dist2(
                view_pt(p),
                view_pt(#[trigger] stations@[k]),
            ),
    {
        let d = crate::geometry::squared_distance(p, stations[j]);
        if d < best_d {
            best = stations[j];
            best_d = d;
            assert(stations@.contains(stations@[j as int]));
        }
    }
    Some((best, best_d))
}

/// Brute-force range count: scans every station.
pub fn count_stations_brute(stations: &Vec<(i64, i64)>, p: (i64, i64), max_d2: i64) -> (n: usize)
    requires
        coord_ok(view_pt(p)),
        forall|i: int| 0 <= i < stations@.len() ==> coord_ok(view_pt(#[trigger] stations@[i])),
        0 <= max_d2,
    ensures
        n == count_within_seq(coords_seq(stations@), view_pt(p), max_d2 as int),
{
    let m = stations.len();
    let mut n: usize = 0;
    let ghost cs = coords_seq(stations@);
    assert(cs.take(0) =~= Seq::<(int, int)>::empty());
    for j in 0..m
        invariant
            m == stations@.len(),
            cs == coords_seq(stations@),
            coord_ok(view_pt(p)),
            forall|k: int| 0 <= k < m ==> coord_ok(view_pt(#[trigger] stations@[k])),
            n == count_within_seq(cs.take(j as int), view_pt(p), max_d2 as int),
            n <= j,
    {
        proof {
            assert(cs.take(j + 1).drop_last() =~= cs.take(j as int));
            assert(cs.take(j + 1).last() == view_pt(stations@[j as int]));
        }
        let d = crate::geometry::squared_distance(p, stations[j]);
        if d <= max_d2 {
            n = n + 1;
        }
    }
    assert(cs.take(m as int) =~= cs);
    n
}

proof fn lemma_filter_insert(ms: Multiset<(int, int)>, x: (int, int), p: (int, int), r2: int)
    ensures
        count_within(ms.insert(x), p, r2) == count_within(ms, p, r2) + if dist2(p, x) <= r2 {
            1int
        } else {
            0int
        },
{
    broadcast use vstd::multiset::group_multiset_axioms;

    let pred = within_pred(p, r2);
    if dist2(p, x) <= r2 {
        assert(ms.insert(x).filter(pred) =~= ms.filter(pred).insert(x));
        vstd::multiset::lemma_insert_len(ms.filter(pred), x);
    } else {
        assert(ms.insert(x).filter(pred) =~= ms.filter(pred));
    }
}

/// Range counting by brute force over a station sequence agrees with
/// range counting over the multiset the spatial index is specified
/// against: the index and the scan answer alike.
pub proof fn lemma_count_brute_agrees(s: Seq<(int, int)>, p: (int, int), r2: int)
    ensures
        count_within_seq(s, p, r2) == count_within(s.to_multiset(), p, r2),
    decreases s.len(),
{
    broadcast use vstd::multiset::group_multiset_axioms;

    s.to_multiset_ensures();
    let pred = within_pred(p, r2);
    if s.len() == 0 {
        vstd::multiset::lemma_multiset_empty_len(s.to_multiset());
        assert(s.to_multiset() =~= Multiset::<(int, int)>::empty());
        assert(s.to_multiset().filter(pred) =~= Multiset::<(int, int)>::empty());
    } else {
        let d = s.drop_last();
        lemma_count_brute_agrees(d, p, r2);
        d.to_multiset_ensures();
        assert(d.push(s.last()) =~= s);
        assert(d.push(s.last()).to_multiset() =~= d.to_multiset().insert(s.last()));
        lemma_filter_insert(d.to_multiset(), s.last(), p, r2);
    }
}

/// The header line of a matrix file: `pp_x,pp_y,pop,dist`.
pub open spec fn matrix_header() -> Seq<u8> {
    seq![
        112u8, 112u8, 95u8, 120u8, 44u8, 112u8, 112u8, 95u8, 121u8, 44u8, 112u8, 111u8, 112u8,
        44u8, 100u8, 105u8, 115u8, 116u8,
    ]
}

fn matrix_header_vec() -> (h: Vec<u8>)
    ensures
        h@ == matrix_header(),
{
    let mut h: Vec<u8> = Vec::new();
    h.push(112);
    h.push(112);
    h.push(95);
    h.push(120);
    h.push(44);
    h.push(112);
    h.push(112);
    h.push(95);
    h.push(121);
    h.push(44);
    h.push(112);
    h.push(111);
    h.push(112);
    h.push(44);
    h.push(100);
    h.push(105);
    h.push(115);
    h.push(116);
    assert(h@ =~= matrix_header());
    h
}

fn is_matrix_header(line: &Vec<u8>) -> (r: bool)
    ensures
        r == (line@ == matrix_header()),
{
    let h = matrix_header_vec();
    if line.len() != h.len() {
        return false;
    }
    let n = h.len();
    for i in 0..n
        invariant
            n == h@.len() == line@.len(),
            h@ == matrix_header(),
            forall|k: int| 0 <= k < i ==> line@[k] == h@[k],
    {
        if line[i] != h[i] {
            return false;
        }
    }
    assert(line@ =~= matrix_header());
    true
}

/// A line a matrix-file pass skips: empty, or the header repeated.
pub open spec fn matrix_skip_line(l: Seq<u8>) -> bool {
    l.len() == 0 || l == matrix_header()
}

/// What is wrong with one matrix data line for the population pass, if
/// anything: it needs a weight in field 2 and a squared distance in
/// field 3.
pub open spec fn matrix_value_error(l: Seq<u8>) -> Option<LoadErrorKind> {
    let fs = parse_line_spec(l);
    if fs.len() < 4 {
        Some(LoadErrorKind::TooFewFields)
    } else if !(is_digits(fs[2]) && dec_value(fs[2]) <= u64::MAX && is_int_text(fs[3])
        && i64::MIN <= int_value(fs[3]) <= i64::MAX) {
        Some(LoadErrorKind::BadNumber)
    } else {
        None
    }
}

/// Total weight of the matrix rows whose squared distance is at most
/// `max_d2`, skipped and malformed lines contributing nothing.
pub open spec fn matrix_pop_sum(lines: Seq<Seq<u8>>, max_d2: int) -> int
    decreases lines.len(),
{
    if lines.len() == 0 {
        0
    } else {
        let rest = matrix_pop_sum(lines.drop_last(), max_d2);
        let l = lines.last();
        if matrix_skip_line(l) || matrix_value_error(l) is Some {
            rest
        } else {
            let fs = parse_line_spec(l);
            rest + if int_value(fs[3]) <= max_d2 {
                dec_value(fs[2])
            } else {
                0
            }
        }
    }
}

/// One pass over the lines of a matrix file: sums the weight of every
/// row within squared distance `max_d2`. Empty lines and header lines
/// are skipped wherever they appear; the first malformed line aborts the
/// pass.
pub fn matrix_pop_within(lines: &Vec<Vec<u8>>, max_d2: i64) -> (r: Result<u128, LoadError>)
    ensures
        match r {
            Ok(t) => {
                &&& forall|j: int| 0 <= j < lines@.len() && !matrix_skip_line(
                    #[trigger] lines@[j]@,
                ) ==> matrix_value_error(lines@[j]@) is None
                &&& t == matrix_pop_sum(deep_view(lines@), max_d2 as int)
            },
            Err(e) => {
                &&& 0 <= e.line < lines@.len()
                &&& !matrix_skip_line(lines@[e.line as int]@)
                &&& matrix_value_error(lines@[e.line as int]@) == Some(e.kind)
                &&& forall|j: int| 0 <= j < e.line && !matrix_skip_line(#[trigger] lines@[j]@)
                    ==> matrix_value_error(lines@[j]@) is None
            },
        },
{
    let mut total: u128 = 0;
    let n = lines.len();
    let ghost data = deep_view(lines@);
    assert(data.take(0) =~= Seq::<Seq<u8>>::empty());
    for j in 0..n
        invariant
            n == lines@.len(),
            data == deep_view(lines@),
            total == matrix_pop_sum(data.take(j as int), max_d2 as int),
            total <= j * u64::MAX,
            forall|k: int| 0 <= k < j && !matrix_skip_line(#[trigger] lines@[k]@)
                ==> matrix_value_error(lines@[k]@) is None,
    {
        proof {
            assert(data.take(j + 1).drop_last() =~= data.take(j as int));
            assert(data.take(j + 1).last() == lines@[j as int]@);
            assert(j * u64::MAX + u64::MAX == (j + 1) * u64::MAX) by (nonlinear_arith);
            assert((j + 1) * u64::MAX < u128::MAX) by (nonlinear_arith)
                requires 0 <= j < usize::MAX;
        }
        let line = &lines[j];
        if line.len() > 0 && !is_matrix_header(line) {
            let fields = parse_csv_line(line);
            if fields.len() < 4 {
                return Err(LoadError { line: j, kind: LoadErrorKind::TooFewFields });
            }
            let pop = match parse_u64(&fields[2]) {
                Some(p) => p,
                None => {
                    return Err(LoadError { line: j, kind: LoadErrorKind::BadNumber });
                },
            };
            let d = match parse_i64(&fields[3]) {
                Some(d) => d,
                None => {
                    return Err(LoadError { line: j, kind: LoadErrorKind::BadNumber });
                },
            };
            assert(deep_view(fields@)[2] == fields@[2]@ && deep_view(fields@)[3] == fields@[3]@);
            assert(matrix_value_error(lines@[j as int]@) is None);
            if d <= max_d2 {
                total = total + pop as u128;
            }
        }
    }
    assert(data.take(n as int) =~= data);
    Ok(total)
}

/// A matrix line the consistency check rejects: not exactly four fields,
/// or a distance field that does not parse.
pub open spec fn matrix_check_bad(l: Seq<u8>) -> bool {
    let fs = parse_line_spec(l);
    fs.len() != 4 || !(is_int_text(fs[3]) && i64::MIN <= int_value(fs[3]) <= i64::MAX)
}

/// Scans the lines of a matrix file for the first malformed row: one
/// without exactly four fields or without a readable distance. Returns
/// its index, or None when every row is sound.
pub fn check_matrix_csv(lines: &Vec<Vec<u8>>) -> (r: Option<usize>)
    ensures
        match r {
            Some(i) => {
                &&& 0 <= i < lines@.len()
                &&& !matrix_skip_line(lines@[i as int]@)
                &&& matrix_check_bad(lines@[i as int]@)
                &&& forall|j: int| 0 <= j < i && !matrix_skip_line(#[trigger] lines@[j]@)
                    ==> !matrix_check_bad(lines@[j]@)
            },
            None => forall|j: int| 0 <= j < lines@.len() && !matrix_skip_line(
                #[trigger] lines@[j]@,
            ) ==> !matrix_check_bad(lines@[j]@),
        },
{
    let n = lines.len();
    for j in 0..n
        invariant
            n == lines@.len(),
            forall|k: int| 0 <= k < j && !matrix_skip_line(#[trigger] lines@[k]@)
                ==> !matrix_check_bad(lines@[k]@),
    {
        let line = &lines[j];
        if line.len() > 0 && !is_matrix_header(line) {
            let fields = parse_csv_line(line);
            let mut bad = fields.len() != 4;
            if !bad {
                bad = match parse_i64(&fields[3]) {
                    Some(_) => false,
                    None => true,
                };
                assert(deep_view(fields@)[3] == fields@[3]@);
            }
            if bad {
                return Some(j);
            }
            assert(!matrix_check_bad(lines@[j as int]@));
        }
    }
    None
}

/// The range count is consistent with the nearest-neighbour query: the
/// count is positive exactly when some station lies within the radius.
/// In particular a station returned by a nearest query with distance at
/// most the radius is always counted.
pub proof fn lemma_within_iff_counted(ms: Multiset<(int, int)>, p: (int, int), r2: int)
    ensures
        crate::index::within_any(ms, p, r2) <==> count_within(ms, p, r2) >= 1,
{
    broadcast use vstd::multiset::group_multiset_axioms;

    let pred = within_pred(p, r2);
    if crate::index::within_any(ms, p, r2) {
        let q = choose|q: (int, int)| #[trigger] ms.contains(q) && dist2(p, q) <= r2;
        let rest = ms.remove(q);
        assert(rest.insert(q) =~= ms);
        lemma_filter_insert(rest, q, p, r2);
    }
    if count_within(ms, p, r2) >= 1 {
        vstd::multiset::lemma_multiset_empty_len(ms.filter(pred));
        let v = choose|v: (int, int)| 0 < ms.filter(pred).count(v);
        assert(pred(v) && ms.count(v) > 0);
        assert(ms.contains(v) && dist2(p, v) <= r2);
    }
}

/// Range counts are monotone in the radius: enlarging the radius never
/// loses a station.
pub proof fn lemma_range_count_monotonic(
    ms: Multiset<(int, int)>,
    p: (int, int),
    r2a: int,
    r2b: int,
)
    requires
        r2a <= r2b,
    ensures
        count_within(ms, p, r2a) <= count_within(ms, p, r2b),
    decreases ms.len(),
{
    broadcast use vstd::multiset::group_multiset_axioms;

    if ms.len() == 0 {
        vstd::multiset::lemma_multiset_empty_len(ms);
        assert(ms =~= Multiset::<(int, int)>::empty());
        assert(ms.filter(within_pred(p, r2a)) =~= Multiset::<(int, int)>::empty());
        assert(ms.filter(within_pred(p, r2b)) =~= Multiset::<(int, int)>::empty());
    } else {
        vstd::multiset::lemma_multiset_empty_len(ms);
        let v = choose|v: (int, int)| 0 < ms.count(v);
        let rest = ms.remove(v);
        assert(rest.insert(v) =~= ms);
        vstd::multiset::lemma_insert_len(rest, v);
        lemma_range_count_monotonic(rest, p, r2a, r2b);
        lemma_filter_insert(rest, v, p, r2a);
        lemma_filter_insert(rest, v, p, r2b);
    }
}

} // verus!
