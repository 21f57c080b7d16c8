//! The point-set loader: turns the lines of a coordinate file into
//! station coordinates or weighted population points.
//!
//! The first line is a header and is skipped; fully empty lines are
//! end-of-file artefacts and are skipped silently. Any other line must
//! yield enough fields and well-formed numeric fields, or the whole load
//! fails with the first offending line — there is no per-line recovery.
//!
//! Station lines are `name,lat,lon,x,y`; population lines are
//! `lat,lon,pop,x,y`. Both carry the planar coordinates in fields 3
//! and 4; the population weight is field 2.

use vstd::prelude::*;
use crate::geometry::{coord_ok, coords_seq, view_pt, MAX_COORD};
use crate::numbers::{dec_value, int_value, is_digits, is_int_text, parse_i64, parse_u64};
use crate::records::{deep_view, parse_csv_line, parse_line_spec};

verus! {

/// A population point: planar coordinates plus a non-negative weight.
#[derive(Clone, Copy, PartialEq, Eq, Structural, Debug)]
pub struct PopPoint {
    pub x: i64,
    pub y: i64,
    pub pop: u64,
}

/// The coordinate pair of a population point.
pub open spec fn pp_pt(p: PopPoint) -> (int, int) {
    (p.x as int, p.y as int)
}

/// The mathematical rows behind a vector of population points.
pub open spec fn pp_rows(ps: Seq<PopPoint>) -> Seq<(int, int, int)> {
    ps.map_values(|p: PopPoint| (p.x as int, p.y as int, p.pop as int))
}

/// Why a load failed.
#[derive(Clone, Copy, PartialEq, Eq, Structural, Debug)]
pub enum LoadErrorKind {
    /// A data line had fewer fields than the layout requires.
    TooFewFields,
    /// A numeric field did not parse, or a coordinate was out of range.
    BadNumber,
}

/// A fatal load failure: the first offending line and what was wrong.
#[derive(Clone, Copy, PartialEq, Eq, Structural, Debug)]
pub struct LoadError {
    /// Index of the offending line in the input line sequence.
    pub line: usize,
    pub kind: LoadErrorKind,
}

/// The data lines of a file: everything after the header line.
pub open spec fn data_lines(lines: Seq<Seq<u8>>) -> Seq<Seq<u8>> {
    if lines.len() <= 1 {
        Seq::<Seq<u8>>::empty()
    } else {
        lines.skip(1)
    }
}

/// A parsed coordinate field holding an in-range value.
pub open spec fn coord_field_ok(f: Seq<u8>) -> bool {
    is_int_text(f) && -MAX_COORD <= int_value(f) <= MAX_COORD
}

/// What is wrong with one station data line, if anything.
pub open spec fn station_line_error(l: Seq<u8>) -> Option<LoadErrorKind> {
    let fs = parse_line_spec(l);
    if fs.len() < 5 {
        Some(LoadErrorKind::TooFewFields)
    } else if !(coord_field_ok(fs[3]) && coord_field_ok(fs[4])) {
        Some(LoadErrorKind::BadNumber)
    } else {
        None
    }
}

/// The station a well-formed station line holds.
pub open spec fn line_station(l: Seq<u8>) -> (int, int) {
    let fs = parse_line_spec(l);
    (int_value(fs[3]), int_value(fs[4]))
}

/// The stations of a sequence of data lines, empty lines skipped.
pub open spec fn stations_of_lines(data: Seq<Seq<u8>>) -> Seq<(int, int)>
    decreases data.len(),
{
    if data.len() == 0 {
        Seq::<(int, int)>::empty()
    } else {
        let rest = stations_of_lines(data.drop_last());
        let l = data.last();
        if l.len() == 0 || station_line_error(l) is Some {
            rest
        } else {
            rest.push(line_station(l))
        }
    }
}

/// What is wrong with one population data line, if anything.
pub open spec fn pop_line_error(l: Seq<u8>) -> Option<LoadErrorKind> {
    let fs = parse_line_spec(l);
    if fs.len() < 5 {
        Some(LoadErrorKind::TooFewFields)
    } else if !(is_digits(fs[2]) && dec_value(fs[2]) <= u64::MAX && coord_field_ok(fs[3])
        && coord_field_ok(fs[4])) {
        Some(LoadErrorKind::BadNumber)
    } else {
        None
    }
}

/// The row a well-formed population line holds: x, y, weight.
pub open spec fn line_pop_row(l: Seq<u8>) -> (int, int, int) {
    let fs = parse_line_spec(l);
    (int_value(fs[3]), int_value(fs[4]), dec_value(fs[2]))
}

/// The population rows of a sequence of data lines, empty lines skipped.
pub open spec fn pop_rows_of_lines(data: Seq<Seq<u8>>) -> Seq<(int, int, int)>
    decreases data.len(),
{
    if data.len() == 0 {
        Seq::<(int, int, int)>::empty()
    } else {
        let rest = pop_rows_of_lines(data.drop_last());
        let l = data.last();
        if l.len() == 0 || pop_line_error(l) is Some {
            rest
        } else {
            rest.push(line_pop_row(l))
        }
    }
}

/// Loads the station coordinates from the lines of a station file.
pub fn load_stations(lines: &Vec<Vec<u8>>) -> (r: Result<Vec<(i64, i64)>, LoadError>)
    ensures
        match r {
            Ok(v) => {
                &&& forall|j: int| 1 <= j < lines@.len() && #[trigger] lines@[j]@.len() > 0
                    ==> station_line_error(lines@[j]@) is None
                &&& coords_seq(v@) == stations_of_lines(data_lines(deep_view(lines@)))
                &&& forall|i: int| 0 <= i < v@.len() ==> coord_ok(view_pt(#[trigger] v@[i]))
            },
            Err(e) => {
                &&& 1 <= e.line < lines@.len()
                &&& lines@[e.line as int]@.len() > 0
                &&& station_line_error(lines@[e.line as int]@) == Some(e.kind)
                &&& forall|j: int| 1 <= j < e.line && #[trigger] lines@[j]@.len() > 0
                    ==> station_line_error(lines@[j]@) is None
            },
        },
{
    let mut out: Vec<(i64, i64)> = Vec::new();
    let ghost data = data_lines(deep_view(lines@));
    let n = lines.len();
    assert(coords_seq(out@) =~= stations_of_lines(data.take(0)));
    let mut j: usize = 1;
    while j < n
        invariant
            1 <= j <= n || (n == 0 && j == 1),
            n == lines@.len(),
            data == data_lines(deep_view(lines@)),
            coords_seq(out@) =~= stations_of_lines(data.take(j - 1)),
            forall|k: int| 1 <= k < j && #[trigger] lines@[k]@.len() > 0
                ==> station_line_error(lines@[k]@) is None,
            forall|i: int| 0 <= i < out@.len() ==> coord_ok(view_pt(#[trigger] out@[i])),
        decreases n - j,
    {
        let ghost prefix = data.take(j - 1);
        assert(data.take(j as int).drop_last() =~= prefix);
        assert(data.take(j as int).last() == lines@[j as int]@);
        let line = &lines[j];
        if line.len() > 0 {
            let fields = parse_csv_line(line);
            if fields.len() < 5 {
                return Err(LoadError { line: j, kind: LoadErrorKind::TooFewFields });
            }
            let x = match parse_i64(&fields[3]) {
                Some(x) => x,
                None => {
                    return Err(LoadError { line: j, kind: LoadErrorKind::BadNumber });
                },
            };
            let y = match parse_i64(&fields[4]) {
                Some(y) => y,
                None => {
                    return Err(LoadError { line: j, kind: LoadErrorKind::BadNumber });
                },
            };
            if x < -MAX_COORD || x > MAX_COORD || y < -MAX_COORD || y > MAX_COORD {
                return Err(LoadError { line: j, kind: LoadErrorKind::BadNumber });
            }
            assert(deep_view(fields@)[3] == fields@[3]@ && deep_view(fields@)[4] == fields@[4]@);
            assert(station_line_error(lines@[j as int]@) is None);
            out.push((x, y));
            assert(coords_seq(out@) =~= stations_of_lines(data.take(j as int)));
        } else {
            assert(coords_seq(out@) =~= stations_of_lines(data.take(j as int)));
        }
        j = j + 1;
    }
    proof {
        if n == 0 {
            assert(data.take(j - 1) =~= data);
        } else {
            assert(data.take(n - 1) =~= data);
        }
    }
    Ok(out)
}

/// Loads the weighted population points from the lines of a population
/// file.
pub fn load_population_points(lines: &Vec<Vec<u8>>) -> (r: Result<Vec<PopPoint>, LoadError>)
    ensures
        match r {
            Ok(v) => {
                &&& forall|j: int| 1 <= j < lines@.len() && #[trigger] lines@[j]@.len() > 0
                    ==> pop_line_error(lines@[j]@) is None
                &&& pp_rows(v@) == pop_rows_of_lines(data_lines(deep_view(lines@)))
                &&& forall|i: int| 0 <= i < v@.len() ==> coord_ok(pp_pt(#[trigger] v@[i]))
            },
            Err(e) => {
                &&& 1 <= e.line < lines@.len()
                &&& lines@[e.line as int]@.len() > 0
                &&& pop_line_error(lines@[e.line as int]@) == Some(e.kind)
                &&& forall|j: int| 1 <= j < e.line && #[trigger] lines@[j]@.len() > 0
                    ==> pop_line_error(lines@[j]@) is None
            },
        },
{
    let mut out: Vec<PopPoint> = Vec::new();
    let ghost data = data_lines(deep_view(lines@));
    let n = lines.len();
    assert(pp_rows(out@) =~= pop_rows_of_lines(data.take(0)));
    let mut j: usize = 1;
    while j < n
        invariant
            1 <= j <= n || (n == 0 && j == 1),
            n == lines@.len(),
            data == data_lines(deep_view(lines@)),
            pp_rows(out@) =~= pop_rows_of_lines(data.take(j - 1)),
            forall|k: int| 1 <= k < j && #[trigger] lines@[k]@.len() > 0
                ==> pop_line_error(lines@[k]@) is None,
            forall|i: int| 0 <= i < out@.len() ==> coord_ok(pp_pt(#[trigger] out@[i])),
        decreases n - j,
    {
        let ghost prefix = data.take(j - 1);
        assert(data.take(j as int).drop_last() =~= prefix);
        assert(data.take(j as int).last() == lines@[j as int]@);
        let line = &lines[j];
        if line.len() > 0 {
            let fields = parse_csv_line(line);
            if fields.len() < 5 {
                return Err(LoadError { line: j, kind: LoadErrorKind::TooFewFields });
            }
            let pop = match parse_u64(&fields[2]) {
                Some(p) => p,
                None => {
                    return Err(LoadError { line: j, kind: LoadErrorKind::BadNumber });
                },
            };
            let x = match parse_i64(&fields[3]) {
                Some(x) => x,
                None => {
                    return Err(LoadError { line: j, kind: LoadErrorKind::BadNumber });
                },
            };
            let y = match parse_i64(&fields[4]) {
                Some(y) => y,
                None => {
                    return Err(LoadError { line: j, kind: LoadErrorKind::BadNumber });
                },
            };
            if x < -MAX_COORD || x > MAX_COORD || y < -MAX_COORD || y > MAX_COORD {
                return Err(LoadError { line: j, kind: LoadErrorKind::BadNumber });
            }
            assert(deep_view(fields@)[2] == fields@[2]@ && deep_view(fields@)[3] == fields@[3]@
                && deep_view(fields@)[4] == fields@[4]@);
            assert(pop_line_error(lines@[j as int]@) is None);
            out.push(PopPoint { x, y, pop });
            assert(pp_rows(out@) =~= pop_rows_of_lines(data.take(j as int)));
        } else {
            assert(pp_rows(out@) =~= pop_rows_of_lines(data.take(j as int)));
        }
        j = j + 1;
    }
    proof {
        if n == 0 {
            assert(data.take(j - 1) =~= data);
        } else {
            assert(data.take(n - 1) =~= data);
        }
    }
    Ok(out)
}

/// The total weight of a sequence of population rows.
pub open spec fn sum_pops(rows: Seq<(int, int, int)>) -> int
    decreases rows.len(),
{
    if rows.len() == 0 {
        0
    } else {
        sum_pops(rows.drop_last()) + rows.last().2
    }
}

/// The total city population: the sum of every point's weight, over the
/// unfiltered point set.
pub fn total_city_pop(points: &Vec<PopPoint>) -> (total: u128)
    ensures
        total == sum_pops(pp_rows(points@)),
{
    let mut total: u128 = 0;
    let n = points.len();
    let ghost rows = pp_rows(points@);
    assert(rows.take(0) =~= Seq::<(int, int, int)>::empty());
    for i in 0..n
        invariant
            n == points@.len(),
            rows == pp_rows(points@),
            total == sum_pops(rows.take(i as int)),
            total <= i * u64::MAX,
    {
        proof {
            assert(rows.take(i + 1).drop_last() =~= rows.take(i as int));
            assert(rows.take(i + 1).last() == rows[i as int]);
            assert(i * u64::MAX + u64::MAX == (i + 1) * u64::MAX) by (nonlinear_arith);
            assert((i + 1) * u64::MAX < u128::MAX) by (nonlinear_arith)
                requires 0 <= i < usize::MAX;
        }
        total = total + points[i].pop as u128;
    }
    assert(rows.take(n as int) =~= rows);
    total
}

} // verus!
