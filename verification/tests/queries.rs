use proximity::cumulative::{proportion_from_lines, sweep_proportions, InputFile};
use proximity::index::StationIndex;
use proximity::loader::{LoadErrorKind, PopPoint};
use proximity::matrix::{
    calculate_matrix, check_matrix_csv, count_stations_brute, matrix_pop_within,
    nearest_station_brute, MatrixRow,
};
use proximity::query::{count_n_stations, n_stations_within_dist, pop_within_dist};

fn lines(s: &str) -> Vec<Vec<u8>> {
    s.split('\n').map(|l| l.as_bytes().to_vec()).collect()
}

fn pp(x: i64, y: i64, pop: u64) -> PopPoint {
    PopPoint { x, y, pop }
}

#[test]
fn nearest_matches_brute_force() {
    // The spatial index and the exhaustive scan must agree on nearest
    // squared distances.
    let stations = vec![(0, 0), (10, 20), (1100, 1100), (10000, 10000), (-50, 75)];
    let idx = StationIndex::build(&stations);
    assert_eq!(idx.len(), 5);
    let queries = vec![(0, 0), (5, 5), (-100, -100), (9999, 9999), (600, 600)];
    for q in queries {
        let (_, brute_d) = nearest_station_brute(&stations, q).unwrap();
        let (_, idx_d) = idx.nearest(q).unwrap();
        assert_eq!(brute_d, idx_d);
    }
}

#[test]
fn nearest_on_empty_index_is_none() {
    let stations: Vec<(i64, i64)> = Vec::new();
    let idx = StationIndex::build(&stations);
    assert_eq!(idx.len(), 0);
    assert!(idx.nearest((0, 0)).is_none());
    assert!(nearest_station_brute(&stations, (0, 0)).is_none());
    assert_eq!(idx.count_within((0, 0), 1_000_000), 0);
}

#[test]
fn range_count_matches_brute_force() {
    let stations = vec![(0, 0), (3, 4), (3, 4), (10, 0), (-6, -8)];
    let idx = StationIndex::build(&stations);
    let q = (0, 0);
    for r2 in [0, 24, 25, 99, 100, 101, 10000] {
        let expected = count_stations_brute(&stations, q, r2);
        assert_eq!(idx.count_within(q, r2), expected);
    }
    // Duplicates are counted twice; the boundary is inclusive.
    assert_eq!(idx.count_within(q, 25), 3);
}

#[test]
fn nearest_within_radius_is_counted() {
    // Consistency between the two queries: a station found by a nearest
    // query within the radius is also counted by the range query.
    let stations = vec![(0, 0), (30, 40)];
    let idx = StationIndex::build(&stations);
    let (_, d) = idx.nearest((3, 4)).unwrap();
    assert_eq!(d, 25);
    assert!(idx.count_within((3, 4), 25) >= 1);
}

#[test]
fn range_count_is_monotone_in_radius() {
    let stations = vec![(0, 0), (30, 40), (300, 400), (-500, 1200)];
    let idx = StationIndex::build(&stations);
    let q = (7, -9);
    let mut previous = 0;
    for r in 0..60 {
        let count = idx.count_within(q, r * r);
        assert!(count >= previous);
        previous = count;
    }
}

#[test]
fn cumulative_proportion_scenario() {
    // One station at the origin; the point at distance exactly 500 is
    // inside an inclusive threshold of 500.
    let stations = vec![(0, 0)];
    let idx = StationIndex::build(&stations);
    let points = vec![pp(0, 0, 25), pp(100, 100, 25), pp(300, 400, 25), pp(1000, 1000, 25)];
    let within = pop_within_dist(&idx, &points, 500);
    assert_eq!(within, 75);
    let total: u128 = proximity::loader::total_city_pop(&points);
    assert_eq!(total, 100);
    assert_eq!((within as f64) / (total as f64), 0.75);
}

#[test]
fn cumulative_sweep_is_sorted_and_monotone() {
    let stations = vec![(0, 0)];
    let idx = StationIndex::build(&stations);
    let points = vec![pp(0, 0, 25), pp(100, 100, 25), pp(300, 400, 25), pp(1000, 1000, 25)];
    let thresholds = vec![100, 200, 500, 1000, 2000];
    let rows = sweep_proportions(&idx, &points, &thresholds);
    assert_eq!(rows.len(), 5);
    let mut last = 0u128;
    for (i, (t, within)) in rows.iter().enumerate() {
        assert_eq!(*t, thresholds[i]);
        assert!(*within >= last);
        last = *within;
    }
    assert_eq!(rows[0], (100, 25));
    assert_eq!(rows[2], (500, 75));
    // Beyond the farthest nearest-distance the proportion reaches one.
    assert_eq!(rows[4], (2000, 100));
}

#[test]
fn proportion_from_raw_lines() {
    let station_lines = lines("name,lat,lon,x,y\nCentral,51,0,0,0\n");
    let pp_lines = lines(
        "lat,lon,pop,x,y\n51,0,25,0,0\n51,0,25,100,100\n51,0,25,300,400\n51,0,25,1000,1000\n",
    );
    let (within, total) = proportion_from_lines(&station_lines, &pp_lines, 500).unwrap();
    assert_eq!((within, total), (75, 100));
    let bad_station = lines("name,lat,lon,x,y\nCentral,51,0,zero,0\n");
    let (file, err) = proportion_from_lines(&bad_station, &pp_lines, 500).unwrap_err();
    assert_eq!(file, InputFile::Stations);
    assert_eq!(err.line, 1);
    let bad_pp = lines("lat,lon,pop,x,y\n51,0,25,0\n");
    let (file, err) = proportion_from_lines(&station_lines, &bad_pp, 500).unwrap_err();
    assert_eq!(file, InputFile::Population);
    assert_eq!(err.kind, LoadErrorKind::TooFewFields);
}

#[test]
fn station_counts_per_point() {
    let stations = vec![(0, 0), (10, 20), (1100, 1100), (10000, 10000)];
    let idx = StationIndex::build(&stations);
    let points = vec![pp(0, 0, 25), pp(100, 100, 25), pp(300, 400, 25), pp(1000, 1000, 25)];
    let counts = count_n_stations(&idx, &points, 500);
    assert_eq!(counts, vec![2, 2, 2, 1]);
    let pairs = n_stations_within_dist(&idx, &points, 500);
    assert_eq!(pairs, vec![(25, 2), (25, 2), (25, 2), (25, 1)]);
}

#[test]
fn test_counts_equal() {
    let points = vec![pp(0, 0, 25)];
    let stations = vec![(0, 0)];
    let rows = calculate_matrix(&points, &stations);
    assert_eq!(rows, vec![MatrixRow { x: 0, y: 0, pop: 25, dist2: 0 }]);
}

#[test]
fn test_counts_at_100() {
    let points = vec![pp(100, 100, 25)];
    let stations = vec![(0, 0)];
    let rows = calculate_matrix(&points, &stations);
    assert_eq!(rows, vec![MatrixRow { x: 100, y: 100, pop: 25, dist2: 20000 }]);
}

#[test]
fn test_counts_at_500() {
    // 500 m from the station: a 300-400-500 triangle keeps the distance
    // exact in integers.
    let points = vec![pp(300, 400, 25)];
    let stations = vec![(0, 0)];
    let rows = calculate_matrix(&points, &stations);
    assert_eq!(rows, vec![MatrixRow { x: 300, y: 400, pop: 25, dist2: 250000 }]);
}

#[test]
fn test_counts_beyond_500() {
    let points = vec![pp(1000, 1000, 25)];
    let stations = vec![(0, 0)];
    let rows = calculate_matrix(&points, &stations);
    assert_eq!(rows, vec![MatrixRow { x: 1000, y: 1000, pop: 25, dist2: 2000000 }]);
}

#[test]
fn test_counts_combined_1_station() {
    let points = vec![pp(0, 0, 25), pp(100, 100, 25), pp(300, 400, 25), pp(1000, 1000, 25)];
    let stations = vec![(0, 0)];
    let rows = calculate_matrix(&points, &stations);
    let d2: Vec<i64> = rows.iter().map(|r| r.dist2).collect();
    assert_eq!(d2, vec![0, 20000, 250000, 2000000]);
    assert!(rows.iter().all(|r| r.pop == 25));
}

#[test]
fn test_counts_combined_multiple_stations() {
    let points = vec![pp(0, 0, 25), pp(100, 100, 25), pp(300, 400, 25), pp(1000, 1000, 25)];
    let stations = vec![(0, 0), (10, 20), (1100, 1100), (10000, 10000)];
    let rows = calculate_matrix(&points, &stations);
    assert_eq!(rows.len(), 16);
    let d2: Vec<i64> = rows.iter().map(|r| r.dist2).collect();
    assert_eq!(
        d2,
        vec![
            0, 500, 2420000, 200000000, // point (0, 0)
            20000, 14500, 2000000, 196020000, // point (100, 100)
            250000, 228500, 1130000, 186250000, // point (300, 400)
            2000000, 1940500, 20000, 162000000, // point (1000, 1000)
        ]
    );
}

#[test]
fn matrix_file_pop_within() {
    let input = lines("pp_x,pp_y,pop,dist\n0,0,25,0\n100,100,25,20000\n300,400,25,250000\n1000,1000,25,2000000\n");
    assert_eq!(matrix_pop_within(&input, 250000).unwrap(), 75);
    assert_eq!(matrix_pop_within(&input, 249999).unwrap(), 50);
    assert_eq!(matrix_pop_within(&input, -1).unwrap(), 0);
}

#[test]
fn matrix_file_agrees_with_index_query() {
    // Write the matrix as CSV text, stream it back in small chunks, and
    // check the matrix pass gives the same mass as the index query.
    let stations = vec![(0, 0)];
    let points = vec![pp(0, 0, 25), pp(100, 100, 25), pp(300, 400, 25), pp(1000, 1000, 25)];
    let rows = calculate_matrix(&points, &stations);
    let mut text = String::from("pp_x,pp_y,pop,dist\n");
    for r in &rows {
        text.push_str(&format!("{},{},{},{}\n", r.x, r.y, r.pop, r.dist2));
    }
    let mut assembler = proximity::stream::LineAssembler::new();
    let mut assembled: Vec<Vec<u8>> = Vec::new();
    for chunk in text.as_bytes().chunks(7) {
        assembled.extend(assembler.push_chunk(&chunk.to_vec()));
    }
    if let Some(tail) = assembler.finish() {
        assembled.push(tail);
    }
    let from_matrix = matrix_pop_within(&assembled, 500 * 500).unwrap();
    let idx = StationIndex::build(&stations);
    let from_index = pop_within_dist(&idx, &points, 500);
    assert_eq!(from_matrix, from_index);
    assert_eq!(from_matrix, 75);
}

#[test]
fn matrix_file_bad_line_aborts() {
    let input = lines("pp_x,pp_y,pop,dist\n0,0,25,xyz\n");
    let err = matrix_pop_within(&input, 500).unwrap_err();
    assert_eq!(err.line, 1);
    assert_eq!(err.kind, LoadErrorKind::BadNumber);
    let input = lines("pp_x,pp_y,pop\n0,0,25\n");
    let err = matrix_pop_within(&input, 500).unwrap_err();
    assert_eq!(err.kind, LoadErrorKind::TooFewFields);
}

#[test]
fn check_matrix_finds_first_bad_row() {
    let good = lines("pp_x,pp_y,pop,dist\n0,0,25,0\n1,2,3,4\n");
    assert_eq!(check_matrix_csv(&good), None);
    let bad = lines("pp_x,pp_y,pop,dist\n0,0,25,0\n1,2,3\n4,5,6,7\n");
    assert_eq!(check_matrix_csv(&bad), Some(2));
    let bad_dist = lines("pp_x,pp_y,pop,dist\n0,0,25,oops\n");
    assert_eq!(check_matrix_csv(&bad_dist), Some(1));
}
