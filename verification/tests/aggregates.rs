use proximity::index::StationIndex;
use proximity::loader::PopPoint;
use proximity::quadrants::{
    quadrant_coords, quadrant_thresholds, sweep_counts_with_outliers, sweep_station_counts,
    PointType,
};
use proximity::stats::{boxplot_outliers, quartile_scaled, sort_u64};

fn pp(x: i64, y: i64, pop: u64) -> PopPoint {
    PopPoint { x, y, pop }
}

#[test]
fn sort_orders_values() {
    let v = vec![5, 1, 4, 1, 3];
    assert_eq!(sort_u64(&v), vec![1, 1, 3, 4, 5]);
    assert_eq!(sort_u64(&Vec::new()), Vec::<u64>::new());
}

#[test]
fn quartiles_interpolate_linearly() {
    // R-7: rank m * (n - 1) / 4, linear interpolation, scaled by four.
    let s = sort_u64(&vec![1, 2, 3, 4]);
    assert_eq!(quartile_scaled(&s, 3), 13); // Q3 = 3.25
    assert_eq!(quartile_scaled(&s, 1), 7); // Q1 = 1.75
    assert_eq!(quartile_scaled(&s, 2), 10); // median = 2.5
    let single = sort_u64(&vec![42]);
    assert_eq!(quartile_scaled(&single, 3), 168);
    let five = sort_u64(&vec![10, 20, 30, 40, 50]);
    assert_eq!(quartile_scaled(&five, 3), 160); // Q3 = 40 exactly
}

#[test]
fn outliers_lie_outside_the_fences() {
    // Q1 = Q3 = 1, so anything but 1 is outside the fences.
    let v = vec![1, 1, 100, 1, 1];
    assert_eq!(boxplot_outliers(&v), vec![100]);
    // An evenly spread set has no outliers.
    let v = vec![10, 20, 30, 40, 50];
    assert_eq!(boxplot_outliers(&v), Vec::<u64>::new());
}

#[test]
fn quadrant_conditions_partition() {
    // For any metric pair, exactly one category condition holds.
    let cases = vec![(0u64, 0u64), (10, 0), (0, 10), (10, 10), (3, 7), (7, 3)];
    let pop_q3_x4 = 4 * 5;
    let ns_q3_x4 = 4 * 5;
    for (pop, ns) in cases {
        let hits = [PointType::Red, PointType::Orange, PointType::Blue, PointType::Green]
            .iter()
            .filter(|t| t.to_cond(pop, ns, pop_q3_x4, ns_q3_x4))
            .count();
        assert_eq!(hits, 1);
    }
}

#[test]
fn quadrant_condition_cases() {
    let pq = 4 * 10;
    let nq = 4 * 2;
    assert!(PointType::Red.to_cond(10, 3, pq, nq)); // at Q3 pop, many stations
    assert!(PointType::Orange.to_cond(11, 2, pq, nq)); // high pop, few stations
    assert!(PointType::Blue.to_cond(11, 3, pq, nq)); // high pop, many stations
    assert!(PointType::Green.to_cond(10, 2, pq, nq)); // neither above Q3
}

#[test]
fn quadrant_coords_scenario() {
    let stations = vec![(0, 0), (10, 20), (1100, 1100), (10000, 10000)];
    let idx = StationIndex::build(&stations);
    let points = vec![pp(0, 0, 10), pp(100, 100, 20), pp(300, 400, 30), pp(1000, 1000, 40)];
    // Counts within 500 are [2, 2, 2, 1].
    let (pop_q3, ns_q3) = quadrant_thresholds(&idx, &points, 500);
    // pops sorted [10,20,30,40]: Q3 = 32.5 -> x4 = 130.
    assert_eq!(pop_q3, 130);
    // counts sorted [1,2,2,2]: Q3 = 2 -> x4 = 8.
    assert_eq!(ns_q3, 8);
    // High population and few stations: only the heaviest point.
    let orange = quadrant_coords(&idx, &points, 500, PointType::Orange, pop_q3, ns_q3);
    assert_eq!(orange, vec![(1000, 1000)]);
    // Normal population, many stations: none, since counts never exceed Q3.
    let red = quadrant_coords(&idx, &points, 500, PointType::Red, pop_q3, ns_q3);
    assert_eq!(red, Vec::<(i64, i64)>::new());
    let green = quadrant_coords(&idx, &points, 500, PointType::Green, pop_q3, ns_q3);
    assert_eq!(green, vec![(0, 0), (100, 100), (300, 400)]);
    let blue = quadrant_coords(&idx, &points, 500, PointType::Blue, pop_q3, ns_q3);
    assert_eq!(blue, Vec::<(i64, i64)>::new());
}

#[test]
fn count_sweep_rows_in_threshold_order() {
    let stations = vec![(0, 0), (10, 20)];
    let idx = StationIndex::build(&stations);
    let points = vec![pp(0, 0, 1), pp(1000, 1000, 1)];
    let thresholds = vec![100, 2000];
    let rows = sweep_station_counts(&idx, &points, &thresholds);
    assert_eq!(rows.len(), 2);
    assert_eq!(rows[0], (100, vec![2, 0]));
    assert_eq!(rows[1], (2000, vec![2, 2]));
}

#[test]
fn count_sweep_with_outliers() {
    let stations = vec![(0, 0)];
    let idx = StationIndex::build(&stations);
    let points = vec![pp(0, 0, 1), pp(1, 0, 1), pp(2, 0, 1), pp(3, 0, 1), pp(1000, 1000, 1)];
    let rows = sweep_counts_with_outliers(&idx, &points, &vec![10]);
    assert_eq!(rows.len(), 1);
    let (t, counts, outliers) = &rows[0];
    assert_eq!(*t, 10);
    assert_eq!(counts, &vec![1, 1, 1, 1, 0]);
    // Counts sorted [0,1,1,1,1]: Q1 = Q3 = 1, so the 0 is an outlier.
    assert_eq!(outliers, &vec![0]);
}
