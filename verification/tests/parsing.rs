use proximity::loader::{
    load_population_points, load_stations, total_city_pop, LoadErrorKind, PopPoint,
};
use proximity::numbers::{parse_i64, parse_u64};
use proximity::records::parse_csv_line;
use proximity::stream::LineAssembler;

fn bytes(s: &str) -> Vec<u8> {
    s.as_bytes().to_vec()
}

fn lines(s: &str) -> Vec<Vec<u8>> {
    s.split('\n').map(|l| l.as_bytes().to_vec()).collect()
}

fn fields(line: &str) -> Vec<String> {
    parse_csv_line(&bytes(line))
        .into_iter()
        .map(|f| String::from_utf8(f).unwrap())
        .collect()
}

#[test]
fn parse_line_plain() {
    assert_eq!(fields("a,b,c"), vec!["a", "b", "c"]);
    assert_eq!(fields(""), vec![""]);
    assert_eq!(fields("a,,c"), vec!["a", "", "c"]);
    assert_eq!(fields(",x,"), vec!["", "x", ""]);
}

#[test]
fn parse_line_strips_one_quote_layer() {
    assert_eq!(fields("\"a\",\"b\""), vec!["a", "b"]);
    assert_eq!(fields("\"\"a\"\""), vec!["\"a\""]);
    assert_eq!(fields("\"\""), vec![""]);
    assert_eq!(fields("\""), vec![""]);
    // A trailing quote followed by a line feed is stripped with it.
    assert_eq!(fields("\"a\"\n"), vec!["a"]);
    // Malformed quoting passes through unmodified.
    assert_eq!(fields("a\"b"), vec!["a\"b"]);
}

#[test]
fn parse_line_round_trip() {
    let original = vec!["51.5781944444857", "-0.24125000000019298", "9.821008556019821"];
    let joined = original
        .iter()
        .map(|f| format!("\"{}\"", f))
        .collect::<Vec<_>>()
        .join(",");
    assert_eq!(fields(&joined), original);
}

#[test]
fn parse_u64_exact() {
    assert_eq!(parse_u64(&bytes("0")), Some(0));
    assert_eq!(parse_u64(&bytes("007")), Some(7));
    assert_eq!(parse_u64(&bytes("9079712")), Some(9_079_712));
    assert_eq!(parse_u64(&bytes("18446744073709551615")), Some(u64::MAX));
    assert_eq!(parse_u64(&bytes("18446744073709551616")), None);
    assert_eq!(parse_u64(&bytes("")), None);
    assert_eq!(parse_u64(&bytes("12a")), None);
    assert_eq!(parse_u64(&bytes("-3")), None);
    assert_eq!(parse_u64(&bytes("1.5")), None);
}

#[test]
fn parse_i64_exact() {
    assert_eq!(parse_i64(&bytes("0")), Some(0));
    assert_eq!(parse_i64(&bytes("-0")), Some(0));
    assert_eq!(parse_i64(&bytes("12345")), Some(12_345));
    assert_eq!(parse_i64(&bytes("-12345")), Some(-12_345));
    assert_eq!(parse_i64(&bytes("9223372036854775807")), Some(i64::MAX));
    assert_eq!(parse_i64(&bytes("9223372036854775808")), None);
    assert_eq!(parse_i64(&bytes("-9223372036854775808")), Some(i64::MIN));
    assert_eq!(parse_i64(&bytes("-9223372036854775809")), None);
    assert_eq!(parse_i64(&bytes("-")), None);
    assert_eq!(parse_i64(&bytes("")), None);
}

#[test]
fn load_stations_layout() {
    let input = lines("name,lat,lon,x,y\nAlpha,51,0,100,-200\nBeta,51,0,3000,4000\n");
    let stations = load_stations(&input).unwrap();
    assert_eq!(stations, vec![(100, -200), (3000, 4000)]);
}

#[test]
fn load_stations_skips_empty_lines() {
    let input = lines("name,lat,lon,x,y\n\nAlpha,51,0,7,8\n\n");
    let stations = load_stations(&input).unwrap();
    assert_eq!(stations, vec![(7, 8)]);
}

#[test]
fn load_stations_too_few_fields() {
    let input = lines("name,lat,lon,x,y\nAlpha,1,2\n");
    let err = load_stations(&input).unwrap_err();
    assert_eq!(err.line, 1);
    assert_eq!(err.kind, LoadErrorKind::TooFewFields);
}

#[test]
fn load_stations_bad_number() {
    let input = lines("name,lat,lon,x,y\nAlpha,51,0,abc,4\n");
    let err = load_stations(&input).unwrap_err();
    assert_eq!(err.line, 1);
    assert_eq!(err.kind, LoadErrorKind::BadNumber);
}

#[test]
fn load_stations_coordinate_out_of_range() {
    let input = lines("name,lat,lon,x,y\nAlpha,51,0,1000000000000,4\n");
    let err = load_stations(&input).unwrap_err();
    assert_eq!(err.kind, LoadErrorKind::BadNumber);
}

#[test]
fn load_population_layout() {
    let input = lines("lat,lon,pop,x,y\n51,0,25,10,20\n51,0,17,-30,40\n");
    let points = load_population_points(&input).unwrap();
    assert_eq!(
        points,
        vec![
            PopPoint { x: 10, y: 20, pop: 25 },
            PopPoint { x: -30, y: 40, pop: 17 },
        ]
    );
}

#[test]
fn load_population_reports_first_bad_line() {
    let input = lines("lat,lon,pop,x,y\n51,0,25,10,20\n51,0,bad,1,2\n51,0,3\n");
    let err = load_population_points(&input).unwrap_err();
    assert_eq!(err.line, 2);
    assert_eq!(err.kind, LoadErrorKind::BadNumber);
}

#[test]
fn total_population_sums_every_weight() {
    let input = lines("lat,lon,pop,x,y\n51,0,25,0,0\n51,0,25,100,100\n51,0,50,300,400\n");
    let points = load_population_points(&input).unwrap();
    assert_eq!(total_city_pop(&points), 100);
}

#[test]
fn streaming_reassembles_split_lines() {
    // A line cut exactly at the chunk boundary comes out whole.
    let mut assembler = LineAssembler::new();
    let first = assembler.push_chunk(&bytes("ab\nc"));
    assert_eq!(first, vec![bytes("ab")]);
    let second = assembler.push_chunk(&bytes("d\nef"));
    assert_eq!(second, vec![bytes("cd")]);
    let tail = assembler.finish();
    assert_eq!(tail, Some(bytes("ef")));
}

#[test]
fn streaming_final_fragment_absent_after_terminator() {
    let mut assembler = LineAssembler::new();
    let out = assembler.push_chunk(&bytes("one\ntwo\n"));
    assert_eq!(out, vec![bytes("one"), bytes("two")]);
    assert_eq!(assembler.finish(), None);
}

#[test]
fn streaming_empty_chunks_yield_nothing() {
    let mut assembler = LineAssembler::new();
    assert_eq!(assembler.push_chunk(&Vec::new()), Vec::<Vec<u8>>::new());
    assert_eq!(assembler.finish(), None);
}
