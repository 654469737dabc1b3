//! Schema resolution, record decoding, and the configured range tables.
use dpt::st::parse::{
    parse_config_store_ranges, parse_header, parse_record, Header, Record, STHeader,
    StoreRangeConfig,
};
use dpt::num::SCALE;
use dpt::{CsvReader, ErrorKind};

fn one_to_one_config() -> STHeader {
    STHeader {
        mid: "mid".to_string(),
        sid: "sid".to_string(),
        wid: "wid".to_string(),
        mname: "mname".to_string(),
        sname: "sname".to_string(),
        qt: "qt".to_string(),
        at: "at".to_string(),
        dt: "dt".to_string(),
    }
}

fn day_of(y: i32, m: u32, d: u32) -> i64 {
    chrono::Datelike::num_days_from_ce(&chrono::NaiveDate::from_ymd_opt(y, m, d).unwrap()) as i64
}

fn ranges_of(lists: [&[&str]; 11]) -> StoreRangeConfig {
    let v = |xs: &[&str]| xs.iter().map(|s| s.to_string()).collect::<Vec<String>>();
    StoreRangeConfig {
        jmj: v(lists[0]),
        tey: v(lists[1]),
        lkd: v(lists[2]),
        nws: v(lists[3]),
        son: v(lists[4]),
        jmj_local: v(lists[5]),
        tey_local: v(lists[6]),
        lkd_local: v(lists[7]),
        nws_local: v(lists[8]),
        son_local: v(lists[9]),
        dc_outer: v(lists[10]),
    }
}

#[test]
fn header_resolves_one_to_one() {
    let mut rdr = CsvReader::new();
    let h = parse_header("mid,sid,wid,mname,sname,qt,at,dt\n", &one_to_one_config(), &mut rdr)
        .unwrap();
    // column zero doubles as "unassigned", so `mid` stays at zero
    assert_eq!(h.mid, 0);
    assert_eq!(h.sid, 1);
    assert_eq!(h.wid, 2);
    assert_eq!(h.mname, 3);
    assert_eq!(h.sname, 4);
    assert_eq!(h.qt, 5);
    assert_eq!(h.at, 6);
    assert_eq!(h.dt, 7);
}

#[test]
fn header_first_match_wins() {
    let mut rdr = CsvReader::new();
    let h = parse_header("x,qt,qt,mid\n", &one_to_one_config(), &mut rdr).unwrap();
    assert_eq!(h.qt, 1);
    assert_eq!(h.mid, 3);
    assert_eq!(h.sid, 0);
}

#[test]
fn empty_header_is_a_config_error() {
    let mut rdr = CsvReader::new();
    let err = parse_header("", &one_to_one_config(), &mut rdr).unwrap_err();
    assert!(matches!(err.kind(), ErrorKind::Config(k) if k == "header"));
}

fn straight_header() -> Header {
    let mut rdr = CsvReader::new();
    parse_header("mid,sid,wid,mname,sname,qt,at,dt\n", &one_to_one_config(), &mut rdr).unwrap()
}

#[test]
fn record_decodes_typed_fields() {
    let mut rdr = CsvReader::new();
    let rec = parse_record("1,100,11751,A,S1,5,50.0,2021/01/10\n", straight_header(), &mut rdr)
        .unwrap()
        .unwrap();
    let expected = Record {
        mid: 1,
        sid: 100,
        wid: 11751,
        mname: "A".to_string(),
        sname: "S1".to_string(),
        qt: 5 * SCALE,
        at: 50 * SCALE,
        dt: Some(day_of(2021, 1, 10)),
    };
    assert_eq!(rec, expected);
}

#[test]
fn warehouse_id_is_trimmed() {
    let mut rdr = CsvReader::new();
    let rec = parse_record("1,100, 11751 ,A,S1,5,50.0,2021/01/10\n", straight_header(), &mut rdr)
        .unwrap()
        .unwrap();
    assert_eq!(rec.wid, 11751);
}

#[test]
fn short_row_is_the_sentinel() {
    let mut rdr = CsvReader::new();
    assert_eq!(parse_record("1,100,11751\n", straight_header(), &mut rdr).unwrap(), None);
}

#[test]
fn blank_material_id_is_the_sentinel() {
    let mut rdr = CsvReader::new();
    assert_eq!(
        parse_record(",100,11751,A,S1,5,50.0,2021/01/10\n", straight_header(), &mut rdr).unwrap(),
        None
    );
}

#[test]
fn malformed_typed_fields_fail() {
    let mut rdr = CsvReader::new();
    let err = parse_record("x,100,11751,A,S1,5,50.0,2021/01/10\n", straight_header(), &mut rdr)
        .unwrap_err();
    assert!(matches!(err.kind(), ErrorKind::FromStr(t, ty) if t == "x" && *ty == "u32"));
    let err = parse_record("1,100,11751,A,S1,nope,50.0,2021/01/10\n", straight_header(), &mut rdr)
        .unwrap_err();
    assert!(matches!(err.kind(), ErrorKind::FromStr(t, ty) if t == "nope" && *ty == "number"));
    let err = parse_record("1,100,11751,A,S1,5,50.0,2021-01-10\n", straight_header(), &mut rdr)
        .unwrap_err();
    assert!(matches!(err.kind(), ErrorKind::FromStr(t, ty) if t == "2021-01-10" && *ty == "date"));
}

#[test]
fn range_entries_parse() {
    let cfg = ranges_of([
        &["10-20", "35"],
        &[],
        &[],
        &[],
        &[],
        &["100-200"],
        &[],
        &[],
        &[],
        &[],
        &["900"],
    ]);
    let sr = parse_config_store_ranges(&cfg).unwrap();
    assert!(sr.jmj.contains(10));
    assert!(sr.jmj.contains(20));
    assert!(sr.jmj.contains(35));
    assert!(!sr.jmj.contains(21));
    assert!(sr.jmj_local.contains(150));
    assert!(sr.dc_outer.contains(900));
    assert!(!sr.dc_outer.contains(901));
}

#[test]
fn range_after_second_dash_is_ignored() {
    let cfg = ranges_of([&["1-2-9"], &[], &[], &[], &[], &[], &[], &[], &[], &[], &[]]);
    let sr = parse_config_store_ranges(&cfg).unwrap();
    assert!(sr.jmj.contains(1));
    assert!(sr.jmj.contains(2));
    assert!(!sr.jmj.contains(9));
}

#[test]
fn malformed_range_fails() {
    let cfg = ranges_of([&["x"], &[], &[], &[], &[], &[], &[], &[], &[], &[], &[]]);
    let err = parse_config_store_ranges(&cfg).unwrap_err();
    assert!(matches!(err.kind(), ErrorKind::FromStr(t, ty) if t == "x" && *ty == "usize"));
    let cfg = ranges_of([&["1-y"], &[], &[], &[], &[], &[], &[], &[], &[], &[], &[]]);
    let err = parse_config_store_ranges(&cfg).unwrap_err();
    assert!(matches!(err.kind(), ErrorKind::FromStr(t, ty) if t == "y" && *ty == "usize"));
}
