//! The streaming aggregator end to end: the literal scenario, the sentinel,
//! strict and lenient modes, zero-quantity exclusion, and idempotence.
use dpt::convert::EncodeType;
use dpt::num::SCALE;
use dpt::st::aggregate::{aggregate, aggregate_lines, BMap, BrandType, MMap, SMap, StoreLoc, StoreType};
use dpt::st::parse::{STHeader, StoreRangeConfig};
use dpt::{CsvReader, ErrorKind};

fn one_to_one_config() -> STHeader {
    STHeader {
        mid: "mid".to_string(),
        sid: "sid".to_string(),
        wid: "wid".to_string(),
        mname: "mname".to_string(),
        sname: "sname".to_string(),
        qt: "qt".to_string(),
        at: "at".to_string(),
        dt: "dt".to_string(),
    }
}

/// Store ids 100 to 199 are local to the first brand; everything else is
/// unclassified.
fn jmj_local_ranges() -> StoreRangeConfig {
    StoreRangeConfig {
        jmj: vec![],
        tey: vec![],
        lkd: vec![],
        nws: vec![],
        son: vec![],
        jmj_local: vec!["100-199".to_string()],
        tey_local: vec![],
        lkd_local: vec![],
        nws_local: vec![],
        son_local: vec![],
        dc_outer: vec![],
    }
}

fn day_of(y: i32, m: u32, d: u32) -> i64 {
    chrono::Datelike::num_days_from_ce(&chrono::NaiveDate::from_ymd_opt(y, m, d).unwrap()) as i64
}

fn lines_of(rows: &[&str]) -> Vec<String> {
    rows.iter().map(|s| format!("{}\n", s)).collect()
}

fn run(rows: &[&str], strict: bool) -> Result<(MMap, SMap, BMap), dpt::Error> {
    let mut rdr = CsvReader::new();
    aggregate_lines(&lines_of(rows), &one_to_one_config(), &jmj_local_ranges(), &mut rdr, strict)
}

#[test]
fn literal_scenario() {
    let (mmap, smap, bmap) = run(
        &[
            "mid,sid,wid,mname,sname,qt,at,dt",
            "1,100,11751,A,S1,5,50.0,2021/01/10",
            "1,100,11751,A,S1,3,30.0,2021/01/12",
        ],
        true,
    )
    .unwrap();

    assert_eq!(mmap.len(), 1);
    let (mid, m) = &mmap[0];
    assert_eq!(*mid, 1);
    assert_eq!(m.mname, "A");
    assert_eq!(m.wid, 11751);
    assert_eq!(m.quantity.local_jmj, (8 * SCALE) as i128);
    assert_eq!(m.amount.local_jmj, (80 * SCALE) as i128);
    assert_eq!(m.req_times.local_jmj, 2);
    assert_eq!(m.store.local_jmj, 1);
    assert_eq!(m.first_req_date, Some(day_of(2021, 1, 10)));
    assert_eq!(m.last_req_date, Some(day_of(2021, 1, 12)));
    assert_eq!(m.max_req_quantity, (5 * SCALE) as i128);
    assert_eq!(m.min_req_quantity, (3 * SCALE) as i128);
    assert_eq!(m.max_req_date, Some(day_of(2021, 1, 10)));
    assert_eq!(m.min_req_date, Some(day_of(2021, 1, 12)));
    // the single two-day gap seeds both extremes
    assert_eq!(m.max_req_interval, 2);
    assert_eq!(m.min_req_interval, 2);

    assert_eq!(smap.len(), 1);
    let (sid, s) = &smap[0];
    assert_eq!(*sid, 100);
    assert_eq!(s.sname, "S1");
    assert_eq!(s.store_type, StoreType::Jmj);
    assert_eq!(s.store_loc, StoreLoc::Local);
    assert_eq!(s.sku_in_use, 1);
    assert_eq!(s.amount, (80 * SCALE) as i128);
    assert_eq!(s.first_req_date, Some(day_of(2021, 1, 10)));
    assert_eq!(s.last_req_date, Some(day_of(2021, 1, 12)));
    assert_eq!(s.max_req_amount, (50 * SCALE) as i128);
    assert_eq!(s.min_req_amount, (30 * SCALE) as i128);
    assert_eq!(s.max_req_interval, 2);
    assert_eq!(s.min_req_interval, 2);

    assert_eq!(bmap.len(), 1);
    let (bt, b) = &bmap[0];
    assert_eq!(*bt, BrandType::Jmj);
    assert_eq!(b.brand, BrandType::Jmj);
    assert_eq!(b.req_amount, (80 * SCALE) as i128);
    assert_eq!(b.req_amount_11751, (80 * SCALE) as i128);
    assert_eq!(b.req_amount_other, 0);
    assert_eq!(b.sku_in_use, 1);
    assert_eq!(b.sku_in_use_11751, 1);
    assert_eq!(b.sku_in_use_other, 0);
}

#[test]
fn zero_quantity_rows_leave_all_maps_empty() {
    let (mmap, smap, bmap) = run(
        &[
            "mid,sid,wid,mname,sname,qt,at,dt",
            "1,100,11751,A,S1,0,50.0,2021/01/10",
            "2,101,11752,B,S2,0.0,30.0,2021/01/12",
            "3,102,11753,C,S3,,10.0,2021/01/13",
        ],
        true,
    )
    .unwrap();
    assert!(mmap.is_empty());
    assert!(smap.is_empty());
    assert!(bmap.is_empty());
}

#[test]
fn sentinel_halts_without_error_or_change() {
    // a short row stops consumption; rows after it are never read, so even a
    // malformed trailing row cannot abort a strict run
    let with_tail = run(
        &[
            "mid,sid,wid,mname,sname,qt,at,dt",
            "1,100,11751,A,S1,5,50.0,2021/01/10",
            "short,row",
            "x,y,z,a,b,c,d,e",
        ],
        true,
    )
    .unwrap();
    let without_tail = run(
        &["mid,sid,wid,mname,sname,qt,at,dt", "1,100,11751,A,S1,5,50.0,2021/01/10"],
        true,
    )
    .unwrap();
    assert_eq!(with_tail, without_tail);
}

#[test]
fn blank_material_id_also_halts() {
    let with_tail = run(
        &[
            "mid,sid,wid,mname,sname,qt,at,dt",
            "1,100,11751,A,S1,5,50.0,2021/01/10",
            ",100,11751,A,S1,9,90.0,2021/01/11",
            "2,100,11751,B,S1,9,90.0,2021/01/11",
        ],
        true,
    )
    .unwrap();
    assert_eq!(with_tail.0.len(), 1);
    assert_eq!(with_tail.0[0].0, 1);
}

#[test]
fn strict_mode_aborts_with_the_line_number() {
    let err = run(
        &[
            "mid,sid,wid,mname,sname,qt,at,dt",
            "1,100,11751,A,S1,5,50.0,2021/01/10",
            "2,100,11751,B,S1,4,40.0,2021/01/11",
            "3,100,11751,C,S1,2,20.0,2021/01/12",
            "4,100,11751,D,S1,oops,10.0,2021/01/13",
            "5,100,11751,E,S1,1,10.0,2021/01/14",
        ],
        true,
    )
    .unwrap_err();
    match err.kind() {
        ErrorKind::MalformedData(msg, line) => {
            assert_eq!(*line, 5);
            assert_eq!(msg, "failed to parse `oops` as `number`");
        }
        other => panic!("unexpected error kind: {:?}", other),
    }
}

#[test]
fn lenient_mode_skips_only_the_bad_row() {
    let (mmap, _, _) = run(
        &[
            "mid,sid,wid,mname,sname,qt,at,dt",
            "1,100,11751,A,S1,5,50.0,2021/01/10",
            "2,100,11751,B,S1,4,40.0,2021/01/11",
            "3,100,11751,C,S1,2,20.0,2021/01/12",
            "4,100,11751,D,S1,oops,10.0,2021/01/13",
            "5,100,11751,E,S1,1,10.0,2021/01/14",
        ],
        false,
    )
    .unwrap();
    let ids: Vec<u32> = mmap.iter().map(|e| e.0).collect();
    assert_eq!(ids, vec![1, 2, 3, 5]);
}

#[test]
fn aggregating_twice_is_identical() {
    let rows = [
        "mid,sid,wid,mname,sname,qt,at,dt",
        "7,100,11759,A,S1,1.5,10.5,2021/03/01",
        "8,150,11795,B,S2,-2,20.0,2021/03/02",
        "7,150,12000,A,S2,4,\"1,234.5\",2021/03/09",
    ];
    let first = run(&rows, false).unwrap();
    let second = run(&rows, false).unwrap();
    assert_eq!(first, second);
}

#[test]
fn empty_input_is_a_config_error() {
    let err = run(&[], true).unwrap_err();
    assert!(matches!(err.kind(), ErrorKind::Config(k) if k == "header"));
}

#[test]
fn missing_date_is_malformed_in_strict_mode() {
    let mut cfg = one_to_one_config();
    cfg.dt = "nope".to_string();
    let mut rdr = CsvReader::new();
    let lines = lines_of(&[
        "mid,sid,wid,mname,sname,qt,at,dt",
        "1,100,11751,A,S1,5,50.0,2021/01/10",
    ]);
    let err = aggregate_lines(&lines, &cfg, &jmj_local_ranges(), &mut rdr, true).unwrap_err();
    assert!(matches!(err.kind(), ErrorKind::MalformedData(m, 2) if m == "missing date"));
    let ok = aggregate_lines(&lines, &cfg, &jmj_local_ranges(), &mut rdr, false).unwrap();
    assert!(ok.0.is_empty());
}

#[test]
fn byte_level_aggregation_decodes_utf8() {
    let rows = [
        "mid,sid,wid,mname,sname,qt,at,dt",
        "1,100,11751,物料甲,门店乙,5,50.0,2021/01/10",
    ];
    let blines: Vec<Vec<u8>> = rows.iter().map(|s| format!("{}\n", s).into_bytes()).collect();
    let mut rdr = CsvReader::new();
    let (mmap, smap, _) = aggregate(
        &blines,
        EncodeType::UTF8,
        &one_to_one_config(),
        &jmj_local_ranges(),
        &mut rdr,
        true,
    )
    .unwrap();
    assert_eq!(mmap[0].1.mname, "物料甲");
    assert_eq!(smap[0].1.sname, "门店乙");
}

#[test]
fn byte_level_aggregation_decodes_gbk() {
    let header = "mid,sid,wid,mname,sname,qt,at,dt\n";
    let row = "1,100,11751,物料甲,门店乙,5,50.0,2021/01/10\n";
    let encode = |s: &str| {
        encoding::types::Encoding::encode(
            encoding::all::GBK,
            s,
            encoding::types::EncoderTrap::Strict,
        )
        .unwrap()
    };
    let blines = vec![encode(header), encode(row)];
    // the GBK bytes are not the UTF-8 bytes of the same text
    assert_ne!(blines[1], row.as_bytes());
    let mut rdr = CsvReader::new();
    let (mmap, _, _) = aggregate(
        &blines,
        EncodeType::GBK,
        &one_to_one_config(),
        &jmj_local_ranges(),
        &mut rdr,
        true,
    )
    .unwrap();
    assert_eq!(mmap[0].1.mname, "物料甲");
}

#[test]
fn undecodable_bytes_abort_with_a_decode_error() {
    let blines = vec![
        "mid,sid,wid,mname,sname,qt,at,dt\n".as_bytes().to_vec(),
        vec![0xff, 0xfe, 0xfd, b'\n'],
    ];
    let mut rdr = CsvReader::new();
    let err = aggregate(
        &blines,
        EncodeType::UTF8,
        &one_to_one_config(),
        &jmj_local_ranges(),
        &mut rdr,
        false,
    )
    .unwrap_err();
    assert!(matches!(err.kind(), ErrorKind::Decode(_)));
}

#[test]
fn bytes_after_the_sentinel_are_never_decoded() {
    // decoding is lazy: a line of invalid bytes after the end-of-data
    // sentinel cannot abort the run
    let blines = vec![
        "mid,sid,wid,mname,sname,qt,at,dt\n".as_bytes().to_vec(),
        "1,100,11751,A,S1,5,50.0,2021/01/10\n".as_bytes().to_vec(),
        "short,row\n".as_bytes().to_vec(),
        vec![0xff, 0xfe, 0xfd, b'\n'],
    ];
    let mut rdr = CsvReader::new();
    let (mmap, _, _) = aggregate(
        &blines,
        EncodeType::UTF8,
        &one_to_one_config(),
        &jmj_local_ranges(),
        &mut rdr,
        true,
    )
    .unwrap();
    assert_eq!(mmap.len(), 1);
    assert_eq!(mmap[0].0, 1);
}
