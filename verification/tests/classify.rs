//! Store classification, brand derivation, and the report labels.
use dpt::st::aggregate::{get_store_type, BrandType, StoreLoc, StoreType};
use dpt::st::parse::{parse_config_store_ranges, StoreRange, StoreRangeConfig};

fn ranges_of(lists: [&[&str]; 11]) -> StoreRange {
    let v = |xs: &[&str]| xs.iter().map(|s| s.to_string()).collect::<Vec<String>>();
    parse_config_store_ranges(&StoreRangeConfig {
        jmj: v(lists[0]),
        tey: v(lists[1]),
        lkd: v(lists[2]),
        nws: v(lists[3]),
        son: v(lists[4]),
        jmj_local: v(lists[5]),
        tey_local: v(lists[6]),
        lkd_local: v(lists[7]),
        nws_local: v(lists[8]),
        son_local: v(lists[9]),
        dc_outer: v(lists[10]),
    })
    .unwrap()
}

#[test]
fn classifies_in_priority_order() {
    let sr = ranges_of([
        &["1000-1999"],   // jmj (outer)
        &["2000-2999"],   // tey (outer)
        &[],
        &[],
        &[],
        &["100-199"],     // jmj local
        &["100-299"],     // tey local overlaps jmj local
        &[],
        &[],
        &[],
        &["9000-9999"],   // outer warehouse
    ]);
    // local lists come before outer lists, in brand order
    assert_eq!(get_store_type(150, &sr), (StoreType::Jmj, StoreLoc::Local));
    assert_eq!(get_store_type(250, &sr), (StoreType::Tey, StoreLoc::Local));
    assert_eq!(get_store_type(1500, &sr), (StoreType::Jmj, StoreLoc::Outer));
    assert_eq!(get_store_type(2500, &sr), (StoreType::Tey, StoreLoc::Outer));
    assert_eq!(get_store_type(9001, &sr), (StoreType::Dc, StoreLoc::Outer));
    // outside every table: the default pair
    assert_eq!(get_store_type(42, &sr), (StoreType::Oth, StoreLoc::Unknown));
}

#[test]
fn default_pair_with_empty_tables() {
    let sr = ranges_of([&[], &[], &[], &[], &[], &[], &[], &[], &[], &[], &[]]);
    for sid in [0u32, 1, 77, u32::MAX] {
        assert_eq!(get_store_type(sid, &sr), (StoreType::Oth, StoreLoc::Unknown));
    }
}

#[test]
fn brand_derivation() {
    assert_eq!(BrandType::from((StoreType::Jmj, StoreLoc::Local)), BrandType::Jmj);
    assert_eq!(BrandType::from((StoreType::Tey, StoreLoc::Local)), BrandType::Tey);
    assert_eq!(BrandType::from((StoreType::Lkd, StoreLoc::Local)), BrandType::Lkd);
    assert_eq!(BrandType::from((StoreType::Son, StoreLoc::Local)), BrandType::Son);
    assert_eq!(BrandType::from((StoreType::Nws, StoreLoc::Local)), BrandType::Nws);
    assert_eq!(BrandType::from((StoreType::Dc, StoreLoc::Outer)), BrandType::Dc);
    assert_eq!(BrandType::from((StoreType::Jmj, StoreLoc::Outer)), BrandType::Os);
    assert_eq!(BrandType::from((StoreType::Nws, StoreLoc::Outer)), BrandType::Os);
    assert_eq!(BrandType::from((StoreType::Oth, StoreLoc::Outer)), BrandType::Os);
    assert_eq!(BrandType::from((StoreType::Oth, StoreLoc::Unknown)), BrandType::Oth);
    assert_eq!(BrandType::from((StoreType::Jmj, StoreLoc::Unknown)), BrandType::Oth);
    assert_eq!(BrandType::from((StoreType::Dc, StoreLoc::Local)), BrandType::Oth);
}

#[test]
fn report_labels() {
    assert_eq!(StoreType::Jmj.to_string(), "九毛九");
    assert_eq!(StoreType::Oth.to_string(), "其他");
    assert_eq!(StoreLoc::Local.to_string(), "广深");
    assert_eq!(StoreLoc::Unknown.to_string(), "未知");
    assert_eq!(BrandType::Os.to_string(), "外区门店");
    assert_eq!(BrandType::Dc.to_string(), "外区");
}
