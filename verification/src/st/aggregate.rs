//! Store classification and the entity types of the three summary maps.
use vstd::prelude::*;

verus! {

use crate::error::{Error, ErrorKind, ErrorKindView};
use crate::st::parse::{
    in_ranges,
    parse_record,
    parse_record_spec,
    resolve_header,
    store_ranges_val,
    Header,
    Record,
    RecordView,
    RowResult,
    STHeader,
    StoreRange,
    StoreRangeConfig,
    StoreRangeView,
};
use crate::st::parse::parse_config_store_ranges;
use crate::st::parse::parse_header;
use crate::reader::{tokenize, views_of, CsvReader};
use crate::convert::{decode, decoded, EncodeType};
use vstd::string::StringExecFns;

/// The classified type of a store.
#[derive(Debug, Clone, Copy, PartialEq, Eq, Structural)]
pub enum StoreType {
    Jmj,
    Tey,
    Lkd,
    Son,
    Nws,
    Oth,
    Dc,
}

/// The classified location of a store.
#[derive(Debug, Clone, Copy, PartialEq, Eq, Structural)]
pub enum StoreLoc {
    Local,
    Outer,
    Unknown,
}

/// The brand a store belongs to, derived from its type and location.
#[derive(Debug, Clone, Copy, PartialEq, Eq, Hash, Structural)]
pub enum BrandType {
    Jmj,
    Tey,
    Lkd,
    Son,
    Nws,
    Os,
    Dc,
    Oth,
}

impl Default for StoreType {
    /// The unclassified store type.
    fn default() -> (r: StoreType)
        ensures
            r == StoreType::Oth,
    {
        StoreType::Oth
    }
}

impl Default for StoreLoc {
    /// The unclassified store location.
    fn default() -> (r: StoreLoc)
        ensures
            r == StoreLoc::Unknown,
    {
        StoreLoc::Unknown
    }
}

impl Default for BrandType {
    /// The catch-all brand.
    fn default() -> (r: BrandType)
        ensures
            r == BrandType::Oth,
    {
        BrandType::Oth
    }
}

/// The brand derived from a classified (type, location) pair: the five named
/// types paired with `Local` map one to one; any named type paired with
/// `Outer` collapses to `Os`, except `Dc` with `Outer`, which stays `Dc`;
/// everything else is `Oth`.
pub open spec fn brand_of(t: StoreType, l: StoreLoc) -> BrandType {
    match (t, l) {
        (StoreType::Jmj, StoreLoc::Local) => BrandType::Jmj,
        (StoreType::Tey, StoreLoc::Local) => BrandType::Tey,
        (StoreType::Lkd, StoreLoc::Local) => BrandType::Lkd,
        (StoreType::Son, StoreLoc::Local) => BrandType::Son,
        (StoreType::Nws, StoreLoc::Local) => BrandType::Nws,
        (StoreType::Dc, StoreLoc::Outer) => BrandType::Dc,
        (_, StoreLoc::Outer) => BrandType::Os,
        _ => BrandType::Oth,
    }
}

impl BrandType {
    /// The brand derived from a classified (type, location) pair, per
    /// [`brand_of`].
    pub fn from(src: (StoreType, StoreLoc)) -> (r: BrandType)
        ensures
            r == brand_of(src.0, src.1),
    {
        match src {
            (StoreType::Jmj, StoreLoc::Local) => BrandType::Jmj,
            (StoreType::Tey, StoreLoc::Local) => BrandType::Tey,
            (StoreType::Lkd, StoreLoc::Local) => BrandType::Lkd,
            (StoreType::Son, StoreLoc::Local) => BrandType::Son,
            (StoreType::Nws, StoreLoc::Local) => BrandType::Nws,
            (StoreType::Dc, StoreLoc::Outer) => BrandType::Dc,
            (_, StoreLoc::Outer) => BrandType::Os,
            _ => BrandType::Oth,
        }
    }
}

impl StoreType {
    /// The localized report label of this store type.
    pub fn to_string(self) -> (r: String)
        ensures
            r@ == store_type_label(self),
    {
        match self {
            StoreType::Jmj => "九毛九".to_owned(),
            StoreType::Tey => "太二".to_owned(),
            StoreType::Lkd => "两颗鸡蛋".to_owned(),
            StoreType::Son => "怂".to_owned(),
            StoreType::Nws => "那未大叔".to_owned(),
            StoreType::Dc => "外区".to_owned(),
            StoreType::Oth => "其他".to_owned(),
        }
    }
}

/// The localized report label of a store type.
pub open spec fn store_type_label(t: StoreType) -> Seq<char> {
    match t {
        StoreType::Jmj => ("九毛九")@,
        StoreType::Tey => ("太二")@,
        StoreType::Lkd => ("两颗鸡蛋")@,
        StoreType::Son => ("怂")@,
        StoreType::Nws => ("那未大叔")@,
        StoreType::Dc => ("外区")@,
        StoreType::Oth => ("其他")@,
    }
}

impl StoreLoc {
    /// The localized report label of this store location.
    pub fn to_string(self) -> (r: String)
        ensures
            r@ == store_loc_label(self),
    {
        match self {
            StoreLoc::Local => "广深".to_owned(),
            StoreLoc::Outer => "外区".to_owned(),
            StoreLoc::Unknown => "未知".to_owned(),
        }
    }
}

/// The localized report label of a store location.
pub open spec fn store_loc_label(l: StoreLoc) -> Seq<char> {
    match l {
        StoreLoc::Local => ("广深")@,
        StoreLoc::Outer => ("外区")@,
        StoreLoc::Unknown => ("未知")@,
    }
}

impl BrandType {
    /// The localized report label of this brand.
    pub fn to_string(self) -> (r: String)
        ensures
            r@ == brand_label(self),
    {
        match self {
            BrandType::Jmj => "九毛九".to_owned(),
            BrandType::Tey => "太二".to_owned(),
            BrandType::Lkd => "两颗鸡蛋".to_owned(),
            BrandType::Son => "怂".to_owned(),
            BrandType::Nws => "那未大叔".to_owned(),
            BrandType::Os => "外区门店".to_owned(),
            BrandType::Dc => "外区".to_owned(),
            BrandType::Oth => "其他".to_owned(),
        }
    }
}

/// The localized report label of a brand.
pub open spec fn brand_label(b: BrandType) -> Seq<char> {
    match b {
        BrandType::Jmj => ("九毛九")@,
        BrandType::Tey => ("太二")@,
        BrandType::Lkd => ("两颗鸡蛋")@,
        BrandType::Son => ("怂")@,
        BrandType::Nws => ("那未大叔")@,
        BrandType::Os => ("外区门店")@,
        BrandType::Dc => ("外区")@,
        BrandType::Oth => ("其他")@,
    }
}

/// What the classifier answers for a store id: the range tables are checked
/// in a fixed priority order — the five local lists, then the five outer
/// lists, then the outer-warehouse list — and the first hit wins; a store id
/// outside every table is `(Oth, Unknown)`.
pub open spec fn classify_spec(sid: u32, sr: StoreRangeView) -> (StoreType, StoreLoc) {
    if in_ranges(sr.jmj_local, sid as u64) {
        (StoreType::Jmj, StoreLoc::Local)
    } else if in_ranges(sr.tey_local, sid as u64) {
        (StoreType::Tey, StoreLoc::Local)
    } else if in_ranges(sr.lkd_local, sid as u64) {
        (StoreType::Lkd, StoreLoc::Local)
    } else if in_ranges(sr.son_local, sid as u64) {
        (StoreType::Son, StoreLoc::Local)
    } else if in_ranges(sr.nws_local, sid as u64) {
        (StoreType::Nws, StoreLoc::Local)
    } else if in_ranges(sr.jmj, sid as u64) {
        (StoreType::Jmj, StoreLoc::Outer)
    } else if in_ranges(sr.tey, sid as u64) {
        (StoreType::Tey, StoreLoc::Outer)
    } else if in_ranges(sr.lkd, sid as u64) {
        (StoreType::Lkd, StoreLoc::Outer)
    } else if in_ranges(sr.son, sid as u64) {
        (StoreType::Son, StoreLoc::Outer)
    } else if in_ranges(sr.nws, sid as u64) {
        (StoreType::Nws, StoreLoc::Outer)
    } else if in_ranges(sr.dc_outer, sid as u64) {
        (StoreType::Dc, StoreLoc::Outer)
    } else {
        (StoreType::Oth, StoreLoc::Unknown)
    }
}

/// Classifies a store id against the configured range tables.
pub fn get_store_type(sid: u32, ranges: &StoreRange) -> (r: (StoreType, StoreLoc))
    ensures
        r == classify_spec(sid, ranges@),
{
    let v = sid as u64;
    if ranges.jmj_local.contains(v) {
        (StoreType::Jmj, StoreLoc::Local)
    } else if ranges.tey_local.contains(v) {
        (StoreType::Tey, StoreLoc::Local)
    } else if ranges.lkd_local.contains(v) {
        (StoreType::Lkd, StoreLoc::Local)
    } else if ranges.son_local.contains(v) {
        (StoreType::Son, StoreLoc::Local)
    } else if ranges.nws_local.contains(v) {
        (StoreType::Nws, StoreLoc::Local)
    } else if ranges.jmj.contains(v) {
        (StoreType::Jmj, StoreLoc::Outer)
    } else if ranges.tey.contains(v) {
        (StoreType::Tey, StoreLoc::Outer)
    } else if ranges.lkd.contains(v) {
        (StoreType::Lkd, StoreLoc::Outer)
    } else if ranges.son.contains(v) {
        (StoreType::Son, StoreLoc::Outer)
    } else if ranges.nws.contains(v) {
        (StoreType::Nws, StoreLoc::Outer)
    } else if ranges.dc_outer.contains(v) {
        (StoreType::Dc, StoreLoc::Outer)
    } else {
        (StoreType::Oth, StoreLoc::Unknown)
    }
}

/// One of the eight aggregation buckets a classified store routes into.
#[derive(Debug, Clone, Copy, PartialEq, Eq, Structural)]
pub enum Bucket {
    LocalJmj,
    LocalTey,
    LocalLkd,
    LocalSon,
    LocalNws,
    OuterStore,
    OuterDc,
    Other,
}

/// The bucket a classified (type, location) pair routes into; pairs the
/// classifier never produces route nowhere.
pub open spec fn bucket_of(t: StoreType, l: StoreLoc) -> Option<Bucket> {
    match (t, l) {
        (StoreType::Jmj, StoreLoc::Local) => Some(Bucket::LocalJmj),
        (StoreType::Tey, StoreLoc::Local) => Some(Bucket::LocalTey),
        (StoreType::Lkd, StoreLoc::Local) => Some(Bucket::LocalLkd),
        (StoreType::Son, StoreLoc::Local) => Some(Bucket::LocalSon),
        (StoreType::Nws, StoreLoc::Local) => Some(Bucket::LocalNws),
        (StoreType::Jmj, StoreLoc::Outer) => Some(Bucket::OuterStore),
        (StoreType::Tey, StoreLoc::Outer) => Some(Bucket::OuterStore),
        (StoreType::Lkd, StoreLoc::Outer) => Some(Bucket::OuterStore),
        (StoreType::Son, StoreLoc::Outer) => Some(Bucket::OuterStore),
        (StoreType::Nws, StoreLoc::Outer) => Some(Bucket::OuterStore),
        (StoreType::Dc, StoreLoc::Outer) => Some(Bucket::OuterDc),
        (StoreType::Oth, StoreLoc::Unknown) => Some(Bucket::Other),
        _ => None,
    }
}

/// The bucket a classified (type, location) pair routes into.
pub fn bucket_for(t: StoreType, l: StoreLoc) -> (r: Option<Bucket>)
    ensures
        r == bucket_of(t, l),
{
    match (t, l) {
        (StoreType::Jmj, StoreLoc::Local) => Some(Bucket::LocalJmj),
        (StoreType::Tey, StoreLoc::Local) => Some(Bucket::LocalTey),
        (StoreType::Lkd, StoreLoc::Local) => Some(Bucket::LocalLkd),
        (StoreType::Son, StoreLoc::Local) => Some(Bucket::LocalSon),
        (StoreType::Nws, StoreLoc::Local) => Some(Bucket::LocalNws),
        (StoreType::Jmj, StoreLoc::Outer) => Some(Bucket::OuterStore),
        (StoreType::Tey, StoreLoc::Outer) => Some(Bucket::OuterStore),
        (StoreType::Lkd, StoreLoc::Outer) => Some(Bucket::OuterStore),
        (StoreType::Son, StoreLoc::Outer) => Some(Bucket::OuterStore),
        (StoreType::Nws, StoreLoc::Outer) => Some(Bucket::OuterStore),
        (StoreType::Dc, StoreLoc::Outer) => Some(Bucket::OuterDc),
        (StoreType::Oth, StoreLoc::Unknown) => Some(Bucket::Other),
        _ => None,
    }
}

/// The classifier is total: for every store id and every range table it
/// answers exactly one of the twelve classified pairs, and that pair always
/// routes into a bucket and derives a brand.
pub proof fn lemma_classifier_total(sid: u32, sr: StoreRangeView)
    ensures
        ({
            let (t, l) = classify_spec(sid, sr);
            &&& (l == StoreLoc::Local ==> (t == StoreType::Jmj || t == StoreType::Tey || t
                == StoreType::Lkd || t == StoreType::Son || t == StoreType::Nws))
            &&& (l == StoreLoc::Outer ==> (t == StoreType::Jmj || t == StoreType::Tey || t
                == StoreType::Lkd || t == StoreType::Son || t == StoreType::Nws || t
                == StoreType::Dc))
            &&& (l == StoreLoc::Unknown ==> t == StoreType::Oth)
            &&& bucket_of(t, l) is Some
        }),
{
}

/// Eight fixed-point accumulators, one per bucket, in millionths.
#[derive(Debug, Clone, Copy, PartialEq, Eq, Structural)]
pub struct FSlots {
    pub local_jmj: i128,
    pub local_tey: i128,
    pub local_lkd: i128,
    pub local_son: i128,
    pub local_nws: i128,
    pub outer_store: i128,
    pub outer_dc: i128,
    pub other: i128,
}

/// Eight counters, one per bucket.
#[derive(Debug, Clone, Copy, PartialEq, Eq, Structural)]
pub struct ISlots {
    pub local_jmj: u64,
    pub local_tey: u64,
    pub local_lkd: u64,
    pub local_son: u64,
    pub local_nws: u64,
    pub outer_store: u64,
    pub outer_dc: u64,
    pub other: u64,
}

/// All eight accumulators at zero.
pub open spec fn fslots_zero() -> FSlots {
    FSlots {
        local_jmj: 0,
        local_tey: 0,
        local_lkd: 0,
        local_son: 0,
        local_nws: 0,
        outer_store: 0,
        outer_dc: 0,
        other: 0,
    }
}

/// All eight counters at zero.
pub open spec fn islots_zero() -> ISlots {
    ISlots {
        local_jmj: 0,
        local_tey: 0,
        local_lkd: 0,
        local_son: 0,
        local_nws: 0,
        outer_store: 0,
        outer_dc: 0,
        other: 0,
    }
}

/// The accumulator of bucket `b`.
pub open spec fn fslot_get(f: FSlots, b: Bucket) -> i128 {
    match b {
        Bucket::LocalJmj => f.local_jmj,
        Bucket::LocalTey => f.local_tey,
        Bucket::LocalLkd => f.local_lkd,
        Bucket::LocalSon => f.local_son,
        Bucket::LocalNws => f.local_nws,
        Bucket::OuterStore => f.outer_store,
        Bucket::OuterDc => f.outer_dc,
        Bucket::Other => f.other,
    }
}

/// `f` with `v` added into bucket `b`.
pub open spec fn fslots_add(f: FSlots, b: Bucket, v: int) -> FSlots {
    match b {
        Bucket::LocalJmj => FSlots { local_jmj: (f.local_jmj + v) as i128, ..f },
        Bucket::LocalTey => FSlots { local_tey: (f.local_tey + v) as i128, ..f },
        Bucket::LocalLkd => FSlots { local_lkd: (f.local_lkd + v) as i128, ..f },
        Bucket::LocalSon => FSlots { local_son: (f.local_son + v) as i128, ..f },
        Bucket::LocalNws => FSlots { local_nws: (f.local_nws + v) as i128, ..f },
        Bucket::OuterStore => FSlots { outer_store: (f.outer_store + v) as i128, ..f },
        Bucket::OuterDc => FSlots { outer_dc: (f.outer_dc + v) as i128, ..f },
        Bucket::Other => FSlots { other: (f.other + v) as i128, ..f },
    }
}

/// The counter of bucket `b`.
pub open spec fn islot_get(s: ISlots, b: Bucket) -> u64 {
    match b {
        Bucket::LocalJmj => s.local_jmj,
        Bucket::LocalTey => s.local_tey,
        Bucket::LocalLkd => s.local_lkd,
        Bucket::LocalSon => s.local_son,
        Bucket::LocalNws => s.local_nws,
        Bucket::OuterStore => s.outer_store,
        Bucket::OuterDc => s.outer_dc,
        Bucket::Other => s.other,
    }
}

/// `s` with the counter of bucket `b` one higher.
pub open spec fn islots_bump(s: ISlots, b: Bucket) -> ISlots {
    match b {
        Bucket::LocalJmj => ISlots { local_jmj: (s.local_jmj + 1) as u64, ..s },
        Bucket::LocalTey => ISlots { local_tey: (s.local_tey + 1) as u64, ..s },
        Bucket::LocalLkd => ISlots { local_lkd: (s.local_lkd + 1) as u64, ..s },
        Bucket::LocalSon => ISlots { local_son: (s.local_son + 1) as u64, ..s },
        Bucket::LocalNws => ISlots { local_nws: (s.local_nws + 1) as u64, ..s },
        Bucket::OuterStore => ISlots { outer_store: (s.outer_store + 1) as u64, ..s },
        Bucket::OuterDc => ISlots { outer_dc: (s.outer_dc + 1) as u64, ..s },
        Bucket::Other => ISlots { other: (s.other + 1) as u64, ..s },
    }
}

/// A per-material summary entry. Quantities and amounts are fixed-point
/// decimals in millionths; dates are day numbers.
#[derive(Debug, Clone, PartialEq)]
pub struct Material {
    pub mid: u32,
    pub wid: u16,
    pub mname: String,
    pub store: ISlots,
    pub req_times: ISlots,
    pub quantity: FSlots,
    pub amount: FSlots,
    pub first_req_date: Option<i64>,
    pub last_req_date: Option<i64>,
    pub max_req_interval: u16,
    pub min_req_interval: u16,
    pub max_req_quantity: i128,
    pub min_req_quantity: i128,
    pub max_req_date: Option<i64>,
    pub min_req_date: Option<i64>,
}

/// The mathematical shape of a [`Material`].
pub struct MaterialView {
    pub mid: u32,
    pub wid: u16,
    pub mname: Seq<char>,
    pub store: ISlots,
    pub req_times: ISlots,
    pub quantity: FSlots,
    pub amount: FSlots,
    pub first_req_date: Option<i64>,
    pub last_req_date: Option<i64>,
    pub max_req_interval: u16,
    pub min_req_interval: u16,
    pub max_req_quantity: i128,
    pub min_req_quantity: i128,
    pub max_req_date: Option<i64>,
    pub min_req_date: Option<i64>,
}

impl View for Material {
    type V = MaterialView;

    open spec fn view(&self) -> MaterialView {
        MaterialView {
            mid: self.mid,
            wid: self.wid,
            mname: self.mname@,
            store: self.store,
            req_times: self.req_times,
            quantity: self.quantity,
            amount: self.amount,
            first_req_date: self.first_req_date,
            last_req_date: self.last_req_date,
            max_req_interval: self.max_req_interval,
            min_req_interval: self.min_req_interval,
            max_req_quantity: self.max_req_quantity,
            min_req_quantity: self.min_req_quantity,
            max_req_date: self.max_req_date,
            min_req_date: self.min_req_date,
        }
    }
}

/// A per-store summary entry.
#[derive(Debug, Clone, PartialEq)]
pub struct Store {
    pub sid: u32,
    pub sname: String,
    pub store_type: StoreType,
    pub store_loc: StoreLoc,
    pub sku_in_use: u64,
    pub amount: i128,
    pub first_req_date: Option<i64>,
    pub last_req_date: Option<i64>,
    pub max_req_interval: u16,
    pub min_req_interval: u16,
    pub max_req_amount: i128,
    pub min_req_amount: i128,
    pub max_req_date: Option<i64>,
    pub min_req_date: Option<i64>,
}

/// The mathematical shape of a [`Store`].
pub struct StoreView {
    pub sid: u32,
    pub sname: Seq<char>,
    pub store_type: StoreType,
    pub store_loc: StoreLoc,
    pub sku_in_use: u64,
    pub amount: i128,
    pub first_req_date: Option<i64>,
    pub last_req_date: Option<i64>,
    pub max_req_interval: u16,
    pub min_req_interval: u16,
    pub max_req_amount: i128,
    pub min_req_amount: i128,
    pub max_req_date: Option<i64>,
    pub min_req_date: Option<i64>,
}

impl View for Store {
    type V = StoreView;

    open spec fn view(&self) -> StoreView {
        StoreView {
            sid: self.sid,
            sname: self.sname@,
            store_type: self.store_type,
            store_loc: self.store_loc,
            sku_in_use: self.sku_in_use,
            amount: self.amount,
            first_req_date: self.first_req_date,
            last_req_date: self.last_req_date,
            max_req_interval: self.max_req_interval,
            min_req_interval: self.min_req_interval,
            max_req_amount: self.max_req_amount,
            min_req_amount: self.min_req_amount,
            max_req_date: self.max_req_date,
            min_req_date: self.min_req_date,
        }
    }
}

/// A per-brand summary entry: the requisition amount and the count of
/// distinct materials in use, each broken out by seven named warehouse ids
/// and a catch-all bucket.
#[derive(Debug, Clone, Copy, PartialEq, Eq, Structural)]
pub struct Brand {
    pub brand: BrandType,
    pub req_amount: i128,
    pub sku_in_use: u64,
    pub req_amount_11751: i128,
    pub req_amount_11752: i128,
    pub req_amount_11753: i128,
    pub req_amount_11754: i128,
    pub req_amount_11755: i128,
    pub req_amount_11759: i128,
    pub req_amount_11795: i128,
    pub req_amount_other: i128,
    pub sku_in_use_11751: u64,
    pub sku_in_use_11752: u64,
    pub sku_in_use_11753: u64,
    pub sku_in_use_11754: u64,
    pub sku_in_use_11755: u64,
    pub sku_in_use_11759: u64,
    pub sku_in_use_11795: u64,
    pub sku_in_use_other: u64,
}

/// A brand entry with every field at zero and the catch-all brand.
pub open spec fn blank_brand() -> Brand {
    Brand {
        brand: BrandType::Oth,
        req_amount: 0,
        sku_in_use: 0,
        req_amount_11751: 0,
        req_amount_11752: 0,
        req_amount_11753: 0,
        req_amount_11754: 0,
        req_amount_11755: 0,
        req_amount_11759: 0,
        req_amount_11795: 0,
        req_amount_other: 0,
        sku_in_use_11751: 0,
        sku_in_use_11752: 0,
        sku_in_use_11753: 0,
        sku_in_use_11754: 0,
        sku_in_use_11755: 0,
        sku_in_use_11759: 0,
        sku_in_use_11795: 0,
        sku_in_use_other: 0,
    }
}

/// `b` with `at` added to the total and to the warehouse bucket of `wid`.
pub open spec fn brand_add_amount(b: Brand, wid: u16, at: int) -> Brand {
    let b1 = Brand { req_amount: (b.req_amount + at) as i128, ..b };
    if wid == 11751 {
        Brand { req_amount_11751: (b1.req_amount_11751 + at) as i128, ..b1 }
    } else if wid == 11752 {
        Brand { req_amount_11752: (b1.req_amount_11752 + at) as i128, ..b1 }
    } else if wid == 11753 {
        Brand { req_amount_11753: (b1.req_amount_11753 + at) as i128, ..b1 }
    } else if wid == 11754 {
        Brand { req_amount_11754: (b1.req_amount_11754 + at) as i128, ..b1 }
    } else if wid == 11755 {
        Brand { req_amount_11755: (b1.req_amount_11755 + at) as i128, ..b1 }
    } else if wid == 11759 {
        Brand { req_amount_11759: (b1.req_amount_11759 + at) as i128, ..b1 }
    } else if wid == 11795 {
        Brand { req_amount_11795: (b1.req_amount_11795 + at) as i128, ..b1 }
    } else {
        Brand { req_amount_other: (b1.req_amount_other + at) as i128, ..b1 }
    }
}

/// `b` with the total material count and the warehouse bucket of `wid` one
/// higher.
pub open spec fn brand_bump_sku(b: Brand, wid: u16) -> Brand {
    let b1 = Brand { sku_in_use: (b.sku_in_use + 1) as u64, ..b };
    if wid == 11751 {
        Brand { sku_in_use_11751: (b1.sku_in_use_11751 + 1) as u64, ..b1 }
    } else if wid == 11752 {
        Brand { sku_in_use_11752: (b1.sku_in_use_11752 + 1) as u64, ..b1 }
    } else if wid == 11753 {
        Brand { sku_in_use_11753: (b1.sku_in_use_11753 + 1) as u64, ..b1 }
    } else if wid == 11754 {
        Brand { sku_in_use_11754: (b1.sku_in_use_11754 + 1) as u64, ..b1 }
    } else if wid == 11755 {
        Brand { sku_in_use_11755: (b1.sku_in_use_11755 + 1) as u64, ..b1 }
    } else if wid == 11759 {
        Brand { sku_in_use_11759: (b1.sku_in_use_11759 + 1) as u64, ..b1 }
    } else if wid == 11795 {
        Brand { sku_in_use_11795: (b1.sku_in_use_11795 + 1) as u64, ..b1 }
    } else {
        Brand { sku_in_use_other: (b1.sku_in_use_other + 1) as u64, ..b1 }
    }
}

/// The material entry created the first time a material id is seen: the
/// record's name and warehouse id win, and the record's date seeds the
/// first/last requisition dates.
pub open spec fn new_material(r: RecordView) -> MaterialView {
    MaterialView {
        mid: r.mid,
        wid: r.wid,
        mname: r.mname,
        store: islots_zero(),
        req_times: islots_zero(),
        quantity: fslots_zero(),
        amount: fslots_zero(),
        first_req_date: r.dt,
        last_req_date: r.dt,
        max_req_interval: 0,
        min_req_interval: 0,
        max_req_quantity: 0,
        min_req_quantity: 0,
        max_req_date: None,
        min_req_date: None,
    }
}

/// The store entry created the first time a store id is seen: the record's
/// name wins; everything else starts at zero.
pub open spec fn new_store(r: RecordView) -> StoreView {
    StoreView {
        sid: r.sid,
        sname: r.sname,
        store_type: StoreType::Oth,
        store_loc: StoreLoc::Unknown,
        sku_in_use: 0,
        amount: 0,
        first_req_date: None,
        last_req_date: None,
        max_req_interval: 0,
        min_req_interval: 0,
        max_req_amount: 0,
        min_req_amount: 0,
        max_req_date: None,
        min_req_date: None,
    }
}

/// A material entry with every field at zero.
pub open spec fn blank_material() -> MaterialView {
    MaterialView {
        mid: 0,
        wid: 0,
        mname: Seq::empty(),
        store: islots_zero(),
        req_times: islots_zero(),
        quantity: fslots_zero(),
        amount: fslots_zero(),
        first_req_date: None,
        last_req_date: None,
        max_req_interval: 0,
        min_req_interval: 0,
        max_req_quantity: 0,
        min_req_quantity: 0,
        max_req_date: None,
        min_req_date: None,
    }
}

impl Material {
    /// A material entry with every field at zero.
    pub fn new() -> (r: Material)
        ensures
            r@ == blank_material(),
    {
        Material {
            mid: 0,
            wid: 0,
            mname: String::new(),
            store: ISlots {
                local_jmj: 0,
                local_tey: 0,
                local_lkd: 0,
                local_son: 0,
                local_nws: 0,
                outer_store: 0,
                outer_dc: 0,
                other: 0,
            },
            req_times: ISlots {
                local_jmj: 0,
                local_tey: 0,
                local_lkd: 0,
                local_son: 0,
                local_nws: 0,
                outer_store: 0,
                outer_dc: 0,
                other: 0,
            },
            quantity: FSlots {
                local_jmj: 0,
                local_tey: 0,
                local_lkd: 0,
                local_son: 0,
                local_nws: 0,
                outer_store: 0,
                outer_dc: 0,
                other: 0,
            },
            amount: FSlots {
                local_jmj: 0,
                local_tey: 0,
                local_lkd: 0,
                local_son: 0,
                local_nws: 0,
                outer_store: 0,
                outer_dc: 0,
                other: 0,
            },
            first_req_date: None,
            last_req_date: None,
            max_req_interval: 0,
            min_req_interval: 0,
            max_req_quantity: 0,
            min_req_quantity: 0,
            max_req_date: None,
            min_req_date: None,
        }
    }
}

/// The per-material map: insertion-ordered entries with unique material ids.
pub type MMap = Vec<(u32, Material)>;

/// The per-store map: insertion-ordered entries with unique store ids.
pub type SMap = Vec<(u32, Store)>;

/// The per-brand map: insertion-ordered entries with unique brands.
pub type BMap = Vec<(BrandType, Brand)>;

/// The views of the entries of a per-material map.
pub open spec fn mview(s: Seq<(u32, Material)>) -> Seq<(u32, MaterialView)> {
    s.map_values(|p: (u32, Material)| (p.0, p.1@))
}

/// The views of the entries of a per-store map.
pub open spec fn sview(s: Seq<(u32, Store)>) -> Seq<(u32, StoreView)> {
    s.map_values(|p: (u32, Store)| (p.0, p.1@))
}

/// The views of the entries of a per-key day map.
pub open spec fn dview(s: Seq<(u32, Vec<(i64, i128)>)>) -> Seq<(u32, Seq<(i64, i128)>)> {
    s.map_values(|p: (u32, Vec<(i64, i128)>)| (p.0, p.1@))
}

/// The position of the first entry keyed `k`.
pub open spec fn find_key<V>(s: Seq<(u32, V)>, k: u32) -> Option<int>
    decreases s.len(),
{
    if s.len() == 0 {
        None
    } else if s[0].0 == k {
        Some(0)
    } else {
        match find_key(s.drop_first(), k) {
            None => None,
            Some(i) => Some(i + 1),
        }
    }
}

proof fn lemma_find_key_at<V>(s: Seq<(u32, V)>, k: u32, i: int)
    requires
        0 <= i < s.len(),
        s[i].0 == k,
        forall|j: int| #![trigger s[j]] 0 <= j < i ==> s[j].0 != k,
    ensures
        find_key(s, k) == Some(i),
    decreases i,
{
    if i > 0 {
        lemma_find_key_at(s.drop_first(), k, i - 1);
    }
}

proof fn lemma_find_key_none<V>(s: Seq<(u32, V)>, k: u32)
    requires
        forall|j: int| #![trigger s[j]] 0 <= j < s.len() ==> s[j].0 != k,
    ensures
        find_key(s, k) is None,
    decreases s.len(),
{
    if s.len() > 0 {
        lemma_find_key_none(s.drop_first(), k);
    }
}

/// Two entry sequences with the same keys in the same places find keys at
/// the same positions.
proof fn lemma_find_key_eq<V, W>(a: Seq<(u32, V)>, b: Seq<(u32, W)>, k: u32)
    requires
        a.len() == b.len(),
        forall|i: int| #![trigger a[i], b[i]] 0 <= i < a.len() ==> a[i].0 == b[i].0,
    ensures
        find_key(a, k) == find_key(b, k),
    decreases a.len(),
{
    if a.len() > 0 {
        assert(a[0].0 == b[0].0);
        lemma_find_key_eq(a.drop_first(), b.drop_first(), k);
    }
}

/// Finds the entry keyed `k`.
fn find_key_u32<V>(v: &Vec<(u32, V)>, k: u32) -> (r: Option<usize>)
    ensures
        match r {
            Some(i) => i < v@.len() && find_key(v@, k) == Some(i as int),
            None => find_key(v@, k) is None,
        },
{
    let n = v.len();
    let mut i: usize = 0;
    while i < n
        invariant
            n == v@.len(),
            i <= n,
            forall|j: int| #![trigger v@[j]] 0 <= j < i ==> v@[j].0 != k,
        decreases n - i,
    {
        if v[i].0 == k {
            proof {
                lemma_find_key_at(v@, k, i as int);
            }
            return Some(i);
        }
        i = i + 1;
    }
    proof {
        lemma_find_key_none(v@, k);
    }
    None
}

/// The position of the first entry keyed by brand `k`.
pub open spec fn find_brand<V>(s: Seq<(BrandType, V)>, k: BrandType) -> Option<int>
    decreases s.len(),
{
    if s.len() == 0 {
        None
    } else if s[0].0 == k {
        Some(0)
    } else {
        match find_brand(s.drop_first(), k) {
            None => None,
            Some(i) => Some(i + 1),
        }
    }
}

proof fn lemma_find_brand_at<V>(s: Seq<(BrandType, V)>, k: BrandType, i: int)
    requires
        0 <= i < s.len(),
        s[i].0 == k,
        forall|j: int| #![trigger s[j]] 0 <= j < i ==> s[j].0 != k,
    ensures
        find_brand(s, k) == Some(i),
    decreases i,
{
    if i > 0 {
        lemma_find_brand_at(s.drop_first(), k, i - 1);
    }
}

proof fn lemma_find_brand_none<V>(s: Seq<(BrandType, V)>, k: BrandType)
    requires
        forall|j: int| #![trigger s[j]] 0 <= j < s.len() ==> s[j].0 != k,
    ensures
        find_brand(s, k) is None,
    decreases s.len(),
{
    if s.len() > 0 {
        lemma_find_brand_none(s.drop_first(), k);
    }
}

/// Finds the entry keyed by brand `k`.
fn find_brand_key<V>(v: &Vec<(BrandType, V)>, k: BrandType) -> (r: Option<usize>)
    ensures
        match r {
            Some(i) => i < v@.len() && find_brand(v@, k) == Some(i as int),
            None => find_brand(v@, k) is None,
        },
{
    let n = v.len();
    let mut i: usize = 0;
    while i < n
        invariant
            n == v@.len(),
            i <= n,
            forall|j: int| #![trigger v@[j]] 0 <= j < i ==> v@[j].0 != k,
        decreases n - i,
    {
        if v[i].0 == k {
            proof {
                lemma_find_brand_at(v@, k, i as int);
            }
            return Some(i);
        }
        i = i + 1;
    }
    proof {
        lemma_find_brand_none(v@, k);
    }
    None
}

/// Whether the routing dedup set holds `(b, mid, sid)`.
pub open spec fn has_triple(s: Seq<(Bucket, u32, u32)>, b: Bucket, mid: u32, sid: u32) -> bool {
    exists|i: int| #![trigger s[i]] 0 <= i < s.len() && s[i] == (b, mid, sid)
}

/// Adds `(b, mid, sid)` to the routing dedup set; reports whether it was new.
fn note_triple(v: &mut Vec<(Bucket, u32, u32)>, b: Bucket, mid: u32, sid: u32) -> (added: bool)
    ensures
        added == !has_triple(old(v)@, b, mid, sid),
        final(v)@ == if added {
            old(v)@.push((b, mid, sid))
        } else {
            old(v)@
        },
{
    let n = v.len();
    let mut i: usize = 0;
    while i < n
        invariant
            n == v@.len(),
            *v == *old(v),
            i <= n,
            forall|j: int| #![trigger v@[j]] 0 <= j < i ==> v@[j] != (b, mid, sid),
        decreases n - i,
    {
        let e = v[i];
        if e.0 == b && e.1 == mid && e.2 == sid {
            return false;
        }
        i = i + 1;
    }
    v.push((b, mid, sid));
    true
}

/// Whether the dedup set of pairs holds `(a, b)`.
pub open spec fn has_pair(s: Seq<(u32, u32)>, a: u32, b: u32) -> bool {
    exists|i: int| #![trigger s[i]] 0 <= i < s.len() && s[i] == (a, b)
}

/// Adds `(a, b)` to the dedup set of pairs; reports whether it was new.
fn note_pair(v: &mut Vec<(u32, u32)>, a: u32, b: u32) -> (added: bool)
    ensures
        added == !has_pair(old(v)@, a, b),
        final(v)@ == if added {
            old(v)@.push((a, b))
        } else {
            old(v)@
        },
{
    let n = v.len();
    let mut i: usize = 0;
    while i < n
        invariant
            n == v@.len(),
            *v == *old(v),
            i <= n,
            forall|j: int| #![trigger v@[j]] 0 <= j < i ==> v@[j] != (a, b),
        decreases n - i,
    {
        let e = v[i];
        if e.0 == a && e.1 == b {
            return false;
        }
        i = i + 1;
    }
    v.push((a, b));
    true
}

/// Whether the brand dedup set holds `(mid, b)`.
pub open spec fn has_brand_pair(s: Seq<(u32, BrandType)>, mid: u32, b: BrandType) -> bool {
    exists|i: int| #![trigger s[i]] 0 <= i < s.len() && s[i] == (mid, b)
}

/// Adds `(mid, b)` to the brand dedup set; reports whether it was new.
fn note_brand_pair(v: &mut Vec<(u32, BrandType)>, mid: u32, b: BrandType) -> (added: bool)
    ensures
        added == !has_brand_pair(old(v)@, mid, b),
        final(v)@ == if added {
            old(v)@.push((mid, b))
        } else {
            old(v)@
        },
{
    let n = v.len();
    let mut i: usize = 0;
    while i < n
        invariant
            n == v@.len(),
            *v == *old(v),
            i <= n,
            forall|j: int| #![trigger v@[j]] 0 <= j < i ==> v@[j] != (mid, b),
        decreases n - i,
    {
        let e = v[i];
        if e.0 == mid && e.1 == b {
            return false;
        }
        i = i + 1;
    }
    v.push((mid, b));
    true
}

/// The largest magnitude an accumulator can reach: every accumulator is a
/// sum of at most `u64::MAX` addends, each of magnitude at most `2^63`.
pub open spec fn acc_limit() -> int {
    (0xffff_ffff_ffff_ffff as int) * (0x8000_0000_0000_0000 as int)
}

/// The accumulator cap in digits, and its room under `i128`.
proof fn lemma_acc_limit()
    ensures
        acc_limit() == 170141183460469231722463931679029329920,
        acc_limit() <= 0x7fff_ffff_ffff_ffff_ffff_ffff_ffff_ffff,
        acc_limit() == (0xffff_ffff_ffff_fffe as int) * (0x8000_0000_0000_0000 as int)
            + 0x8000_0000_0000_0000,
{
    assert(acc_limit() == 170141183460469231722463931679029329920) by (nonlinear_arith);
    assert((0xffff_ffff_ffff_fffe as int) * (0x8000_0000_0000_0000 as int) + 0x8000_0000_0000_0000
        == 170141183460469231722463931679029329920) by (nonlinear_arith);
}

/// A day map with `v` added to the sum of `day`, inserted in ascending day
/// order when the day is new.
pub open spec fn day_map_add(dm: Seq<(i64, i128)>, day: i64, v: i64) -> Seq<(i64, i128)>
    decreases dm.len(),
{
    if dm.len() == 0 {
        seq![(day, v as i128)]
    } else if dm[0].0 == day {
        seq![(day, (dm[0].1 + v) as i128)].add(dm.drop_first())
    } else if dm[0].0 > day {
        seq![(day, v as i128)].add(dm)
    } else {
        seq![dm[0]].add(day_map_add(dm.drop_first(), day, v))
    }
}

proof fn lemma_day_map_add_at(dm: Seq<(i64, i128)>, day: i64, v: i64, j: int)
    requires
        0 <= j <= dm.len(),
        forall|i: int| #![trigger dm[i]] 0 <= i < j ==> dm[i].0 < day,
        j < dm.len() ==> dm[j].0 >= day,
    ensures
        day_map_add(dm, day, v) == if j < dm.len() && dm[j].0 == day {
            dm.update(j, (day, (dm[j].1 + v) as i128))
        } else {
            dm.insert(j, (day, v as i128))
        },
    decreases j,
{
    if j == 0 {
        if 0 < dm.len() && dm[0].0 == day {
            assert(day_map_add(dm, day, v) =~= dm.update(0, (day, (dm[0].1 + v) as i128)));
        } else {
            assert(day_map_add(dm, day, v) =~= dm.insert(0, (day, v as i128)));
        }
    } else {
        lemma_day_map_add_at(dm.drop_first(), day, v, j - 1);
        if j < dm.len() && dm[j].0 == day {
            assert(dm.drop_first()[j - 1] == dm[j]);
            assert(seq![dm[0]].add(dm.drop_first().update(j - 1, (day, (dm[j].1 + v) as i128)))
                =~= dm.update(j, (day, (dm[j].1 + v) as i128)));
        } else {
            assert(seq![dm[0]].add(dm.drop_first().insert(j - 1, (day, v as i128))) =~= dm.insert(
                j,
                (day, v as i128),
            ));
        }
    }
}

/// The whole streaming state of one aggregation run, as mathematics: the
/// three summary maps, the three dedup sets, and the two per-date grouping
/// maps.
pub struct AggModel {
    pub mmap: Seq<(u32, MaterialView)>,
    pub smap: Seq<(u32, StoreView)>,
    pub bmap: Seq<(BrandType, Brand)>,
    pub slot_seen: Seq<(Bucket, u32, u32)>,
    pub brand_seen: Seq<(u32, BrandType)>,
    pub store_sku: Seq<(u32, u32)>,
    pub daily_qt: Seq<(u32, Seq<(i64, i128)>)>,
    pub store_daily: Seq<(u32, Seq<(i64, i128)>)>,
}

/// The state before any record has been folded in.
pub open spec fn empty_model() -> AggModel {
    AggModel {
        mmap: Seq::empty(),
        smap: Seq::empty(),
        bmap: Seq::empty(),
        slot_seen: Seq::empty(),
        brand_seen: Seq::empty(),
        store_sku: Seq::empty(),
        daily_qt: Seq::empty(),
        store_daily: Seq::empty(),
    }
}

/// The per-material map with an entry for the record's material id,
/// creating it lazily: the first-seen name and warehouse id win.
pub open spec fn mmap_with_entry(mm: Seq<(u32, MaterialView)>, r: RecordView) -> Seq<
    (u32, MaterialView),
> {
    if find_key(mm, r.mid) is Some {
        mm
    } else {
        mm.push((r.mid, new_material(r)))
    }
}

/// The per-store map with an entry for the record's store id, creating it
/// lazily: the first-seen name wins.
pub open spec fn smap_with_entry(sm: Seq<(u32, StoreView)>, r: RecordView) -> Seq<
    (u32, StoreView),
> {
    if find_key(sm, r.sid) is Some {
        sm
    } else {
        sm.push((r.sid, new_store(r)))
    }
}

/// The per-brand map with an entry for `bt`, created at zero when missing.
pub open spec fn bmap_with_entry(bm: Seq<(BrandType, Brand)>, bt: BrandType) -> Seq<
    (BrandType, Brand),
> {
    if find_brand(bm, bt) is Some {
        bm
    } else {
        bm.push((bt, blank_brand()))
    }
}

/// One record's effect on its material entry: quantity and amount go into
/// the routed bucket; the distinct-store and requisition-times counters of
/// that bucket rise when due.
pub open spec fn update_material(
    m: MaterialView,
    b: Bucket,
    qt: i64,
    at: i64,
    count_store: bool,
    count_req: bool,
) -> MaterialView {
    MaterialView {
        store: if count_store {
            islots_bump(m.store, b)
        } else {
            m.store
        },
        quantity: fslots_add(m.quantity, b, qt as int),
        amount: fslots_add(m.amount, b, at as int),
        req_times: if count_req {
            islots_bump(m.req_times, b)
        } else {
            m.req_times
        },
        ..m
    }
}

/// One record's effect on its store entry: the classification is written,
/// the amount joins the running total, and the distinct-material counter
/// rises when due.
pub open spec fn update_store(
    s: StoreView,
    ty: StoreType,
    loc: StoreLoc,
    at: i64,
    count_sku: bool,
) -> StoreView {
    StoreView {
        store_type: ty,
        store_loc: loc,
        amount: (s.amount + at) as i128,
        sku_in_use: if count_sku {
            (s.sku_in_use + 1) as u64
        } else {
            s.sku_in_use
        },
        ..s
    }
}

/// One record's effect on its brand entry.
pub open spec fn update_brand(b: Brand, bt: BrandType, wid: u16, at: i64, count_sku: bool) -> Brand {
    let b1 = Brand { brand: bt, ..b };
    let b2 = brand_add_amount(b1, wid, at as int);
    if count_sku {
        brand_bump_sku(b2, wid)
    } else {
        b2
    }
}

/// A per-key day map with `v` added under `key` and `day`.
pub open spec fn daily_with(dq: Seq<(u32, Seq<(i64, i128)>)>, key: u32, day: i64, v: i64) -> Seq<
    (u32, Seq<(i64, i128)>),
> {
    match find_key(dq, key) {
        None => dq.push((key, seq![(day, v as i128)])),
        Some(j) => dq.update(j, (dq[j].0, day_map_add(dq[j].1, day, v))),
    }
}

/// One qualifying record folded into the state: the lazily created material
/// and store entries, the routed bucket updates, the per-date grouping maps,
/// and the brand totals. A record whose classified pair routes nowhere only
/// creates the entries.
pub open spec fn step_record(m: AggModel, r: RecordView, day: i64, sr: StoreRangeView) -> AggModel {
    let mm1 = mmap_with_entry(m.mmap, r);
    let sm1 = smap_with_entry(m.smap, r);
    let tl = classify_spec(r.sid, sr);
    match bucket_of(tl.0, tl.1) {
        None => AggModel { mmap: mm1, smap: sm1, ..m },
        Some(b) => {
            let slot_new = r.qt > 0 && !has_triple(m.slot_seen, b, r.mid, r.sid);
            let slot1 = if slot_new {
                m.slot_seen.push((b, r.mid, r.sid))
            } else {
                m.slot_seen
            };
            let mi = find_key(mm1, r.mid)->0;
            let mat = update_material(mm1[mi].1, b, r.qt, r.at, slot_new, r.qt > 0);
            let mm2 = mm1.update(mi, (r.mid, mat));
            let dq1 = daily_with(m.daily_qt, r.mid, day, r.qt);
            let sku_new = !has_pair(m.store_sku, r.sid, r.mid);
            let sku1 = if sku_new {
                m.store_sku.push((r.sid, r.mid))
            } else {
                m.store_sku
            };
            let si = find_key(sm1, r.sid)->0;
            let st = update_store(sm1[si].1, tl.0, tl.1, r.at, sku_new);
            let sm2 = sm1.update(si, (r.sid, st));
            let sd1 = daily_with(m.store_daily, r.sid, day, r.at);
            let bt = brand_of(tl.0, tl.1);
            let bm1 = bmap_with_entry(m.bmap, bt);
            let brand_new = !has_brand_pair(m.brand_seen, r.mid, bt);
            let bs1 = if brand_new {
                m.brand_seen.push((r.mid, bt))
            } else {
                m.brand_seen
            };
            let bi = find_brand(bm1, bt)->0;
            let br = update_brand(bm1[bi].1, bt, r.wid, r.at, brand_new);
            let bm2 = bm1.update(bi, (bt, br));
            AggModel {
                mmap: mm2,
                smap: sm2,
                bmap: bm2,
                slot_seen: slot1,
                brand_seen: bs1,
                store_sku: sku1,
                daily_qt: dq1,
                store_daily: sd1,
            }
        },
    }
}

/// The largest magnitude of one parsed quantity or amount.
pub open spec fn max_cell() -> int {
    0x8000_0000_0000_0000 as int
}

/// All eight accumulators within `lim` in magnitude.
pub open spec fn fslots_ok(f: FSlots, lim: int) -> bool {
    &&& -lim <= f.local_jmj <= lim
    &&& -lim <= f.local_tey <= lim
    &&& -lim <= f.local_lkd <= lim
    &&& -lim <= f.local_son <= lim
    &&& -lim <= f.local_nws <= lim
    &&& -lim <= f.outer_store <= lim
    &&& -lim <= f.outer_dc <= lim
    &&& -lim <= f.other <= lim
}

/// All eight counters at most `k`.
pub open spec fn islots_ok(s: ISlots, k: int) -> bool {
    &&& s.local_jmj <= k
    &&& s.local_tey <= k
    &&& s.local_lkd <= k
    &&& s.local_son <= k
    &&& s.local_nws <= k
    &&& s.outer_store <= k
    &&& s.outer_dc <= k
    &&& s.other <= k
}

/// A material entry after at most `k` records.
pub open spec fn material_ok(m: MaterialView, k: int) -> bool {
    &&& fslots_ok(m.quantity, k * max_cell())
    &&& fslots_ok(m.amount, k * max_cell())
    &&& islots_ok(m.store, k)
    &&& islots_ok(m.req_times, k)
}

/// A store entry after at most `k` records.
pub open spec fn store_ok(s: StoreView, k: int) -> bool {
    &&& -(k * max_cell()) <= s.amount <= k * max_cell()
    &&& s.sku_in_use <= k
}

/// A brand entry after at most `k` records.
pub open spec fn brand_ok(b: Brand, k: int) -> bool {
    &&& -(k * max_cell()) <= b.req_amount <= k * max_cell()
    &&& -(k * max_cell()) <= b.req_amount_11751 <= k * max_cell()
    &&& -(k * max_cell()) <= b.req_amount_11752 <= k * max_cell()
    &&& -(k * max_cell()) <= b.req_amount_11753 <= k * max_cell()
    &&& -(k * max_cell()) <= b.req_amount_11754 <= k * max_cell()
    &&& -(k * max_cell()) <= b.req_amount_11755 <= k * max_cell()
    &&& -(k * max_cell()) <= b.req_amount_11759 <= k * max_cell()
    &&& -(k * max_cell()) <= b.req_amount_11795 <= k * max_cell()
    &&& -(k * max_cell()) <= b.req_amount_other <= k * max_cell()
    &&& b.sku_in_use <= k
    &&& b.sku_in_use_11751 <= k
    &&& b.sku_in_use_11752 <= k
    &&& b.sku_in_use_11753 <= k
    &&& b.sku_in_use_11754 <= k
    &&& b.sku_in_use_11755 <= k
    &&& b.sku_in_use_11759 <= k
    &&& b.sku_in_use_11795 <= k
    &&& b.sku_in_use_other <= k
}

/// Every daily sum within `k` addends' reach, every day a value an `i32`
/// holds.
pub open spec fn day_maps_ok(dq: Seq<(u32, Seq<(i64, i128)>)>, k: int) -> bool {
    forall|i: int, j: int|
        #![trigger dq[i].1[j]]
        0 <= i < dq.len() && 0 <= j < dq[i].1.len() ==> {
            &&& -(k * max_cell()) <= dq[i].1[j].1 <= k * max_cell()
            &&& -0x8000_0000 <= dq[i].1[j].0 <= 0x7fff_ffff
        }
}

/// The whole state after at most `k` records: every accumulator is a sum of
/// at most `k` parsed values, every counter counts at most `k` events.
pub open spec fn model_ok(m: AggModel, k: int) -> bool {
    &&& 0 <= k
    &&& forall|i: int| 0 <= i < m.mmap.len() ==> material_ok(#[trigger] m.mmap[i].1, k)
    &&& forall|i: int| 0 <= i < m.smap.len() ==> store_ok(#[trigger] m.smap[i].1, k)
    &&& forall|i: int| 0 <= i < m.bmap.len() ==> brand_ok(#[trigger] m.bmap[i].1, k)
    &&& day_maps_ok(m.daily_qt, k)
    &&& day_maps_ok(m.store_daily, k)
}

/// A bound that holds after `k` records also holds after more.
pub proof fn lemma_model_ok_mono(m: AggModel, k: int, k2: int)
    requires
        model_ok(m, k),
        k <= k2,
    ensures
        model_ok(m, k2),
{
    assert(k * max_cell() <= k2 * max_cell());
}

/// Adds `v` to the sum of `day` in a day map kept in ascending day order.
fn day_map_insert(dm: &mut Vec<(i64, i128)>, day: i64, v: i64)
    requires
        forall|j: int|
            #![trigger old(dm)@[j]]
            0 <= j < old(dm)@.len() ==> -(acc_limit() - max_cell()) <= old(dm)@[j].1 <= acc_limit()
                - max_cell(),
    ensures
        final(dm)@ == day_map_add(old(dm)@, day, v),
{
    proof {
        lemma_acc_limit();
    }
    let n = dm.len();
    let mut j: usize = 0;
    while j < n && dm[j].0 < day
        invariant
            n == dm@.len(),
            *dm == *old(dm),
            j <= n,
            forall|i: int| #![trigger dm@[i]] 0 <= i < j ==> dm@[i].0 < day,
        decreases n - j,
    {
        j = j + 1;
    }
    proof {
        lemma_day_map_add_at(dm@, day, v, j as int);
    }
    if j < n && dm[j].0 == day {
        let (d0, s0) = dm.remove(j);
        dm.insert(j, (d0, s0 + v as i128));
        proof {
            assert(old(dm)@.remove(j as int).insert(j as int, (day, (s0 + v) as i128))
                =~= old(dm)@.update(j as int, (day, (s0 + v) as i128)));
        }
    } else {
        dm.insert(j, (day, v as i128));
    }
}

proof fn lemma_find_key_props<V>(s: Seq<(u32, V)>, k: u32)
    ensures
        match find_key(s, k) {
            Some(i) => 0 <= i < s.len() && s[i].0 == k,
            None => forall|j: int| #![trigger s[j]] 0 <= j < s.len() ==> s[j].0 != k,
        },
    decreases s.len(),
{
    if s.len() > 0 {
        lemma_find_key_props(s.drop_first(), k);
        assert(forall|j: int| 1 <= j < s.len() ==> #[trigger] s[j] == s.drop_first()[j - 1]);
    }
}

proof fn lemma_find_brand_props<V>(s: Seq<(BrandType, V)>, k: BrandType)
    ensures
        match find_brand(s, k) {
            Some(i) => 0 <= i < s.len() && s[i].0 == k,
            None => forall|j: int| #![trigger s[j]] 0 <= j < s.len() ==> s[j].0 != k,
        },
    decreases s.len(),
{
    if s.len() > 0 {
        lemma_find_brand_props(s.drop_first(), k);
        assert(forall|j: int| 1 <= j < s.len() ==> #[trigger] s[j] == s.drop_first()[j - 1]);
    }
}

proof fn lemma_mview_push(s: Seq<(u32, Material)>, p: (u32, Material))
    ensures
        mview(s.push(p)) =~= mview(s).push((p.0, p.1@)),
{
}

proof fn lemma_mview_update(s: Seq<(u32, Material)>, i: int, p: (u32, Material))
    requires
        0 <= i < s.len(),
    ensures
        mview(s.update(i, p)) =~= mview(s).update(i, (p.0, p.1@)),
{
}

proof fn lemma_sview_push(s: Seq<(u32, Store)>, p: (u32, Store))
    ensures
        sview(s.push(p)) =~= sview(s).push((p.0, p.1@)),
{
}

proof fn lemma_sview_update(s: Seq<(u32, Store)>, i: int, p: (u32, Store))
    requires
        0 <= i < s.len(),
    ensures
        sview(s.update(i, p)) =~= sview(s).update(i, (p.0, p.1@)),
{
}

proof fn lemma_dview_push(s: Seq<(u32, Vec<(i64, i128)>)>, p: (u32, Vec<(i64, i128)>))
    ensures
        dview(s.push(p)) =~= dview(s).push((p.0, p.1@)),
{
}

proof fn lemma_dview_update(s: Seq<(u32, Vec<(i64, i128)>)>, i: int, p: (u32, Vec<(i64, i128)>))
    requires
        0 <= i < s.len(),
    ensures
        dview(s.update(i, p)) =~= dview(s).update(i, (p.0, p.1@)),
{
}

proof fn lemma_mview_keys(s: Seq<(u32, Material)>, k: u32)
    ensures
        find_key(mview(s), k) == find_key(s, k),
{
    assert forall|i: int| 0 <= i < s.len() implies #[trigger] mview(s)[i].0 == s[i].0 by {}
    lemma_find_key_eq(mview(s), s, k);
}

proof fn lemma_sview_keys(s: Seq<(u32, Store)>, k: u32)
    ensures
        find_key(sview(s), k) == find_key(s, k),
{
    assert forall|i: int| 0 <= i < s.len() implies #[trigger] sview(s)[i].0 == s[i].0 by {}
    lemma_find_key_eq(sview(s), s, k);
}

proof fn lemma_dview_keys(s: Seq<(u32, Vec<(i64, i128)>)>, k: u32)
    ensures
        find_key(dview(s), k) == find_key(s, k),
{
    assert forall|i: int| 0 <= i < s.len() implies #[trigger] dview(s)[i].0 == s[i].0 by {}
    lemma_find_key_eq(dview(s), s, k);
}

proof fn lemma_day_map_add_bounds(dm: Seq<(i64, i128)>, day: i64, v: i64, lim: int)
    requires
        0 <= lim,
        forall|j: int|
            #![trigger dm[j]]
            0 <= j < dm.len() ==> -lim <= dm[j].1 <= lim && -0x8000_0000 <= dm[j].0 <= 0x7fff_ffff,
        -0x8000_0000 <= day <= 0x7fff_ffff,
        lim + max_cell() <= acc_limit(),
    ensures
        forall|j: int|
            #![trigger day_map_add(dm, day, v)[j]]
            0 <= j < day_map_add(dm, day, v).len() ==> -(lim + max_cell()) <= day_map_add(
                dm,
                day,
                v,
            )[j].1 <= lim + max_cell() && -0x8000_0000 <= day_map_add(dm, day, v)[j].0
                <= 0x7fff_ffff,
    decreases dm.len(),
{
    lemma_acc_limit();
    let out = day_map_add(dm, day, v);
    if dm.len() == 0 {
        assert(out == seq![(day, v as i128)]);
        assert(out[0] == (day, v as i128));
    } else if dm[0].0 == day {
        assert(forall|j: int| 1 <= j < out.len() ==> #[trigger] out[j] == dm[j]);
        assert(out[0] == (day, (dm[0].1 + v) as i128));
        assert(-lim <= dm[0].1 <= lim);
    } else if dm[0].0 > day {
        assert(forall|j: int| 1 <= j < out.len() ==> #[trigger] out[j] == dm[j - 1]);
        assert(out[0] == (day, v as i128));
    } else {
        lemma_day_map_add_bounds(dm.drop_first(), day, v, lim);
        let rest = day_map_add(dm.drop_first(), day, v);
        assert(forall|j: int| 1 <= j < out.len() ==> #[trigger] out[j] == rest[j - 1]);
        assert(out[0] == dm[0]);
        assert(forall|j: int| #![trigger dm.drop_first()[j]] 0 <= j < dm.drop_first().len() ==> dm.drop_first()[j] == dm[j + 1]);
    }
}

/// `f` with `v` added into bucket `b`, executed.
fn fslots_plus(f: FSlots, b: Bucket, v: i64) -> (r: FSlots)
    requires
        -(acc_limit() - max_cell()) <= fslot_get(f, b) <= acc_limit() - max_cell(),
    ensures
        r == fslots_add(f, b, v as int),
{
    proof {
        lemma_acc_limit();
    }
    let w = v as i128;
    match b {
        Bucket::LocalJmj => FSlots { local_jmj: f.local_jmj + w, ..f },
        Bucket::LocalTey => FSlots { local_tey: f.local_tey + w, ..f },
        Bucket::LocalLkd => FSlots { local_lkd: f.local_lkd + w, ..f },
        Bucket::LocalSon => FSlots { local_son: f.local_son + w, ..f },
        Bucket::LocalNws => FSlots { local_nws: f.local_nws + w, ..f },
        Bucket::OuterStore => FSlots { outer_store: f.outer_store + w, ..f },
        Bucket::OuterDc => FSlots { outer_dc: f.outer_dc + w, ..f },
        Bucket::Other => FSlots { other: f.other + w, ..f },
    }
}

/// `s` with the counter of bucket `b` one higher, executed.
fn islots_plus_one(s: ISlots, b: Bucket) -> (r: ISlots)
    requires
        islot_get(s, b) < u64::MAX,
    ensures
        r == islots_bump(s, b),
{
    match b {
        Bucket::LocalJmj => ISlots { local_jmj: s.local_jmj + 1, ..s },
        Bucket::LocalTey => ISlots { local_tey: s.local_tey + 1, ..s },
        Bucket::LocalLkd => ISlots { local_lkd: s.local_lkd + 1, ..s },
        Bucket::LocalSon => ISlots { local_son: s.local_son + 1, ..s },
        Bucket::LocalNws => ISlots { local_nws: s.local_nws + 1, ..s },
        Bucket::OuterStore => ISlots { outer_store: s.outer_store + 1, ..s },
        Bucket::OuterDc => ISlots { outer_dc: s.outer_dc + 1, ..s },
        Bucket::Other => ISlots { other: s.other + 1, ..s },
    }
}

/// `b` with `at` added to the total and the warehouse bucket of `wid`,
/// executed.
fn brand_amount_plus(b: Brand, wid: u16, at: i64) -> (r: Brand)
    requires
        -(acc_limit() - max_cell()) <= b.req_amount <= acc_limit() - max_cell(),
        -(acc_limit() - max_cell()) <= b.req_amount_11751 <= acc_limit() - max_cell(),
        -(acc_limit() - max_cell()) <= b.req_amount_11752 <= acc_limit() - max_cell(),
        -(acc_limit() - max_cell()) <= b.req_amount_11753 <= acc_limit() - max_cell(),
        -(acc_limit() - max_cell()) <= b.req_amount_11754 <= acc_limit() - max_cell(),
        -(acc_limit() - max_cell()) <= b.req_amount_11755 <= acc_limit() - max_cell(),
        -(acc_limit() - max_cell()) <= b.req_amount_11759 <= acc_limit() - max_cell(),
        -(acc_limit() - max_cell()) <= b.req_amount_11795 <= acc_limit() - max_cell(),
        -(acc_limit() - max_cell()) <= b.req_amount_other <= acc_limit() - max_cell(),
    ensures
        r == brand_add_amount(b, wid, at as int),
{
    proof {
        lemma_acc_limit();
    }
    let w = at as i128;
    let b1 = Brand { req_amount: b.req_amount + w, ..b };
    if wid == 11751 {
        Brand { req_amount_11751: b1.req_amount_11751 + w, ..b1 }
    } else if wid == 11752 {
        Brand { req_amount_11752: b1.req_amount_11752 + w, ..b1 }
    } else if wid == 11753 {
        Brand { req_amount_11753: b1.req_amount_11753 + w, ..b1 }
    } else if wid == 11754 {
        Brand { req_amount_11754: b1.req_amount_11754 + w, ..b1 }
    } else if wid == 11755 {
        Brand { req_amount_11755: b1.req_amount_11755 + w, ..b1 }
    } else if wid == 11759 {
        Brand { req_amount_11759: b1.req_amount_11759 + w, ..b1 }
    } else if wid == 11795 {
        Brand { req_amount_11795: b1.req_amount_11795 + w, ..b1 }
    } else {
        Brand { req_amount_other: b1.req_amount_other + w, ..b1 }
    }
}

/// `b` with the material count and the warehouse bucket of `wid` one higher,
/// executed.
fn brand_sku_plus(b: Brand, wid: u16) -> (r: Brand)
    requires
        b.sku_in_use < u64::MAX,
        b.sku_in_use_11751 < u64::MAX,
        b.sku_in_use_11752 < u64::MAX,
        b.sku_in_use_11753 < u64::MAX,
        b.sku_in_use_11754 < u64::MAX,
        b.sku_in_use_11755 < u64::MAX,
        b.sku_in_use_11759 < u64::MAX,
        b.sku_in_use_11795 < u64::MAX,
        b.sku_in_use_other < u64::MAX,
    ensures
        r == brand_bump_sku(b, wid),
{
    let b1 = Brand { sku_in_use: b.sku_in_use + 1, ..b };
    if wid == 11751 {
        Brand { sku_in_use_11751: b1.sku_in_use_11751 + 1, ..b1 }
    } else if wid == 11752 {
        Brand { sku_in_use_11752: b1.sku_in_use_11752 + 1, ..b1 }
    } else if wid == 11753 {
        Brand { sku_in_use_11753: b1.sku_in_use_11753 + 1, ..b1 }
    } else if wid == 11754 {
        Brand { sku_in_use_11754: b1.sku_in_use_11754 + 1, ..b1 }
    } else if wid == 11755 {
        Brand { sku_in_use_11755: b1.sku_in_use_11755 + 1, ..b1 }
    } else if wid == 11759 {
        Brand { sku_in_use_11759: b1.sku_in_use_11759 + 1, ..b1 }
    } else if wid == 11795 {
        Brand { sku_in_use_11795: b1.sku_in_use_11795 + 1, ..b1 }
    } else {
        Brand { sku_in_use_other: b1.sku_in_use_other + 1, ..b1 }
    }
}

/// The lazily created material entry of one record, executed.
fn material_from(rec: &Record) -> (m: Material)
    ensures
        m@ == new_material(rec@),
{
    let mut m = Material::new();
    m.mid = rec.mid;
    m.wid = rec.wid;
    m.mname = rec.mname.clone();
    m.first_req_date = rec.dt;
    m.last_req_date = rec.dt;
    m
}

/// The lazily created store entry of one record, executed.
fn store_from(rec: &Record) -> (s: Store)
    ensures
        s@ == new_store(rec@),
{
    Store {
        sid: rec.sid,
        sname: rec.sname.clone(),
        store_type: StoreType::Oth,
        store_loc: StoreLoc::Unknown,
        sku_in_use: 0,
        amount: 0,
        first_req_date: None,
        last_req_date: None,
        max_req_interval: 0,
        min_req_interval: 0,
        max_req_amount: 0,
        min_req_amount: 0,
        max_req_date: None,
        min_req_date: None,
    }
}

/// A brand entry at zero, executed.
fn brand_blank() -> (b: Brand)
    ensures
        b == blank_brand(),
{
    Brand {
        brand: BrandType::Oth,
        req_amount: 0,
        sku_in_use: 0,
        req_amount_11751: 0,
        req_amount_11752: 0,
        req_amount_11753: 0,
        req_amount_11754: 0,
        req_amount_11755: 0,
        req_amount_11759: 0,
        req_amount_11795: 0,
        req_amount_other: 0,
        sku_in_use_11751: 0,
        sku_in_use_11752: 0,
        sku_in_use_11753: 0,
        sku_in_use_11754: 0,
        sku_in_use_11755: 0,
        sku_in_use_11759: 0,
        sku_in_use_11795: 0,
        sku_in_use_other: 0,
    }
}

/// The whole streaming state of one aggregation run.
pub struct AggState {
    pub mmap: MMap,
    pub smap: SMap,
    pub bmap: BMap,
    pub slot_seen: Vec<(Bucket, u32, u32)>,
    pub brand_seen: Vec<(u32, BrandType)>,
    pub store_sku: Vec<(u32, u32)>,
    pub daily_qt: Vec<(u32, Vec<(i64, i128)>)>,
    pub store_daily: Vec<(u32, Vec<(i64, i128)>)>,
}

impl View for AggState {
    type V = AggModel;

    open spec fn view(&self) -> AggModel {
        AggModel {
            mmap: mview(self.mmap@),
            smap: sview(self.smap@),
            bmap: self.bmap@,
            slot_seen: self.slot_seen@,
            brand_seen: self.brand_seen@,
            store_sku: self.store_sku@,
            daily_qt: dview(self.daily_qt@),
            store_daily: dview(self.store_daily@),
        }
    }
}

impl AggState {
    /// The state before any record has been folded in.
    fn new() -> (s: AggState)
        ensures
            s@ == empty_model(),
    {
        let s = AggState {
            mmap: Vec::new(),
            smap: Vec::new(),
            bmap: Vec::new(),
            slot_seen: Vec::new(),
            brand_seen: Vec::new(),
            store_sku: Vec::new(),
            daily_qt: Vec::new(),
            store_daily: Vec::new(),
        };
        proof {
            assert(mview(s.mmap@) =~= empty_model().mmap);
            assert(sview(s.smap@) =~= empty_model().smap);
            assert(dview(s.daily_qt@) =~= empty_model().daily_qt);
            assert(dview(s.store_daily@) =~= empty_model().store_daily);
        }
        s
    }
}

/// Ensures the material entry of the record exists and folds the record's
/// quantity, amount, and counters into its routed bucket.
#[verifier::rlimit(60)]
fn mat_phase(mmap: &mut MMap, rec: &Record, b: Bucket, slot_new: bool, qt_pos: bool, rows: Ghost<
    int,
>)
    requires
        forall|i: int|
            0 <= i < old(mmap)@.len() ==> material_ok(#[trigger] mview(old(mmap)@)[i].1, rows@),
        0 <= rows@ < 0xffff_ffff_ffff_ffff,
    ensures
        ({
            let mm1 = mmap_with_entry(mview(old(mmap)@), rec@);
            let mi = find_key(mm1, rec@.mid)->0;
            &&& find_key(mm1, rec@.mid) is Some
            &&& mview(final(mmap)@) == mm1.update(
                mi,
                (rec@.mid, update_material(mm1[mi].1, b, rec.qt, rec.at, slot_new, qt_pos)),
            )
        }),
        forall|i: int|
            0 <= i < final(mmap)@.len() ==> material_ok(
                #[trigger] mview(final(mmap)@)[i].1,
                rows@ + 1,
            ),
{
    proof {
        lemma_acc_limit();
    }
    let mid = rec.mid;
    let ghost mm0 = mview(old(mmap)@);
    let ghost mm1 = mmap_with_entry(mm0, rec@);
    let mi: usize = match find_key_u32(mmap, mid) {
        Some(i) => {
            proof {
                lemma_mview_keys(mmap@, mid);
            }
            i
        },
        None => {
            proof {
                lemma_mview_keys(mmap@, mid);
                lemma_find_key_props(mm0, mid);
            }
            let entry = material_from(rec);
            mmap.push((mid, entry));
            proof {
                lemma_mview_push(old(mmap)@, (mid, entry));
                lemma_find_key_at(mm1, mid, mm1.len() - 1);
            }
            mmap.len() - 1
        },
    };
    proof {
        assert(mview(mmap@) == mm1);
        assert(find_key(mm1, mid) == Some(mi as int));
        lemma_find_key_props(mm1, mid);
        assert(forall|i: int| 0 <= i < mm1.len() ==> material_ok(#[trigger] mm1[i].1, rows@)) by {
            lemma_find_key_props(mm0, mid);
        }
    }
    let ghost mm_before = mmap@;
    let (mk, mut mat) = mmap.remove(mi);
    proof {
        assert(mm1[mi as int] == (mk, mat@));
        assert(mk == mid);
        assert(material_ok(mat@, rows@));
    }
    mat.quantity = fslots_plus(mat.quantity, b, rec.qt);
    mat.amount = fslots_plus(mat.amount, b, rec.at);
    if slot_new {
        mat.store = islots_plus_one(mat.store, b);
    }
    if qt_pos {
        mat.req_times = islots_plus_one(mat.req_times, b);
    }
    mmap.insert(mi, (mid, mat));
    proof {
        assert(mmap@ =~= mm_before.update(mi as int, (mid, mat)));
        lemma_mview_update(mm_before, mi as int, (mid, mat));
        assert(mat@ == update_material(mm1[mi as int].1, b, rec.qt, rec.at, slot_new, qt_pos));
        assert(mview(mmap@) =~= mm1.update(mi as int, (rec@.mid, mat@)));
        assert(material_ok(mat@, rows@ + 1));
        assert(forall|i: int|
            0 <= i < mmap@.len() ==> material_ok(#[trigger] mview(mmap@)[i].1, rows@ + 1));
    }
}

/// Ensures the store entry of the record exists, writes its classification,
/// and folds the record's amount and material count into it.
#[verifier::rlimit(60)]
fn store_phase(
    smap: &mut SMap,
    rec: &Record,
    ty: StoreType,
    loc: StoreLoc,
    sku_new: bool,
    rows: Ghost<int>,
)
    requires
        forall|i: int|
            0 <= i < old(smap)@.len() ==> store_ok(#[trigger] sview(old(smap)@)[i].1, rows@),
        0 <= rows@ < 0xffff_ffff_ffff_ffff,
    ensures
        ({
            let sm1 = smap_with_entry(sview(old(smap)@), rec@);
            let si = find_key(sm1, rec@.sid)->0;
            &&& find_key(sm1, rec@.sid) is Some
            &&& sview(final(smap)@) == sm1.update(
                si,
                (rec@.sid, update_store(sm1[si].1, ty, loc, rec.at, sku_new)),
            )
        }),
        forall|i: int|
            0 <= i < final(smap)@.len() ==> store_ok(#[trigger] sview(final(smap)@)[i].1, rows@ + 1),
{
    proof {
        lemma_acc_limit();
    }
    let sid = rec.sid;
    let ghost sm0 = sview(old(smap)@);
    let ghost sm1 = smap_with_entry(sm0, rec@);
    let si: usize = match find_key_u32(smap, sid) {
        Some(i) => {
            proof {
                lemma_sview_keys(smap@, sid);
            }
            i
        },
        None => {
            proof {
                lemma_sview_keys(smap@, sid);
                lemma_find_key_props(sm0, sid);
            }
            let entry = store_from(rec);
            smap.push((sid, entry));
            proof {
                lemma_sview_push(old(smap)@, (sid, entry));
                lemma_find_key_at(sm1, sid, sm1.len() - 1);
            }
            smap.len() - 1
        },
    };
    proof {
        assert(sview(smap@) == sm1);
        assert(find_key(sm1, sid) == Some(si as int));
        lemma_find_key_props(sm1, sid);
        assert(forall|i: int| 0 <= i < sm1.len() ==> store_ok(#[trigger] sm1[i].1, rows@)) by {
            lemma_find_key_props(sm0, sid);
        }
    }
    let ghost sm_before = smap@;
    let (sk, mut st) = smap.remove(si);
    proof {
        assert(sm1[si as int] == (sk, st@));
        assert(sk == sid);
        assert(store_ok(st@, rows@));
    }
    st.store_type = ty;
    st.store_loc = loc;
    st.amount = st.amount + rec.at as i128;
    if sku_new {
        st.sku_in_use = st.sku_in_use + 1;
    }
    smap.insert(si, (sid, st));
    proof {
        assert(smap@ =~= sm_before.update(si as int, (sid, st)));
        lemma_sview_update(sm_before, si as int, (sid, st));
        assert(st@ == update_store(sm1[si as int].1, ty, loc, rec.at, sku_new));
        assert(sview(smap@) =~= sm1.update(si as int, (rec@.sid, st@)));
        assert(forall|i: int|
            0 <= i < smap@.len() ==> store_ok(#[trigger] sview(smap@)[i].1, rows@ + 1));
    }
}

/// Ensures the brand entry exists and folds the record's amount and
/// material count into its warehouse buckets.
#[verifier::rlimit(60)]
fn brand_phase(bmap: &mut BMap, bt: BrandType, wid: u16, at: i64, brand_new: bool, rows: Ghost<
    int,
>)
    requires
        forall|i: int| 0 <= i < old(bmap)@.len() ==> brand_ok(#[trigger] old(bmap)@[i].1, rows@),
        0 <= rows@ < 0xffff_ffff_ffff_ffff,
    ensures
        ({
            let bm1 = bmap_with_entry(old(bmap)@, bt);
            let bi = find_brand(bm1, bt)->0;
            &&& find_brand(bm1, bt) is Some
            &&& final(bmap)@ == bm1.update(
                bi,
                (bt, update_brand(bm1[bi].1, bt, wid, at, brand_new)),
            )
        }),
        forall|i: int|
            0 <= i < final(bmap)@.len() ==> brand_ok(#[trigger] final(bmap)@[i].1, rows@ + 1),
{
    proof {
        lemma_acc_limit();
    }
    let ghost bm0 = old(bmap)@;
    let ghost bm1 = bmap_with_entry(bm0, bt);
    let bi: usize = match find_brand_key(bmap, bt) {
        Some(i) => i,
        None => {
            proof {
                lemma_find_brand_props(bm0, bt);
            }
            bmap.push((bt, brand_blank()));
            proof {
                lemma_find_brand_at(bm1, bt, bm1.len() - 1);
            }
            bmap.len() - 1
        },
    };
    proof {
        assert(bmap@ == bm1);
        assert(find_brand(bm1, bt) == Some(bi as int));
        lemma_find_brand_props(bm1, bt);
        assert(forall|i: int| 0 <= i < bm1.len() ==> brand_ok(#[trigger] bm1[i].1, rows@)) by {
            lemma_find_brand_props(bm0, bt);
        }
    }
    let ghost bm_before = bmap@;
    let (bk, mut br) = bmap.remove(bi);
    proof {
        assert(bm1[bi as int] == (bk, br));
        assert(brand_ok(br, rows@));
    }
    br.brand = bt;
    br = brand_amount_plus(br, wid, at);
    if brand_new {
        br = brand_sku_plus(br, wid);
    }
    bmap.insert(bi, (bt, br));
    proof {
        assert(bmap@ =~= bm_before.update(bi as int, (bt, br)));
        assert(br == update_brand(bm1[bi as int].1, bt, wid, at, brand_new));
        assert(forall|i: int| 0 <= i < bmap@.len() ==> brand_ok(#[trigger] bmap@[i].1, rows@ + 1));
    }
}

/// Folds one value under `key` and `day` into a per-key day map.
#[verifier::rlimit(60)]
fn daily_phase(dq: &mut Vec<(u32, Vec<(i64, i128)>)>, key: u32, day: i64, v: i64, rows: Ghost<int>)
    requires
        day_maps_ok(dview(old(dq)@), rows@),
        0 <= rows@ < 0xffff_ffff_ffff_ffff,
        -0x8000_0000 <= day <= 0x7fff_ffff,
    ensures
        dview(final(dq)@) == daily_with(dview(old(dq)@), key, day, v),
        day_maps_ok(dview(final(dq)@), rows@ + 1),
{
    proof {
        lemma_acc_limit();
    }
    let ghost dq0 = dview(old(dq)@);
    let ghost dq1 = daily_with(dq0, key, day, v);
    match find_key_u32(dq, key) {
        Some(j) => {
            proof {
                lemma_dview_keys(dq@, key);
                lemma_find_key_props(dq0, key);
            }
            let ghost dq_before = dq@;
            let (dk, mut dmv) = dq.remove(j);
            proof {
                assert(dq0[j as int] == (dk, dmv@));
                assert(forall|i: int|
                    #![trigger dmv@[i]]
                    0 <= i < dmv@.len() ==> -(acc_limit() - max_cell()) <= dmv@[i].1 <= acc_limit()
                        - max_cell());
            }
            day_map_insert(&mut dmv, day, v);
            dq.insert(j, (dk, dmv));
            proof {
                assert(dq@ =~= dq_before.update(j as int, (dk, dmv)));
                lemma_dview_update(dq_before, j as int, (dk, dmv));
                assert(dview(dq@) =~= dq1);
                lemma_day_map_add_bounds(dq0[j as int].1, day, v, rows@ * max_cell());
                assert(day_maps_ok(dq1, rows@ + 1));
            }
        },
        None => {
            proof {
                lemma_dview_keys(dq@, key);
            }
            let ghost dq_before = dq@;
            let mut dmv: Vec<(i64, i128)> = Vec::new();
            day_map_insert(&mut dmv, day, v);
            dq.push((key, dmv));
            proof {
                lemma_dview_push(dq_before, (key, dmv));
                assert(dmv@ =~= seq![(day, v as i128)]);
                assert(dview(dq@) =~= dq1);
                assert(day_maps_ok(dq1, rows@ + 1));
            }
        },
    }
}

/// Folds one qualifying record (nonzero quantity, dated `day`) into the
/// state.
#[verifier::rlimit(80)]
fn apply_record(state: &mut AggState, rec: &Record, day: i64, ranges: &StoreRange, rows: Ghost<int>)
    requires
        model_ok(old(state)@, rows@),
        0 <= rows@ < 0xffff_ffff_ffff_ffff,
        -0x8000_0000 <= day <= 0x7fff_ffff,
    ensures
        final(state)@ == step_record(old(state)@, rec@, day, ranges@),
        model_ok(final(state)@, rows@ + 1),
{
    let ghost m0 = old(state)@;
    let mid = rec.mid;
    let sid = rec.sid;
    let tl = get_store_type(sid, ranges);
    let b = match bucket_for(tl.0, tl.1) {
        None => {
            // the pair routes nowhere: only the lazily created entries appear
            let ghost mm1 = mmap_with_entry(m0.mmap, rec@);
            match find_key_u32(&state.mmap, mid) {
                Some(_) => {
                    proof {
                        lemma_mview_keys(state.mmap@, mid);
                    }
                },
                None => {
                    proof {
                        lemma_mview_keys(state.mmap@, mid);
                    }
                    let entry = material_from(rec);
                    state.mmap.push((mid, entry));
                    proof {
                        lemma_mview_push(old(state).mmap@, (mid, entry));
                    }
                },
            }
            let ghost sm1 = smap_with_entry(m0.smap, rec@);
            match find_key_u32(&state.smap, sid) {
                Some(_) => {
                    proof {
                        lemma_sview_keys(state.smap@, sid);
                    }
                },
                None => {
                    proof {
                        lemma_sview_keys(state.smap@, sid);
                    }
                    let entry = store_from(rec);
                    state.smap.push((sid, entry));
                    proof {
                        lemma_sview_push(old(state).smap@, (sid, entry));
                    }
                },
            }
            proof {
                assert(mview(state.mmap@) == mm1);
                assert(sview(state.smap@) == sm1);
                lemma_model_ok_mono(m0, rows@, rows@ + 1);
                assert(forall|i: int|
                    0 <= i < mm1.len() ==> material_ok(#[trigger] mm1[i].1, rows@ + 1));
                assert(forall|i: int|
                    0 <= i < sm1.len() ==> store_ok(#[trigger] sm1[i].1, rows@ + 1));
            }
            return ;
        },
        Some(b) => b,
    };
    let qt_pos = rec.qt > 0;
    let slot_new = if qt_pos {
        note_triple(&mut state.slot_seen, b, mid, sid)
    } else {
        false
    };
    proof {
        assert forall|i: int| 0 <= i < mview(state.mmap@).len() implies material_ok(
            #[trigger] mview(state.mmap@)[i].1,
            rows@,
        ) by {
            assert(m0.mmap == mview(state.mmap@));
            assert(material_ok(m0.mmap[i].1, rows@));
        }
    }
    mat_phase(&mut state.mmap, rec, b, slot_new, qt_pos, rows);
    proof {
        assert(day_maps_ok(dview(state.daily_qt@), rows@));
    }
    daily_phase(&mut state.daily_qt, mid, day, rec.qt, rows);
    let sku_new = note_pair(&mut state.store_sku, sid, mid);
    proof {
        assert forall|i: int| 0 <= i < sview(state.smap@).len() implies store_ok(
            #[trigger] sview(state.smap@)[i].1,
            rows@,
        ) by {
            assert(m0.smap == sview(state.smap@));
            assert(store_ok(m0.smap[i].1, rows@));
        }
    }
    store_phase(&mut state.smap, rec, tl.0, tl.1, sku_new, rows);
    proof {
        assert(day_maps_ok(dview(state.store_daily@), rows@));
    }
    daily_phase(&mut state.store_daily, sid, day, rec.at, rows);
    let bt = BrandType::from((tl.0, tl.1));
    proof {
        assert forall|i: int| 0 <= i < state.bmap@.len() implies brand_ok(
            #[trigger] state.bmap@[i].1,
            rows@,
        ) by {
            assert(m0.bmap == state.bmap@);
            assert(brand_ok(m0.bmap[i].1, rows@));
        }
    }
    let brand_new = note_brand_pair(&mut state.brand_seen, mid, bt);
    brand_phase(&mut state.bmap, bt, rec.wid, rec.at, brand_new, rows);
    proof {
        let stepped = step_record(m0, rec@, day, ranges@);
        assert(state@.mmap == stepped.mmap);
        assert(state@.smap == stepped.smap);
        assert(state@.bmap == stepped.bmap);
        assert(state@.slot_seen == stepped.slot_seen);
        assert(state@.brand_seen == stepped.brand_seen);
        assert(state@.store_sku == stepped.store_sku);
        assert(state@.daily_qt == stepped.daily_qt);
        assert(state@.store_daily == stepped.store_daily);
        assert(state@ == stepped);
        assert(model_ok(state@, rows@ + 1));
    }
}

/// The message a row-level parse failure carries into a strict-mode error.
pub open spec fn row_error_text(e: ErrorKindView) -> Seq<char> {
    match e {
        ErrorKindView::FromStr(t, ty) => ("failed to parse `")@ + t + ("` as `")@ + ty + ("`")@,
        _ => Seq::empty(),
    }
}

/// Renders a row-level parse failure, per [`row_error_text`].
fn row_error_message(k: &ErrorKind) -> (r: String)
    ensures
        r@ == row_error_text(k@),
{
    match k {
        ErrorKind::FromStr(t, ty) => {
            let mut s = String::new();
            s.append("failed to parse `");
            s.append(t.as_str());
            s.append("` as `");
            s.append(ty);
            s.append("`");
            s
        },
        _ => String::new(),
    }
}

/// Where one stage-one fold stands: still consuming, stopped by the
/// end-of-data sentinel, or aborted by a strict-mode failure.
pub enum Stage1 {
    Going(AggModel),
    Stopped(AggModel),
    Failed(ErrorKindView),
}

/// One data line's effect: the sentinel stops the whole fold; a parse
/// failure aborts in strict mode and is skipped in lenient mode; a record
/// with zero quantity is skipped; a qualifying record without a date is
/// malformed; anything else steps the state.
pub open spec fn stage1_line(
    m: AggModel,
    line: Seq<char>,
    line_number: int,
    h: Header,
    sr: StoreRangeView,
    strict: bool,
    d: char,
    q: char,
) -> Stage1 {
    match parse_record_spec(line, h, d, q) {
        RowResult::Sentinel => Stage1::Stopped(m),
        RowResult::Fail(e) => if strict {
            Stage1::Failed(ErrorKindView::MalformedData(row_error_text(e), line_number))
        } else {
            Stage1::Going(m)
        },
        RowResult::Row(r) => if r.qt == 0 {
            Stage1::Going(m)
        } else {
            match r.dt {
                Some(day) => Stage1::Going(step_record(m, r, day, sr)),
                None => if strict {
                    Stage1::Failed(ErrorKindView::MalformedData(("missing date")@, line_number))
                } else {
                    Stage1::Going(m)
                },
            }
        },
    }
}

/// The state after consuming the first `n` lines (line 0 being the header).
pub open spec fn stage1_fold(
    lines: Seq<Seq<char>>,
    h: Header,
    sr: StoreRangeView,
    strict: bool,
    d: char,
    q: char,
    n: int,
) -> Stage1
    decreases n,
{
    if n <= 1 {
        Stage1::Going(empty_model())
    } else {
        match stage1_fold(lines, h, sr, strict, d, q, n - 1) {
            Stage1::Going(m) => stage1_line(m, lines[n - 1], n, h, sr, strict, d, q),
            other => other,
        }
    }
}

/// Once stopped or failed, the fold never moves again: later lines are
/// not consumed.
pub proof fn lemma_stage1_stops(
    lines: Seq<Seq<char>>,
    h: Header,
    sr: StoreRangeView,
    strict: bool,
    d: char,
    q: char,
    i: int,
    n: int,
)
    requires
        1 <= i <= n,
        !(stage1_fold(lines, h, sr, strict, d, q, i) is Going),
    ensures
        stage1_fold(lines, h, sr, strict, d, q, n) == stage1_fold(lines, h, sr, strict, d, q, i),
    decreases n - i,
{
    if i < n {
        lemma_stage1_stops(lines, h, sr, strict, d, q, i, n - 1);
    }
}

/// The temporal summary of one sorted per-date map: the first and last
/// days, the extreme daily values with their days, and the
/// adjacency-walk gap extremes.
#[derive(Debug, Clone, Copy, PartialEq, Eq, Structural)]
pub struct Extrema {
    pub first: i64,
    pub last: i64,
    pub max_v: i128,
    pub min_v: i128,
    pub max_d: i64,
    pub min_d: i64,
    pub max_gap: i64,
    pub min_gap: i64,
}

/// The walk over adjacent pairs, from position `j`: a later value strictly
/// above the running maximum (or below the minimum) replaces it together
/// with its day; each adjacent day gap replaces the maximum gap when it
/// strictly exceeds the gap just before it, and the minimum gap when it is
/// strictly below it — this is an adjacency walk, not a global extremum.
pub open spec fn gap_walk(dm: Seq<(i64, i128)>, j: int, acc: Extrema, gap_prev: i64) -> Extrema
    decreases dm.len() - j,
{
    if j < 1 || j >= dm.len() {
        acc
    } else {
        let d1 = dm[j - 1].0;
        let d2 = dm[j].0;
        let v2 = dm[j].1;
        let acc2 = if v2 > acc.max_v {
            Extrema { max_v: v2, max_d: d2, ..acc }
        } else if v2 < acc.min_v {
            Extrema { min_v: v2, min_d: d2, ..acc }
        } else {
            acc
        };
        let g = if d2 >= d1 {
            (d2 - d1) as i64
        } else {
            (d1 - d2) as i64
        };
        let acc3 = if gap_prev == 0 {
            Extrema { max_gap: g, min_gap: g, ..acc2 }
        } else if g > gap_prev {
            Extrema { max_gap: g, ..acc2 }
        } else if g < gap_prev {
            Extrema { min_gap: g, ..acc2 }
        } else {
            acc2
        };
        gap_walk(dm, j + 1, acc3, g)
    }
}

/// The temporal summary of one per-date map: seeded from the first pair,
/// then walked per [`gap_walk`].
pub open spec fn extrema_of(dm: Seq<(i64, i128)>) -> Extrema {
    if dm.len() == 0 {
        Extrema { first: 0, last: 0, max_v: 0, min_v: 0, max_d: 0, min_d: 0, max_gap: 0, min_gap: 0 }
    } else {
        let init = Extrema {
            first: dm[0].0,
            last: dm[dm.len() - 1].0,
            max_v: dm[0].1,
            min_v: dm[0].1,
            max_d: dm[0].0,
            min_d: dm[0].0,
            max_gap: 0,
            min_gap: 0,
        };
        gap_walk(dm, 1, init, 0)
    }
}

/// Computes the temporal summary of one non-empty per-date map.
pub fn finalize_daily(dm: &Vec<(i64, i128)>) -> (r: Extrema)
    requires
        dm@.len() > 0,
        forall|j: int| #![trigger dm@[j]] 0 <= j < dm@.len() ==> -0x8000_0000 <= dm@[j].0 <= 0x7fff_ffff,
    ensures
        r == extrema_of(dm@),
{
    let n = dm.len();
    let (d0, v0) = dm[0];
    let mut acc = Extrema {
        first: d0,
        last: dm[n - 1].0,
        max_v: v0,
        min_v: v0,
        max_d: d0,
        min_d: d0,
        max_gap: 0,
        min_gap: 0,
    };
    let mut gap_prev: i64 = 0;
    let mut j: usize = 1;
    while j < n
        invariant
            n == dm@.len(),
            n > 0,
            1 <= j <= n,
            forall|i: int| #![trigger dm@[i]] 0 <= i < n ==> -0x8000_0000 <= dm@[i].0 <= 0x7fff_ffff,
            extrema_of(dm@) == gap_walk(dm@, j as int, acc, gap_prev),
        decreases n - j,
    {
        let (d2, v2) = dm[j];
        let d1 = dm[j - 1].0;
        if v2 > acc.max_v {
            acc.max_v = v2;
            acc.max_d = d2;
        } else if v2 < acc.min_v {
            acc.min_v = v2;
            acc.min_d = d2;
        }
        let g: i64 = if d2 >= d1 {
            d2 - d1
        } else {
            d1 - d2
        };
        if gap_prev == 0 {
            acc.max_gap = g;
            acc.min_gap = g;
        } else if g > gap_prev {
            acc.max_gap = g;
        } else if g < gap_prev {
            acc.min_gap = g;
        }
        gap_prev = g;
        j = j + 1;
    }
    acc
}

/// An `i64` cut down to its low sixteen bits, as the `as u16` cast does.
pub open spec fn clip_u16(g: i64) -> u16 {
    (g % 0x10000) as u16
}

/// The gap extremes of a walk never go below zero.
proof fn lemma_gap_walk_nonneg(dm: Seq<(i64, i128)>, j: int, acc: Extrema, gap_prev: i64)
    requires
        acc.max_gap >= 0,
        acc.min_gap >= 0,
        forall|i: int| #![trigger dm[i]] 0 <= i < dm.len() ==> -0x8000_0000 <= dm[i].0 <= 0x7fff_ffff,
    ensures
        gap_walk(dm, j, acc, gap_prev).max_gap >= 0,
        gap_walk(dm, j, acc, gap_prev).min_gap >= 0,
    decreases dm.len() - j,
{
    if 1 <= j < dm.len() {
        let d1 = dm[j - 1].0;
        let d2 = dm[j].0;
        let v2 = dm[j].1;
        let acc2 = if v2 > acc.max_v {
            Extrema { max_v: v2, max_d: d2, ..acc }
        } else if v2 < acc.min_v {
            Extrema { min_v: v2, min_d: d2, ..acc }
        } else {
            acc
        };
        let g = if d2 >= d1 {
            (d2 - d1) as i64
        } else {
            (d1 - d2) as i64
        };
        let acc3 = if gap_prev == 0 {
            Extrema { max_gap: g, min_gap: g, ..acc2 }
        } else if g > gap_prev {
            Extrema { max_gap: g, ..acc2 }
        } else if g < gap_prev {
            Extrema { min_gap: g, ..acc2 }
        } else {
            acc2
        };
        assert(g >= 0);
        lemma_gap_walk_nonneg(dm, j + 1, acc3, g);
    }
}

/// The gap extremes of a temporal summary never go below zero, when every
/// day fits an `i32`.
proof fn lemma_extrema_gaps_nonneg(dm: Seq<(i64, i128)>)
    requires
        forall|j: int| #![trigger dm[j]] 0 <= j < dm.len() ==> -0x8000_0000 <= dm[j].0 <= 0x7fff_ffff,
    ensures
        extrema_of(dm).max_gap >= 0,
        extrema_of(dm).min_gap >= 0,
{
    if dm.len() > 0 {
        let init = Extrema {
            first: dm[0].0,
            last: dm[dm.len() - 1].0,
            max_v: dm[0].1,
            min_v: dm[0].1,
            max_d: dm[0].0,
            min_d: dm[0].0,
            max_gap: 0,
            min_gap: 0,
        };
        lemma_gap_walk_nonneg(dm, 1, init, 0);
    }
}

/// The finalized temporal fields of a material entry.
pub open spec fn apply_mat_extrema(m: MaterialView, e: Extrema) -> MaterialView {
    MaterialView {
        min_req_interval: clip_u16(e.min_gap),
        max_req_interval: clip_u16(e.max_gap),
        min_req_quantity: e.min_v,
        max_req_quantity: e.max_v,
        min_req_date: Some(e.min_d),
        max_req_date: Some(e.max_d),
        first_req_date: Some(e.first),
        last_req_date: Some(e.last),
        ..m
    }
}

/// The finalized temporal fields of a store entry.
pub open spec fn apply_store_extrema(s: StoreView, e: Extrema) -> StoreView {
    StoreView {
        min_req_interval: clip_u16(e.min_gap),
        max_req_interval: clip_u16(e.max_gap),
        min_req_amount: e.min_v,
        max_req_amount: e.max_v,
        min_req_date: Some(e.min_d),
        max_req_date: Some(e.max_d),
        first_req_date: Some(e.first),
        last_req_date: Some(e.last),
        ..s
    }
}

/// The material map after writing the temporal summaries of the first `n`
/// grouping entries; an entry with no days, or without a material, changes
/// nothing.
pub open spec fn stage2_mats(
    mm: Seq<(u32, MaterialView)>,
    dq: Seq<(u32, Seq<(i64, i128)>)>,
    n: int,
) -> Seq<(u32, MaterialView)>
    decreases n,
{
    if n <= 0 {
        mm
    } else {
        let mm1 = stage2_mats(mm, dq, n - 1);
        let key = dq[n - 1].0;
        let dmv = dq[n - 1].1;
        if dmv.len() == 0 {
            mm1
        } else {
            match find_key(mm1, key) {
                None => mm1,
                Some(j) => mm1.update(j, (key, apply_mat_extrema(mm1[j].1, extrema_of(dmv)))),
            }
        }
    }
}

/// The store map after writing the temporal summaries of the first `n`
/// grouping entries.
pub open spec fn stage2_stores(
    sm: Seq<(u32, StoreView)>,
    sd: Seq<(u32, Seq<(i64, i128)>)>,
    n: int,
) -> Seq<(u32, StoreView)>
    decreases n,
{
    if n <= 0 {
        sm
    } else {
        let sm1 = stage2_stores(sm, sd, n - 1);
        let key = sd[n - 1].0;
        let dmv = sd[n - 1].1;
        if dmv.len() == 0 {
            sm1
        } else {
            match find_key(sm1, key) {
                None => sm1,
                Some(j) => sm1.update(j, (key, apply_store_extrema(sm1[j].1, extrema_of(dmv)))),
            }
        }
    }
}

/// Every day in every grouping entry fits an `i32`.
pub open spec fn days_ok(dq: Seq<(u32, Seq<(i64, i128)>)>) -> bool {
    forall|i: int, j: int|
        #![trigger dq[i].1[j]]
        0 <= i < dq.len() && 0 <= j < dq[i].1.len() ==> -0x8000_0000 <= dq[i].1[j].0 <= 0x7fff_ffff
}

/// Writes the temporal summaries of the per-material grouping map into the
/// material map.
fn finalize_mats(mmap: &mut MMap, daily: &Vec<(u32, Vec<(i64, i128)>)>)
    requires
        days_ok(dview(daily@)),
    ensures
        mview(final(mmap)@) == stage2_mats(mview(old(mmap)@), dview(daily@), daily@.len() as int),
{
    let ghost mm0 = mview(old(mmap)@);
    let ghost dv = dview(daily@);
    let n = daily.len();
    let mut t: usize = 0;
    while t < n
        invariant
            n == daily@.len(),
            dv == dview(daily@),
            days_ok(dv),
            t <= n,
            mview(mmap@) == stage2_mats(mm0, dv, t as int),
        decreases n - t,
    {
        let key = daily[t].0;
        proof {
            assert(dv[t as int] == (daily@[t as int].0, daily@[t as int].1@));
        }
        if !daily[t].1.is_empty() {
            proof {
                assert forall|j: int|
                    #![trigger daily@[t as int].1@[j]]
                    0 <= j < daily@[t as int].1@.len() implies -0x8000_0000 <= daily@[t as int].1@[j].0
                    <= 0x7fff_ffff by {
                    assert(dv[t as int].1[j] == daily@[t as int].1@[j]);
                }
            }
            let e = finalize_daily(&daily[t].1);
            proof {
                lemma_extrema_gaps_nonneg(daily@[t as int].1@);
            }
            match find_key_u32(mmap, key) {
                Some(j) => {
                    proof {
                        lemma_mview_keys(mmap@, key);
                        lemma_find_key_props(mview(mmap@), key);
                    }
                    let ghost mm_before = mmap@;
                    let (mk, mut mat) = mmap.remove(j);
                    mat.min_req_interval = (e.min_gap % 0x10000) as u16;
                    mat.max_req_interval = (e.max_gap % 0x10000) as u16;
                    mat.min_req_quantity = e.min_v;
                    mat.max_req_quantity = e.max_v;
                    mat.min_req_date = Some(e.min_d);
                    mat.max_req_date = Some(e.max_d);
                    mat.first_req_date = Some(e.first);
                    mat.last_req_date = Some(e.last);
                    mmap.insert(j, (mk, mat));
                    proof {
                        assert(mmap@ =~= mm_before.update(j as int, (mk, mat)));
                        lemma_mview_update(mm_before, j as int, (mk, mat));
                        assert(mat@ == apply_mat_extrema(
                            stage2_mats(mm0, dv, t as int)[j as int].1,
                            extrema_of(dv[t as int].1),
                        ));
                        assert(mview(mmap@) =~= stage2_mats(mm0, dv, t + 1));
                    }
                },
                None => {
                    proof {
                        lemma_mview_keys(mmap@, key);
                    }
                },
            }
        }
        t = t + 1;
    }
}

/// Writes the temporal summaries of the per-store grouping map into the
/// store map.
fn finalize_stores(smap: &mut SMap, daily: &Vec<(u32, Vec<(i64, i128)>)>)
    requires
        days_ok(dview(daily@)),
    ensures
        sview(final(smap)@) == stage2_stores(sview(old(smap)@), dview(daily@), daily@.len() as int),
{
    let ghost sm0 = sview(old(smap)@);
    let ghost dv = dview(daily@);
    let n = daily.len();
    let mut t: usize = 0;
    while t < n
        invariant
            n == daily@.len(),
            dv == dview(daily@),
            days_ok(dv),
            t <= n,
            sview(smap@) == stage2_stores(sm0, dv, t as int),
        decreases n - t,
    {
        let key = daily[t].0;
        proof {
            assert(dv[t as int] == (daily@[t as int].0, daily@[t as int].1@));
        }
        if !daily[t].1.is_empty() {
            proof {
                assert forall|j: int|
                    #![trigger daily@[t as int].1@[j]]
                    0 <= j < daily@[t as int].1@.len() implies -0x8000_0000 <= daily@[t as int].1@[j].0
                    <= 0x7fff_ffff by {
                    assert(dv[t as int].1[j] == daily@[t as int].1@[j]);
                }
            }
            let e = finalize_daily(&daily[t].1);
            proof {
                lemma_extrema_gaps_nonneg(daily@[t as int].1@);
            }
            match find_key_u32(smap, key) {
                Some(j) => {
                    proof {
                        lemma_sview_keys(smap@, key);
                        lemma_find_key_props(sview(smap@), key);
                    }
                    let ghost sm_before = smap@;
                    let (sk, mut st) = smap.remove(j);
                    st.min_req_interval = (e.min_gap % 0x10000) as u16;
                    st.max_req_interval = (e.max_gap % 0x10000) as u16;
                    st.min_req_amount = e.min_v;
                    st.max_req_amount = e.max_v;
                    st.min_req_date = Some(e.min_d);
                    st.max_req_date = Some(e.max_d);
                    st.first_req_date = Some(e.first);
                    st.last_req_date = Some(e.last);
                    smap.insert(j, (sk, st));
                    proof {
                        assert(smap@ =~= sm_before.update(j as int, (sk, st)));
                        lemma_sview_update(sm_before, j as int, (sk, st));
                        assert(st@ == apply_store_extrema(
                            stage2_stores(sm0, dv, t as int)[j as int].1,
                            extrema_of(dv[t as int].1),
                        ));
                        assert(sview(smap@) =~= stage2_stores(sm0, dv, t + 1));
                    }
                },
                None => {
                    proof {
                        lemma_sview_keys(smap@, key);
                    }
                },
            }
        }
        t = t + 1;
    }
}

/// What aggregating decoded lines answers: the range tables are read first;
/// the first line resolves the schema; stage one folds the data rows until
/// the end or the sentinel, aborting in strict mode on the first malformed
/// row; stage two writes the temporal summaries; the three maps come back.
pub open spec fn aggregate_lines_spec(
    lines: Seq<Seq<char>>,
    cfg: STHeader,
    rcfg: StoreRangeConfig,
    strict: bool,
    d: char,
    q: char,
) -> Result<(Seq<(u32, MaterialView)>, Seq<(u32, StoreView)>, Seq<(BrandType, Brand)>), ErrorKindView> {
    match store_ranges_val(rcfg) {
        Err(e) => Err(e),
        Ok(sr) => if lines.len() == 0 {
            Err(ErrorKindView::Config(("header")@))
        } else {
            match tokenize(lines[0], d, q) {
                None => Err(ErrorKindView::Config(("header")@)),
                Some(fs) => {
                    let h = resolve_header(fs, cfg, fs.len() as int);
                    match stage1_fold(lines, h, sr, strict, d, q, lines.len() as int) {
                        Stage1::Failed(e) => Err(e),
                        Stage1::Going(m) => Ok(
                            (
                                stage2_mats(m.mmap, m.daily_qt, m.daily_qt.len() as int),
                                stage2_stores(m.smap, m.store_daily, m.store_daily.len() as int),
                                m.bmap,
                            ),
                        ),
                        Stage1::Stopped(m) => Ok(
                            (
                                stage2_mats(m.mmap, m.daily_qt, m.daily_qt.len() as int),
                                stage2_stores(m.smap, m.store_daily, m.store_daily.len() as int),
                                m.bmap,
                            ),
                        ),
                    }
                },
            }
        },
    }
}

/// Aggregates the decoded lines of one export (line 0 being the header)
/// into the three summary maps, per [`aggregate_lines_spec`].
#[verifier::rlimit(80)]
pub fn aggregate_lines(
    lines: &Vec<String>,
    config: &STHeader,
    ranges_config: &StoreRangeConfig,
    reader: &mut CsvReader,
    strict: bool,
) -> (r: Result<(MMap, SMap, BMap), Error>)
    ensures
        *final(reader) == *old(reader),
        ({
            let out = aggregate_lines_spec(
                views_of(lines@),
                *config,
                *ranges_config,
                strict,
                old(reader).options.delimiter,
                old(reader).options.text_enclosure,
            );
            match r {
                Ok(t) => out matches Ok(o) && mview(t.0@) == o.0 && sview(t.1@) == o.1 && t.2@
                    == o.2,
                Err(e) => out matches Err(ev) && e@ == ev,
            }
        }),
{
    let ghost d = old(reader).options.delimiter;
    let ghost q = old(reader).options.text_enclosure;
    let ghost lvs = views_of(lines@);
    let ranges = match parse_config_store_ranges(ranges_config) {
        Ok(x) => x,
        Err(e) => {
            return Err(e);
        },
    };
    if lines.len() == 0 {
        return Err(Error::new(ErrorKind::Config("header".to_owned())));
    }
    proof {
        assert(lvs[0] == lines@[0]@);
    }
    let header = match parse_header(lines[0].as_str(), config, reader) {
        Ok(h) => h,
        Err(e) => {
            return Err(e);
        },
    };
    let mut state = AggState::new();
    let ghost mut rows: int = 0;
    let n = lines.len();
    let mut stopped = false;
    let mut i: usize = 1;
    while i < n && !stopped
        invariant
            n == lines@.len(),
            lvs == views_of(lines@),
            1 <= i <= n,
            *reader == *old(reader),
            d == old(reader).options.delimiter,
            q == old(reader).options.text_enclosure,
            store_ranges_val(*ranges_config) == Ok::<StoreRangeView, ErrorKindView>(ranges@),
            ({
                let t = tokenize(lvs[0], d, q);
                t is Some && header == resolve_header(t->0, *config, t->0.len() as int)
            }),
            0 <= rows <= i - 1,
            model_ok(state@, rows),
            !stopped ==> stage1_fold(lvs, header, ranges@, strict, d, q, i as int)
                == Stage1::Going(state@),
            stopped ==> stage1_fold(lvs, header, ranges@, strict, d, q, n as int)
                == Stage1::Stopped(state@),
        decreases n - i,
    {
        proof {
            assert(lvs[i as int] == lines@[i as int]@);
        }
        match parse_record(lines[i].as_str(), header, reader) {
            Err(e) => {
                if strict {
                    let msg = row_error_message(e.kind());
                    proof {
                        lemma_stage1_stops(lvs, header, ranges@, strict, d, q, i + 1, n as int);
                    }
                    return Err(Error::new(ErrorKind::MalformedData(msg, i + 1)));
                }
            },
            Ok(None) => {
                proof {
                    lemma_stage1_stops(lvs, header, ranges@, strict, d, q, i + 1, n as int);
                }
                stopped = true;
            },
            Ok(Some(rec)) => {
                if rec.qt != 0 {
                    match rec.dt {
                        Some(day) => {
                            apply_record(&mut state, &rec, day, &ranges, Ghost(rows));
                            proof {
                                rows = rows + 1;
                            }
                        },
                        None => {
                            if strict {
                                proof {
                                    lemma_stage1_stops(
                                        lvs,
                                        header,
                                        ranges@,
                                        strict,
                                        d,
                                        q,
                                        i + 1,
                                        n as int,
                                    );
                                }
                                return Err(
                                    Error::new(
                                        ErrorKind::MalformedData("missing date".to_owned(), i + 1),
                                    ),
                                );
                            }
                        },
                    }
                }
            },
        }
        i = i + 1;
    }
    proof {
        if !stopped {
            assert(i == n);
        }
        assert(day_maps_ok(state@.daily_qt, rows));
        assert(day_maps_ok(state@.store_daily, rows));
        assert(days_ok(dview(state.daily_qt@)));
        assert(days_ok(dview(state.store_daily@)));
    }
    let ghost m = state@;
    finalize_mats(&mut state.mmap, &state.daily_qt);
    finalize_stores(&mut state.smap, &state.store_daily);
    let AggState { mmap, smap, bmap, .. } = state;
    Ok((mmap, smap, bmap))
}

/// The views of a sequence of byte strings.
pub open spec fn bviews(s: Seq<Vec<u8>>) -> Seq<Seq<u8>> {
    s.map_values(|v: Vec<u8>| v@)
}

/// The stage-one fold over raw byte lines: each line is decoded under the
/// selected encoding just before it is consumed, so bytes after the
/// end-of-data sentinel are never decoded; a line that does not decode
/// aborts the run whatever the mode.
pub open spec fn stage1_bytes(
    blines: Seq<Seq<u8>>,
    enc: EncodeType,
    h: Header,
    sr: StoreRangeView,
    strict: bool,
    d: char,
    q: char,
    n: int,
) -> Stage1
    decreases n,
{
    if n <= 1 {
        Stage1::Going(empty_model())
    } else {
        match stage1_bytes(blines, enc, h, sr, strict, d, q, n - 1) {
            Stage1::Going(m) => match decoded(blines[n - 1], enc) {
                None => Stage1::Failed(ErrorKindView::Decode(("invalid byte sequence")@)),
                Some(s) => stage1_line(m, s, n, h, sr, strict, d, q),
            },
            other => other,
        }
    }
}

pub proof fn lemma_stage1_bytes_stops(
    blines: Seq<Seq<u8>>,
    enc: EncodeType,
    h: Header,
    sr: StoreRangeView,
    strict: bool,
    d: char,
    q: char,
    i: int,
    n: int,
)
    requires
        1 <= i <= n,
        !(stage1_bytes(blines, enc, h, sr, strict, d, q, i) is Going),
    ensures
        stage1_bytes(blines, enc, h, sr, strict, d, q, n) == stage1_bytes(
            blines,
            enc,
            h,
            sr,
            strict,
            d,
            q,
            i,
        ),
    decreases n - i,
{
    if i < n {
        lemma_stage1_bytes_stops(blines, enc, h, sr, strict, d, q, i, n - 1);
    }
}

/// What aggregating one raw export answers: like
/// [`aggregate_lines_spec`], with each line decoded lazily under the
/// selected encoding.
pub open spec fn aggregate_spec(
    blines: Seq<Seq<u8>>,
    enc: EncodeType,
    cfg: STHeader,
    rcfg: StoreRangeConfig,
    strict: bool,
    d: char,
    q: char,
) -> Result<(Seq<(u32, MaterialView)>, Seq<(u32, StoreView)>, Seq<(BrandType, Brand)>), ErrorKindView> {
    match store_ranges_val(rcfg) {
        Err(e) => Err(e),
        Ok(sr) => if blines.len() == 0 {
            Err(ErrorKindView::Config(("header")@))
        } else {
            match decoded(blines[0], enc) {
                None => Err(ErrorKindView::Decode(("invalid byte sequence")@)),
                Some(hl) => match tokenize(hl, d, q) {
                    None => Err(ErrorKindView::Config(("header")@)),
                    Some(fs) => {
                        let h = resolve_header(fs, cfg, fs.len() as int);
                        match stage1_bytes(blines, enc, h, sr, strict, d, q, blines.len() as int) {
                            Stage1::Failed(e) => Err(e),
                            Stage1::Going(m) => Ok(
                                (
                                    stage2_mats(m.mmap, m.daily_qt, m.daily_qt.len() as int),
                                    stage2_stores(m.smap, m.store_daily, m.store_daily.len() as int),
                                    m.bmap,
                                ),
                            ),
                            Stage1::Stopped(m) => Ok(
                                (
                                    stage2_mats(m.mmap, m.daily_qt, m.daily_qt.len() as int),
                                    stage2_stores(m.smap, m.store_daily, m.store_daily.len() as int),
                                    m.bmap,
                                ),
                            ),
                        }
                    },
                },
            }
        },
    }
}

/// Aggregates the raw byte lines of one export (line 0 being the header)
/// into the three summary maps, per [`aggregate_spec`].
#[verifier::rlimit(80)]
pub fn aggregate(
    lines: &Vec<Vec<u8>>,
    encoding: EncodeType,
    config: &STHeader,
    ranges_config: &StoreRangeConfig,
    reader: &mut CsvReader,
    strict: bool,
) -> (r: Result<(MMap, SMap, BMap), Error>)
    ensures
        *final(reader) == *old(reader),
        ({
            let out = aggregate_spec(
                bviews(lines@),
                encoding,
                *config,
                *ranges_config,
                strict,
                old(reader).options.delimiter,
                old(reader).options.text_enclosure,
            );
            match r {
                Ok(t) => out matches Ok(o) && mview(t.0@) == o.0 && sview(t.1@) == o.1 && t.2@
                    == o.2,
                Err(e) => out matches Err(ev) && e@ == ev,
            }
        }),
{
    let ghost d = old(reader).options.delimiter;
    let ghost q = old(reader).options.text_enclosure;
    let ghost bvs = bviews(lines@);
    let ranges = match parse_config_store_ranges(ranges_config) {
        Ok(x) => x,
        Err(e) => {
            return Err(e);
        },
    };
    if lines.len() == 0 {
        return Err(Error::new(ErrorKind::Config("header".to_owned())));
    }
    proof {
        assert(bvs[0] == lines@[0]@);
    }
    let header_line = match decode(lines[0].as_slice(), encoding) {
        Ok(s) => s,
        Err(e) => {
            return Err(e);
        },
    };
    let header = match parse_header(header_line.as_str(), config, reader) {
        Ok(h) => h,
        Err(e) => {
            return Err(e);
        },
    };
    let mut state = AggState::new();
    let ghost mut rows: int = 0;
    let n = lines.len();
    let mut stopped = false;
    let mut i: usize = 1;
    while i < n && !stopped
        invariant
            n == lines@.len(),
            bvs == bviews(lines@),
            1 <= i <= n,
            *reader == *old(reader),
            d == old(reader).options.delimiter,
            q == old(reader).options.text_enclosure,
            store_ranges_val(*ranges_config) == Ok::<StoreRangeView, ErrorKindView>(ranges@),
            ({
                let hl = decoded(bvs[0], encoding);
                hl is Some && ({
                    let t = tokenize(hl->0, d, q);
                    t is Some && header == resolve_header(t->0, *config, t->0.len() as int)
                })
            }),
            0 <= rows <= i - 1,
            model_ok(state@, rows),
            !stopped ==> stage1_bytes(bvs, encoding, header, ranges@, strict, d, q, i as int)
                == Stage1::Going(state@),
            stopped ==> stage1_bytes(bvs, encoding, header, ranges@, strict, d, q, n as int)
                == Stage1::Stopped(state@),
        decreases n - i,
    {
        proof {
            assert(bvs[i as int] == lines@[i as int]@);
        }
        let line = match decode(lines[i].as_slice(), encoding) {
            Ok(s) => s,
            Err(e) => {
                proof {
                    lemma_stage1_bytes_stops(
                        bvs,
                        encoding,
                        header,
                        ranges@,
                        strict,
                        d,
                        q,
                        i + 1,
                        n as int,
                    );
                }
                return Err(e);
            },
        };
        match parse_record(line.as_str(), header, reader) {
            Err(e) => {
                if strict {
                    let msg = row_error_message(e.kind());
                    proof {
                        lemma_stage1_bytes_stops(
                            bvs,
                            encoding,
                            header,
                            ranges@,
                            strict,
                            d,
                            q,
                            i + 1,
                            n as int,
                        );
                    }
                    return Err(Error::new(ErrorKind::MalformedData(msg, i + 1)));
                }
            },
            Ok(None) => {
                proof {
                    lemma_stage1_bytes_stops(
                        bvs,
                        encoding,
                        header,
                        ranges@,
                        strict,
                        d,
                        q,
                        i + 1,
                        n as int,
                    );
                }
                stopped = true;
            },
            Ok(Some(rec)) => {
                if rec.qt != 0 {
                    match rec.dt {
                        Some(day) => {
                            apply_record(&mut state, &rec, day, &ranges, Ghost(rows));
                            proof {
                                rows = rows + 1;
                            }
                        },
                        None => {
                            if strict {
                                proof {
                                    lemma_stage1_bytes_stops(
                                        bvs,
                                        encoding,
                                        header,
                                        ranges@,
                                        strict,
                                        d,
                                        q,
                                        i + 1,
                                        n as int,
                                    );
                                }
                                return Err(
                                    Error::new(
                                        ErrorKind::MalformedData("missing date".to_owned(), i + 1),
                                    ),
                                );
                            }
                        },
                    }
                }
            },
        }
        i = i + 1;
    }
    proof {
        if !stopped {
            assert(i == n);
        }
        assert(day_maps_ok(state@.daily_qt, rows));
        assert(day_maps_ok(state@.store_daily, rows));
        assert(days_ok(dview(state.daily_qt@)));
        assert(days_ok(dview(state.store_daily@)));
    }
    finalize_mats(&mut state.mmap, &state.daily_qt);
    finalize_stores(&mut state.smap, &state.store_daily);
    let AggState { mmap, smap, bmap, .. } = state;
    Ok((mmap, smap, bmap))
}

/// A store entry with every field at zero.
pub open spec fn blank_store() -> StoreView {
    StoreView {
        sid: 0,
        sname: Seq::empty(),
        store_type: StoreType::Oth,
        store_loc: StoreLoc::Unknown,
        sku_in_use: 0,
        amount: 0,
        first_req_date: None,
        last_req_date: None,
        max_req_interval: 0,
        min_req_interval: 0,
        max_req_amount: 0,
        min_req_amount: 0,
        max_req_date: None,
        min_req_date: None,
    }
}

impl Store {
    /// A store entry with every field at zero.
    pub fn new() -> (r: Store)
        ensures
            r@ == blank_store(),
    {
        Store {
            sid: 0,
            sname: String::new(),
            store_type: StoreType::Oth,
            store_loc: StoreLoc::Unknown,
            sku_in_use: 0,
            amount: 0,
            first_req_date: None,
            last_req_date: None,
            max_req_interval: 0,
            min_req_interval: 0,
            max_req_amount: 0,
            min_req_amount: 0,
            max_req_date: None,
            min_req_date: None,
        }
    }
}

impl Brand {
    /// A brand entry with every field at zero.
    pub fn new() -> (r: Brand)
        ensures
            r == blank_brand(),
    {
        brand_blank()
    }
}

/// Aggregation is a function of its input: any two results that meet the
/// contract of [`aggregate_lines`] on the same lines and configuration are
/// identical.
pub proof fn lemma_aggregation_deterministic(
    out1: Result<(Seq<(u32, MaterialView)>, Seq<(u32, StoreView)>, Seq<(BrandType, Brand)>), ErrorKindView>,
    out2: Result<(Seq<(u32, MaterialView)>, Seq<(u32, StoreView)>, Seq<(BrandType, Brand)>), ErrorKindView>,
    lines: Seq<Seq<char>>,
    cfg: STHeader,
    rcfg: StoreRangeConfig,
    strict: bool,
    d: char,
    q: char,
)
    requires
        out1 == aggregate_lines_spec(lines, cfg, rcfg, strict, d, q),
        out2 == aggregate_lines_spec(lines, cfg, rcfg, strict, d, q),
    ensures
        out1 == out2,
{
}

proof fn lemma_zero_qt_fold(
    lines: Seq<Seq<char>>,
    h: Header,
    sr: StoreRangeView,
    strict: bool,
    d: char,
    q: char,
    n: int,
)
    requires
        n <= lines.len(),
        forall|i: int|
            1 <= i < lines.len() ==> ((#[trigger] parse_record_spec(lines[i], h, d, q)) matches
                RowResult::Row(r) && r.qt == 0),
    ensures
        stage1_fold(lines, h, sr, strict, d, q, n) == Stage1::Going(empty_model()),
    decreases n,
{
    if n > 1 {
        lemma_zero_qt_fold(lines, h, sr, strict, d, q, n - 1);
    }
}

/// Zero-quantity exclusion: when every data row decodes to a record whose
/// quantity is exactly zero, aggregation succeeds with all three result maps
/// empty.
pub proof fn lemma_zero_quantity_excluded(
    lines: Seq<Seq<char>>,
    cfg: STHeader,
    rcfg: StoreRangeConfig,
    strict: bool,
    d: char,
    q: char,
)
    requires
        store_ranges_val(rcfg) is Ok,
        lines.len() > 0,
        tokenize(lines[0], d, q) is Some,
        forall|i: int|
            1 <= i < lines.len() ==> ((#[trigger] parse_record_spec(
                lines[i],
                resolve_header(
                    tokenize(lines[0], d, q)->0,
                    cfg,
                    tokenize(lines[0], d, q)->0.len() as int,
                ),
                d,
                q,
            )) matches RowResult::Row(r) && r.qt == 0),
    ensures
        aggregate_lines_spec(lines, cfg, rcfg, strict, d, q) matches Ok(o) && o.0 == Seq::<
            (u32, MaterialView),
        >::empty() && o.1 == Seq::<(u32, StoreView)>::empty() && o.2 == Seq::<
            (BrandType, Brand),
        >::empty(),
{
    let h = resolve_header(
        tokenize(lines[0], d, q)->0,
        cfg,
        tokenize(lines[0], d, q)->0.len() as int,
    );
    let sr = store_ranges_val(rcfg)->Ok_0;
    lemma_zero_qt_fold(lines, h, sr, strict, d, q, lines.len() as int);
}

/// The end-of-data sentinel halts aggregation: when line `k` decodes to the
/// sentinel (a short row or a blank material id), the fold stops with the
/// state it had accumulated, and no later line alters it.
pub proof fn lemma_sentinel_halts(
    lines: Seq<Seq<char>>,
    h: Header,
    sr: StoreRangeView,
    strict: bool,
    d: char,
    q: char,
    k: int,
    n: int,
    m: AggModel,
)
    requires
        1 <= k < n <= lines.len(),
        stage1_fold(lines, h, sr, strict, d, q, k) == Stage1::Going(m),
        parse_record_spec(lines[k], h, d, q) is Sentinel,
    ensures
        stage1_fold(lines, h, sr, strict, d, q, n) == Stage1::Stopped(m),
{
    assert(stage1_fold(lines, h, sr, strict, d, q, k + 1) == Stage1::Stopped(m));
    lemma_stage1_stops(lines, h, sr, strict, d, q, k + 1, n);
}

} // verus!
