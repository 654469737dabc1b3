//! Schema resolution, typed decoding of tokenized rows, and the configured
//! store-range tables.
use vstd::prelude::*;

verus! {

use crate::error::{Error, ErrorKind, ErrorKindView};
use crate::num::{
    chars_string,
    chars_vec,
    csv_number_val,
    find_char_from,
    find_first,
    parse_fixed_number,
    parse_u16_trimmed,
    parse_u32_str,
    parse_uint_capped,
    trim_spec,
    uint_val,
    uint_val_capped,
};
use crate::reader::{tokenize, views_of, CsvReader};

/// Column indices of the ST record fields, resolved from the header row.
///
/// An index of zero means "not yet assigned": a logical field that truly
/// sits in column zero therefore never registers as assigned and may be
/// overwritten by a later column with the same header text. That behaviour
/// is kept as it stands.
#[derive(Debug, Clone, Copy, PartialEq, Eq, Structural)]
pub struct Header {
    pub mid: usize,
    pub sid: usize,
    pub wid: usize,
    pub mname: usize,
    pub sname: usize,
    pub qt: usize,
    pub at: usize,
    pub dt: usize,
}

impl Header {
    /// A header with no column assigned.
    pub fn new() -> (h: Header)
        ensures
            h == blank_header(),
    {
        Header { mid: 0, sid: 0, wid: 0, mname: 0, sname: 0, qt: 0, at: 0, dt: 0 }
    }
}

/// The header with no column assigned.
pub open spec fn blank_header() -> Header {
    Header { mid: 0, sid: 0, wid: 0, mname: 0, sname: 0, qt: 0, at: 0, dt: 0 }
}

/// The configured header texts of the ST record fields.
#[derive(Debug, Clone)]
pub struct STHeader {
    pub mid: String,
    pub sid: String,
    pub wid: String,
    pub mname: String,
    pub sname: String,
    pub qt: String,
    pub at: String,
    pub dt: String,
}

/// One typed ST record. Quantity and amount are fixed-point decimals in
/// millionths; the date is a day number in the proleptic Gregorian calendar.
#[derive(Debug, Clone, PartialEq)]
pub struct Record {
    pub mid: u32,
    pub sid: u32,
    pub wid: u16,
    pub mname: String,
    pub sname: String,
    pub qt: i64,
    pub at: i64,
    pub dt: Option<i64>,
}

/// The mathematical shape of a [`Record`].
pub struct RecordView {
    pub mid: u32,
    pub sid: u32,
    pub wid: u16,
    pub mname: Seq<char>,
    pub sname: Seq<char>,
    pub qt: i64,
    pub at: i64,
    pub dt: Option<i64>,
}

impl View for Record {
    type V = RecordView;

    open spec fn view(&self) -> RecordView {
        RecordView {
            mid: self.mid,
            sid: self.sid,
            wid: self.wid,
            mname: self.mname@,
            sname: self.sname@,
            qt: self.qt,
            at: self.at,
            dt: self.dt,
        }
    }
}

/// The record before any field has been read.
pub open spec fn blank_record() -> RecordView {
    RecordView {
        mid: 0,
        sid: 0,
        wid: 0,
        mname: Seq::empty(),
        sname: Seq::empty(),
        qt: 0,
        at: 0,
        dt: None,
    }
}

impl Record {
    /// A record with every field at its zero value.
    pub fn new() -> (r: Record)
        ensures
            r@ == blank_record(),
    {
        Record {
            mid: 0,
            sid: 0,
            wid: 0,
            mname: String::new(),
            sname: String::new(),
            qt: 0,
            at: 0,
            dt: None,
        }
    }
}

/// What `chrono` answers for one date field: the day number in the proleptic
/// Gregorian calendar (January 1 of year 1 is day 1) of the date written
/// `year/month/day`, or nothing when the text is not such a date.
pub uninterp spec fn date_of(s: Seq<char>) -> Option<i64>;

/// Relies on `chrono::NaiveDate::parse_from_str` with format `%Y/%m/%d` and
/// on `chrono::Datelike::num_days_from_ce`: the result depends on the text
/// alone, and the day number comes out of an `i32`.
#[verifier::external_body]
fn parse_date(s: &str) -> (r: Option<i64>)
    ensures
        r == date_of(s@),
        r matches Some(d) ==> -0x8000_0000 <= d <= 0x7fff_ffff,
{
    match chrono::NaiveDate::parse_from_str(s, "%Y/%m/%d") {
        Ok(d) => Some(chrono::Datelike::num_days_from_ce(&d) as i64),
        Err(_) => None,
    }
}

/// One step of header resolution: column `i` with text `f` assigns the first
/// still-unassigned logical field whose configured text equals `f`.
pub open spec fn assign_header(h: Header, i: int, f: Seq<char>, c: STHeader) -> Header {
    if f == c.mid@ && h.mid == 0 {
        Header { mid: i as usize, ..h }
    } else if f == c.sid@ && h.sid == 0 {
        Header { sid: i as usize, ..h }
    } else if f == c.wid@ && h.wid == 0 {
        Header { wid: i as usize, ..h }
    } else if f == c.mname@ && h.mname == 0 {
        Header { mname: i as usize, ..h }
    } else if f == c.sname@ && h.sname == 0 {
        Header { sname: i as usize, ..h }
    } else if f == c.qt@ && h.qt == 0 {
        Header { qt: i as usize, ..h }
    } else if f == c.at@ && h.at == 0 {
        Header { at: i as usize, ..h }
    } else if f == c.dt@ && h.dt == 0 {
        Header { dt: i as usize, ..h }
    } else {
        h
    }
}

/// The header after resolving the first `n` columns.
pub open spec fn resolve_header(fields: Seq<Seq<char>>, c: STHeader, n: int) -> Header
    decreases n,
{
    if n <= 0 {
        blank_header()
    } else {
        assign_header(resolve_header(fields, c, n - 1), n - 1, fields[n - 1], c)
    }
}

/// Resolves the column schema from the tokenized header line.
///
/// Fails with a `Config` error when the line tokenizes to no field at all.
pub fn parse_header(header: &str, config: &STHeader, reader: &mut CsvReader) -> (r: Result<
    Header,
    Error,
>)
    ensures
        *final(reader) == *old(reader),
        ({
            let t = tokenize(
                header@,
                old(reader).options.delimiter,
                old(reader).options.text_enclosure,
            );
            match r {
                Ok(h) => t is Some && h == resolve_header(t->0, *config, t->0.len() as int),
                Err(e) => t is None && e@ == ErrorKindView::Config(("header")@),
            }
        }),
{
    let fields = match reader.read_line(header) {
        None => {
            return Err(Error::new(ErrorKind::Config("header".to_owned())));
        },
        Some(fs) => fs,
    };
    let ghost fvs = views_of(fields@);
    let mut h = Header::new();
    let n = fields.len();
    let mut i: usize = 0;
    while i < n
        invariant
            n == fields@.len(),
            fvs == views_of(fields@),
            i <= n,
            h == resolve_header(fvs, *config, i as int),
        decreases n - i,
    {
        let v = &fields[i];
        proof {
            assert(fvs[i as int] == v@);
        }
        if *v == config.mid && h.mid == 0 {
            h.mid = i;
        } else if *v == config.sid && h.sid == 0 {
            h.sid = i;
        } else if *v == config.wid && h.wid == 0 {
            h.wid = i;
        } else if *v == config.mname && h.mname == 0 {
            h.mname = i;
        } else if *v == config.sname && h.sname == 0 {
            h.sname = i;
        } else if *v == config.qt && h.qt == 0 {
            h.qt = i;
        } else if *v == config.at && h.at == 0 {
            h.at = i;
        } else if *v == config.dt && h.dt == 0 {
            h.dt = i;
        }
        i = i + 1;
    }
    Ok(h)
}

/// The outcome of decoding one tokenized row.
pub enum RowResult {
    /// The end-of-data sentinel: a short row or a blank material id.
    Sentinel,
    /// A decoded record.
    Row(RecordView),
    /// A malformed field.
    Fail(ErrorKindView),
}

/// Decodes column `i` with text `f` into the record being built.
pub open spec fn record_field(r: RecordView, i: int, f: Seq<char>, h: Header) -> RowResult {
    if i == h.mid as int {
        if f.len() == 0 {
            RowResult::Sentinel
        } else {
            match uint_val(f) {
                Some(n) => if n <= u32::MAX {
                    RowResult::Row(RecordView { mid: n as u32, ..r })
                } else {
                    RowResult::Fail(ErrorKindView::FromStr(f, ("u32")@))
                },
                None => RowResult::Fail(ErrorKindView::FromStr(f, ("u32")@)),
            }
        }
    } else if i == h.sid as int {
        match uint_val(f) {
            Some(n) => if n <= u32::MAX {
                RowResult::Row(RecordView { sid: n as u32, ..r })
            } else {
                RowResult::Fail(ErrorKindView::FromStr(f, ("u32")@))
            },
            None => RowResult::Fail(ErrorKindView::FromStr(f, ("u32")@)),
        }
    } else if i == h.wid as int {
        match uint_val(trim_spec(f)) {
            Some(n) => if n <= u16::MAX {
                RowResult::Row(RecordView { wid: n as u16, ..r })
            } else {
                RowResult::Fail(ErrorKindView::FromStr(f, ("u16")@))
            },
            None => RowResult::Fail(ErrorKindView::FromStr(f, ("u16")@)),
        }
    } else if i == h.mname as int {
        RowResult::Row(RecordView { mname: f, ..r })
    } else if i == h.sname as int {
        RowResult::Row(RecordView { sname: f, ..r })
    } else if i == h.qt as int {
        match csv_number_val(f) {
            Some(v) => RowResult::Row(RecordView { qt: v, ..r }),
            None => RowResult::Fail(ErrorKindView::FromStr(f, ("number")@)),
        }
    } else if i == h.at as int {
        match csv_number_val(f) {
            Some(v) => RowResult::Row(RecordView { at: v, ..r }),
            None => RowResult::Fail(ErrorKindView::FromStr(f, ("number")@)),
        }
    } else if i == h.dt as int {
        match date_of(f) {
            Some(d) => RowResult::Row(RecordView { dt: Some(d), ..r }),
            None => RowResult::Fail(ErrorKindView::FromStr(f, ("date")@)),
        }
    } else {
        RowResult::Row(r)
    }
}

/// The record after decoding the first `n` columns; a sentinel or a failure
/// stops the walk.
pub open spec fn record_fold(fields: Seq<Seq<char>>, h: Header, n: int) -> RowResult
    decreases n,
{
    if n <= 0 {
        RowResult::Row(blank_record())
    } else {
        match record_fold(fields, h, n - 1) {
            RowResult::Row(r) => record_field(r, n - 1, fields[n - 1], h),
            other => other,
        }
    }
}

proof fn lemma_record_fold_stops(fields: Seq<Seq<char>>, h: Header, i: int, n: int)
    requires
        0 <= i <= n,
        !(record_fold(fields, h, i) is Row),
    ensures
        record_fold(fields, h, n) == record_fold(fields, h, i),
    decreases n - i,
{
    if i < n {
        lemma_record_fold_stops(fields, h, i, n - 1);
    }
}

/// What one whole line decodes to: the sentinel for a line of fewer than
/// eight fields, else the record fold over all its fields.
pub open spec fn parse_record_spec(line: Seq<char>, h: Header, d: char, q: char) -> RowResult {
    match tokenize(line, d, q) {
        None => RowResult::Sentinel,
        Some(fs) => if fs.len() < 8 {
            RowResult::Sentinel
        } else {
            record_fold(fs, h, fs.len() as int)
        },
    }
}

/// Decodes one data row into a typed [`Record`].
///
/// Returns `Ok(None)` — the end-of-data sentinel — for a row of fewer than
/// eight fields or a blank material id; fails with a `FromStr` error when a
/// typed field does not parse.
pub fn parse_record(data: &str, header: Header, reader: &mut CsvReader) -> (r: Result<
    Option<Record>,
    Error,
>)
    ensures
        *final(reader) == *old(reader),
        ({
            let out = parse_record_spec(
                data@,
                header,
                old(reader).options.delimiter,
                old(reader).options.text_enclosure,
            );
            match r {
                Ok(Some(rec)) => out matches RowResult::Row(rv) && rec@ == rv,
                Ok(None) => out is Sentinel,
                Err(e) => out matches RowResult::Fail(ev) && e@ == ev,
            }
        }),
        r matches Ok(Some(rec)) ==> (rec.dt matches Some(dy) ==> -0x8000_0000 <= dy
            <= 0x7fff_ffff),
{
    let fields = match reader.read_line(data) {
        None => {
            return Ok(None);
        },
        Some(fs) => fs,
    };
    if fields.len() < 8 {
        return Ok(None);
    }
    let ghost fvs = views_of(fields@);
    let mut rec = Record::new();
    let n = fields.len();
    let mut i: usize = 0;
    while i < n
        invariant
            n == fields@.len(),
            fvs == views_of(fields@),
            i <= n,
            8 <= fvs.len(),
            *reader == *old(reader),
            tokenize(
                data@,
                old(reader).options.delimiter,
                old(reader).options.text_enclosure,
            ) == Some(fvs),
            record_fold(fvs, header, i as int) == RowResult::Row(rec@),
            rec.dt is Some ==> -0x8000_0000 <= rec.dt->0 <= 0x7fff_ffff,
        decreases n - i,
    {
        let v = &fields[i];
        proof {
            assert(fvs[i as int] == v@);
        }
        if i == header.mid {
            if v.as_str().is_empty() {
                proof {
                    lemma_record_fold_stops(fvs, header, i + 1, n as int);
                }
                return Ok(None);
            }
            match parse_u32_str(v.as_str()) {
                Some(x) => {
                    rec.mid = x;
                },
                None => {
                    proof {
                        lemma_record_fold_stops(fvs, header, i + 1, n as int);
                    }
                    return Err(Error::new(ErrorKind::FromStr(v.clone(), "u32")));
                },
            }
        } else if i == header.sid {
            match parse_u32_str(v.as_str()) {
                Some(x) => {
                    rec.sid = x;
                },
                None => {
                    proof {
                        lemma_record_fold_stops(fvs, header, i + 1, n as int);
                    }
                    return Err(Error::new(ErrorKind::FromStr(v.clone(), "u32")));
                },
            }
        } else if i == header.wid {
            match parse_u16_trimmed(v.as_str()) {
                Some(x) => {
                    rec.wid = x;
                },
                None => {
                    proof {
                        lemma_record_fold_stops(fvs, header, i + 1, n as int);
                    }
                    return Err(Error::new(ErrorKind::FromStr(v.clone(), "u16")));
                },
            }
        } else if i == header.mname {
            rec.mname = v.clone();
        } else if i == header.sname {
            rec.sname = v.clone();
        } else if i == header.qt {
            match parse_fixed_number(v.as_str()) {
                Some(x) => {
                    rec.qt = x;
                },
                None => {
                    proof {
                        lemma_record_fold_stops(fvs, header, i + 1, n as int);
                    }
                    return Err(Error::new(ErrorKind::FromStr(v.clone(), "number")));
                },
            }
        } else if i == header.at {
            match parse_fixed_number(v.as_str()) {
                Some(x) => {
                    rec.at = x;
                },
                None => {
                    proof {
                        lemma_record_fold_stops(fvs, header, i + 1, n as int);
                    }
                    return Err(Error::new(ErrorKind::FromStr(v.clone(), "number")));
                },
            }
        } else if i == header.dt {
            match parse_date(v.as_str()) {
                Some(d) => {
                    rec.dt = Some(d);
                },
                None => {
                    proof {
                        lemma_record_fold_stops(fvs, header, i + 1, n as int);
                    }
                    return Err(Error::new(ErrorKind::FromStr(v.clone(), "date")));
                },
            }
        }
        i = i + 1;
    }
    Ok(Some(rec))
}

/// Reads one numeric field into a fixed-point value in millionths, per
/// [`csv_number_val`]: the empty string counts as zero, a leading point
/// gains a zero, commas are stripped, and the rest must be a plain decimal
/// number of at most six fractional digits.
pub fn parse_csv_number(s: &str) -> (r: Result<i64, Error>)
    ensures
        match csv_number_val(s@) {
            Some(v) => r matches Ok(x) && x == v,
            None => r matches Err(e) && e@ == ErrorKindView::FromStr(s@, ("number")@),
        },
{
    match parse_fixed_number(s) {
        Some(v) => Ok(v),
        None => Err(Error::new(ErrorKind::FromStr(s.to_owned(), "number"))),
    }
}

/// A list of inclusive store-id ranges.
#[derive(Debug, Clone)]
pub struct Ranges(pub Vec<(u64, u64)>);

impl View for Ranges {
    type V = Seq<(u64, u64)>;

    open spec fn view(&self) -> Seq<(u64, u64)> {
        self.0@
    }
}

/// Whether `v` lies in one of the inclusive ranges.
pub open spec fn in_ranges(rs: Seq<(u64, u64)>, v: u64) -> bool {
    exists|i: int| #![trigger rs[i]] 0 <= i < rs.len() && rs[i].0 <= v <= rs[i].1
}

impl Ranges {
    /// Whether `v` lies in one of the ranges.
    pub fn contains(&self, v: u64) -> (r: bool)
        ensures
            r == in_ranges(self@, v),
    {
        let n = self.0.len();
        let mut i: usize = 0;
        while i < n
            invariant
                n == self.0@.len(),
                i <= n,
                forall|j: int|
                    #![trigger self.0@[j]]
                    0 <= j < i ==> !(self.0@[j].0 <= v <= self.0@[j].1),
            decreases n - i,
        {
            let (lo, hi) = self.0[i];
            if lo <= v && v <= hi {
                return true;
            }
            i = i + 1;
        }
        false
    }
}

/// What one configured range string means: `"N"` is the one-point range
/// `(N, N)`; `"N-M"` is the inclusive range `(N, M)`; text after a second
/// dash is ignored. A side that is not an unsigned number fails.
pub open spec fn range_entry_val(s: Seq<char>) -> Result<(u64, u64), ErrorKindView> {
    match find_first(s, '-') {
        None => match uint_val_capped(s, u64::MAX) {
            Some(n) => Ok((n, n)),
            None => Err(ErrorKindView::FromStr(s, ("usize")@)),
        },
        Some(k) => {
            let left = s.take(k);
            let rest = s.skip(k + 1);
            let right = match find_first(rest, '-') {
                None => rest,
                Some(j) => rest.take(j),
            };
            match uint_val_capped(left, u64::MAX) {
                None => Err(ErrorKindView::FromStr(left, ("usize")@)),
                Some(lo) => match uint_val_capped(right, u64::MAX) {
                    None => Err(ErrorKindView::FromStr(right, ("usize")@)),
                    Some(hi) => Ok((lo, hi)),
                },
            }
        },
    }
}

/// Reads one configured range string.
#[verifier::rlimit(60)]
fn parse_range_entry(s: &str) -> (r: Result<(u64, u64), Error>)
    ensures
        match r {
            Ok(p) => range_entry_val(s@) == Ok::<(u64, u64), ErrorKindView>(p),
            Err(e) => range_entry_val(s@) == Err::<(u64, u64), ErrorKindView>(e@),
        },
{
    let cs = chars_vec(s);
    let len = cs.len();
    proof {
        assert(cs@.skip(0) =~= s@);
    }
    match find_char_from(&cs, 0, '-') {
        None => {
            proof {
                assert(cs@.subrange(0, len as int) =~= s@);
            }
            match parse_uint_capped(&cs, 0, len, 0xffff_ffff_ffff_ffffu64) {
                Some(n) => Ok((n, n)),
                None => Err(Error::new(ErrorKind::FromStr(s.to_owned(), "usize"))),
            }
        },
        Some(k) => {
            let ghost left = s@.take(k as int);
            let ghost rest = s@.skip(k + 1);
            let right_to = match find_char_from(&cs, k + 1, '-') {
                None => len,
                Some(j) => j,
            };
            proof {
                assert(rest =~= cs@.skip(k + 1));
                assert(left =~= cs@.subrange(0, k as int));
                let right = match find_first(rest, '-') {
                    None => rest,
                    Some(j) => rest.take(j),
                };
                assert(right =~= cs@.subrange(k + 1, right_to as int));
            }
            let lo = match parse_uint_capped(&cs, 0, k, 0xffff_ffff_ffff_ffffu64) {
                Some(n) => n,
                None => {
                    return Err(
                        Error::new(ErrorKind::FromStr(chars_string(&cs, 0, k), "usize")),
                    );
                },
            };
            let hi = match parse_uint_capped(&cs, k + 1, right_to, 0xffff_ffff_ffff_ffffu64) {
                Some(n) => n,
                None => {
                    return Err(
                        Error::new(
                            ErrorKind::FromStr(chars_string(&cs, k + 1, right_to), "usize"),
                        ),
                    );
                },
            };
            Ok((lo, hi))
        },
    }
}

/// The ranges read from the first `n` strings of a configured list; the
/// first failure wins.
pub open spec fn ranges_val(xs: Seq<Seq<char>>, n: int) -> Result<Seq<(u64, u64)>, ErrorKindView>
    decreases n,
{
    if n <= 0 {
        Ok(Seq::empty())
    } else {
        match ranges_val(xs, n - 1) {
            Ok(rs) => match range_entry_val(xs[n - 1]) {
                Ok(p) => Ok(rs.push(p)),
                Err(e) => Err(e),
            },
            Err(e) => Err(e),
        }
    }
}

proof fn lemma_ranges_val_stops(xs: Seq<Seq<char>>, i: int, n: int)
    requires
        0 <= i <= n,
        ranges_val(xs, i) is Err,
    ensures
        ranges_val(xs, n) == ranges_val(xs, i),
    decreases n - i,
{
    if i < n {
        lemma_ranges_val_stops(xs, i, n - 1);
    }
}

/// Reads one configured list of range strings.
fn parse_ranges(v: &Vec<String>) -> (r: Result<Ranges, Error>)
    ensures
        match r {
            Ok(rs) => ranges_val(views_of(v@), v@.len() as int) == Ok::<
                Seq<(u64, u64)>,
                ErrorKindView,
            >(rs@),
            Err(e) => ranges_val(views_of(v@), v@.len() as int) == Err::<
                Seq<(u64, u64)>,
                ErrorKindView,
            >(e@),
        },
{
    let ghost xs = views_of(v@);
    let n = v.len();
    let mut out: Vec<(u64, u64)> = Vec::new();
    let mut i: usize = 0;
    while i < n
        invariant
            n == v@.len(),
            xs == views_of(v@),
            i <= n,
            ranges_val(xs, i as int) == Ok::<Seq<(u64, u64)>, ErrorKindView>(out@),
        decreases n - i,
    {
        proof {
            assert(xs[i as int] == v@[i as int]@);
        }
        match parse_range_entry(v[i].as_str()) {
            Ok(p) => {
                out.push(p);
            },
            Err(e) => {
                proof {
                    lemma_ranges_val_stops(xs, i + 1, n as int);
                }
                return Err(e);
            },
        }
        i = i + 1;
    }
    Ok(Ranges(out))
}

/// The configured store ranges: eleven named lists of inclusive ranges.
#[derive(Debug, Clone)]
pub struct StoreRange {
    pub jmj: Ranges,
    pub tey: Ranges,
    pub lkd: Ranges,
    pub nws: Ranges,
    pub son: Ranges,
    pub jmj_local: Ranges,
    pub tey_local: Ranges,
    pub lkd_local: Ranges,
    pub nws_local: Ranges,
    pub son_local: Ranges,
    pub dc_outer: Ranges,
}

/// The mathematical shape of a [`StoreRange`].
pub struct StoreRangeView {
    pub jmj: Seq<(u64, u64)>,
    pub tey: Seq<(u64, u64)>,
    pub lkd: Seq<(u64, u64)>,
    pub nws: Seq<(u64, u64)>,
    pub son: Seq<(u64, u64)>,
    pub jmj_local: Seq<(u64, u64)>,
    pub tey_local: Seq<(u64, u64)>,
    pub lkd_local: Seq<(u64, u64)>,
    pub nws_local: Seq<(u64, u64)>,
    pub son_local: Seq<(u64, u64)>,
    pub dc_outer: Seq<(u64, u64)>,
}

impl View for StoreRange {
    type V = StoreRangeView;

    open spec fn view(&self) -> StoreRangeView {
        StoreRangeView {
            jmj: self.jmj@,
            tey: self.tey@,
            lkd: self.lkd@,
            nws: self.nws@,
            son: self.son@,
            jmj_local: self.jmj_local@,
            tey_local: self.tey_local@,
            lkd_local: self.lkd_local@,
            nws_local: self.nws_local@,
            son_local: self.son_local@,
            dc_outer: self.dc_outer@,
        }
    }
}

/// The raw configured range lists, one list of strings per named table.
#[derive(Debug, Clone)]
pub struct StoreRangeConfig {
    pub jmj: Vec<String>,
    pub tey: Vec<String>,
    pub lkd: Vec<String>,
    pub nws: Vec<String>,
    pub son: Vec<String>,
    pub jmj_local: Vec<String>,
    pub tey_local: Vec<String>,
    pub lkd_local: Vec<String>,
    pub nws_local: Vec<String>,
    pub son_local: Vec<String>,
    pub dc_outer: Vec<String>,
}

/// The ranges of one configured list, as [`ranges_val`] reads them.
pub open spec fn list_val(v: Seq<String>) -> Result<Seq<(u64, u64)>, ErrorKindView> {
    ranges_val(views_of(v), v.len() as int)
}

/// What the whole range configuration means: each list read in the fixed
/// order, the first failure winning.
pub open spec fn store_ranges_val(c: StoreRangeConfig) -> Result<StoreRangeView, ErrorKindView> {
    match list_val(c.jmj@) {
        Err(e) => Err(e),
        Ok(jmj) => match list_val(c.tey@) {
            Err(e) => Err(e),
            Ok(tey) => match list_val(c.lkd@) {
                Err(e) => Err(e),
                Ok(lkd) => match list_val(c.nws@) {
                    Err(e) => Err(e),
                    Ok(nws) => match list_val(c.son@) {
                        Err(e) => Err(e),
                        Ok(son) => match list_val(c.jmj_local@) {
                            Err(e) => Err(e),
                            Ok(jmj_local) => match list_val(c.tey_local@) {
                                Err(e) => Err(e),
                                Ok(tey_local) => match list_val(c.lkd_local@) {
                                    Err(e) => Err(e),
                                    Ok(lkd_local) => match list_val(c.nws_local@) {
                                        Err(e) => Err(e),
                                        Ok(nws_local) => match list_val(c.son_local@) {
                                            Err(e) => Err(e),
                                            Ok(son_local) => match list_val(c.dc_outer@) {
                                                Err(e) => Err(e),
                                                Ok(dc_outer) => Ok(
                                                    StoreRangeView {
                                                        jmj,
                                                        tey,
                                                        lkd,
                                                        nws,
                                                        son,
                                                        jmj_local,
                                                        tey_local,
                                                        lkd_local,
                                                        nws_local,
                                                        son_local,
                                                        dc_outer,
                                                    },
                                                ),
                                            },
                                        },
                                    },
                                },
                            },
                        },
                    },
                },
            },
        },
    }
}

/// Reads the configured range tables into a [`StoreRange`].
pub fn parse_config_store_ranges(config: &StoreRangeConfig) -> (r: Result<StoreRange, Error>)
    ensures
        match r {
            Ok(sr) => store_ranges_val(*config) == Ok::<StoreRangeView, ErrorKindView>(sr@),
            Err(e) => store_ranges_val(*config) == Err::<StoreRangeView, ErrorKindView>(e@),
        },
{
    let jmj = match parse_ranges(&config.jmj) {
        Ok(x) => x,
        Err(e) => {
            return Err(e);
        },
    };
    let tey = match parse_ranges(&config.tey) {
        Ok(x) => x,
        Err(e) => {
            return Err(e);
        },
    };
    let lkd = match parse_ranges(&config.lkd) {
        Ok(x) => x,
        Err(e) => {
            return Err(e);
        },
    };
    let nws = match parse_ranges(&config.nws) {
        Ok(x) => x,
        Err(e) => {
            return Err(e);
        },
    };
    let son = match parse_ranges(&config.son) {
        Ok(x) => x,
        Err(e) => {
            return Err(e);
        },
    };
    let jmj_local = match parse_ranges(&config.jmj_local) {
        Ok(x) => x,
        Err(e) => {
            return Err(e);
        },
    };
    let tey_local = match parse_ranges(&config.tey_local) {
        Ok(x) => x,
        Err(e) => {
            return Err(e);
        },
    };
    let lkd_local = match parse_ranges(&config.lkd_local) {
        Ok(x) => x,
        Err(e) => {
            return Err(e);
        },
    };
    let nws_local = match parse_ranges(&config.nws_local) {
        Ok(x) => x,
        Err(e) => {
            return Err(e);
        },
    };
    let son_local = match parse_ranges(&config.son_local) {
        Ok(x) => x,
        Err(e) => {
            return Err(e);
        },
    };
    let dc_outer = match parse_ranges(&config.dc_outer) {
        Ok(x) => x,
        Err(e) => {
            return Err(e);
        },
    };
    Ok(
        StoreRange {
            jmj,
            tey,
            lkd,
            nws,
            son,
            jmj_local,
            tey_local,
            lkd_local,
            nws_local,
            son_local,
            dc_outer,
        },
    )
}

} // verus!
