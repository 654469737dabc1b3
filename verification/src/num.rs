//! Verified parsing of unsigned integers and fixed-point decimal numbers.
//!
//! Quantities and amounts are fixed-point decimals: an `i64` holding the
//! value in units of one millionth (see [`SCALE`]). A numeric field may carry
//! a sign, thousands-separator commas, and up to six fractional digits.
use vstd::prelude::*;

verus! {

/// One unit of quantity or amount equals `SCALE` stored units.
pub const SCALE: i64 = 1000000;

/// Whether `c` is an ASCII decimal digit.
pub open spec fn is_ascii_digit(c: char) -> bool {
    '0' <= c && c <= '9'
}

/// The numeric value of an ASCII digit.
pub open spec fn digit_val(c: char) -> int {
    c as int - '0' as int
}

/// Whether every character of `s` is an ASCII decimal digit.
pub open spec fn all_digits(s: Seq<char>) -> bool {
    forall|i: int| 0 <= i < s.len() ==> is_ascii_digit(#[trigger] s[i])
}

/// The value of a digit string read in base ten.
pub open spec fn digits_val(s: Seq<char>) -> int
    decreases s.len(),
{
    if s.len() == 0 {
        0
    } else {
        digits_val(s.drop_last()) * 10 + digit_val(s.last())
    }
}

/// Ten to the power `n`.
pub open spec fn pow10(n: nat) -> int
    decreases n,
{
    if n == 0 {
        1
    } else {
        10 * pow10((n - 1) as nat)
    }
}

pub proof fn lemma_digits_val_bounds(s: Seq<char>)
    requires
        all_digits(s),
    ensures
        0 <= digits_val(s) < pow10(s.len()),
    decreases s.len(),
{
    if s.len() > 0 {
        assert(all_digits(s.drop_last()));
        lemma_digits_val_bounds(s.drop_last());
        assert(is_ascii_digit(s.last()));
    }
}

pub proof fn lemma_digits_val_prefix_le(s: Seq<char>, i: int)
    requires
        all_digits(s),
        0 <= i <= s.len(),
    ensures
        digits_val(s.take(i)) <= digits_val(s),
    decreases s.len(),
{
    if i < s.len() {
        assert(all_digits(s.drop_last()));
        lemma_digits_val_bounds(s.drop_last());
        assert(is_ascii_digit(s.last()));
        assert(s.drop_last().take(i) =~= s.take(i));
        lemma_digits_val_prefix_le(s.drop_last(), i);
    } else {
        assert(s.take(i) =~= s);
    }
}

/// The value of a non-empty digit string, when it does not exceed `cap`.
pub open spec fn digits_capped(d: Seq<char>, cap: u64) -> Option<u64> {
    if d.len() > 0 && all_digits(d) && digits_val(d) <= cap {
        Some(digits_val(d) as u64)
    } else {
        None
    }
}

/// Reads `s[from..to]` as a base-ten number of at most `cap`.
pub fn parse_digits_capped(s: &Vec<char>, from: usize, to: usize, cap: u64) -> (r: Option<u64>)
    requires
        from <= to <= s@.len(),
    ensures
        r == digits_capped(s@.subrange(from as int, to as int), cap),
{
    let ghost d = s@.subrange(from as int, to as int);
    if from == to {
        return None;
    }
    let mut cur: u64 = 0;
    let mut k: usize = from;
    while k < to
        invariant
            from <= k <= to <= s@.len(),
            d == s@.subrange(from as int, to as int),
            all_digits(d.take(k - from)),
            cur == digits_val(d.take(k - from)),
            cur <= cap,
        decreases to - k,
    {
        let c = s[k];
        proof {
            assert(d.take(k - from + 1).drop_last() =~= d.take(k - from));
            assert(d.take(k - from + 1).last() == d[k - from]);
            assert(d[k - from] == s@[k as int]);
        }
        if !('0' <= c && c <= '9') {
            proof {
                assert(!is_ascii_digit(d[k - from]));
            }
            return None;
        }
        let dv: u64 = (c as u32 as u64) - 48;
        proof {
            assert(dv == digit_val(d[k - from]));
        }
        if cur > cap / 10 || (cur == cap / 10 && dv > cap % 10) {
            proof {
                assert(digits_val(d.take(k - from + 1)) == cur * 10 + dv);
                assert(cap == (cap / 10) * 10 + cap % 10);
                assert(digits_val(d.take(k - from + 1)) > cap);
                if all_digits(d) {
                    lemma_digits_val_prefix_le(d, k - from + 1);
                }
            }
            return None;
        }
        proof {
            assert(cap == (cap / 10) * 10 + cap % 10);
            assert(cur * 10 + dv <= cap);
        }
        cur = cur * 10 + dv;
        k = k + 1;
    }
    proof {
        assert(d.take(to - from) =~= d);
    }
    Some(cur)
}

/// The index of the first occurrence of `c` in `s`.
pub open spec fn find_first(s: Seq<char>, c: char) -> Option<int>
    decreases s.len(),
{
    if s.len() == 0 {
        None
    } else if s[0] == c {
        Some(0)
    } else {
        match find_first(s.drop_first(), c) {
            None => None,
            Some(i) => Some(i + 1),
        }
    }
}

proof fn lemma_find_first_at(s: Seq<char>, c: char, i: int)
    requires
        0 <= i < s.len(),
        s[i] == c,
        forall|j: int| 0 <= j < i ==> s[j] != c,
    ensures
        find_first(s, c) == Some(i),
    decreases i,
{
    if i > 0 {
        lemma_find_first_at(s.drop_first(), c, i - 1);
    }
}

proof fn lemma_find_first_none(s: Seq<char>, c: char)
    requires
        forall|j: int| 0 <= j < s.len() ==> s[j] != c,
    ensures
        find_first(s, c) is None,
    decreases s.len(),
{
    if s.len() > 0 {
        lemma_find_first_none(s.drop_first(), c);
    }
}

/// Relies on `String::push`: appends one character at the end of the string.
#[verifier::external_body]
pub(crate) fn push_char(s: &mut String, c: char)
    ensures
        final(s)@ == old(s)@.push(c),
{
    s.push(c);
}

/// The characters `v[from..to]`, collected into a string.
pub(crate) fn chars_string(v: &Vec<char>, from: usize, to: usize) -> (r: String)
    requires
        from <= to <= v@.len(),
    ensures
        r@ == v@.subrange(from as int, to as int),
{
    let mut r = String::new();
    let mut i: usize = from;
    while i < to
        invariant
            from <= i <= to <= v@.len(),
            r@ == v@.subrange(from as int, i as int),
        decreases to - i,
    {
        push_char(&mut r, v[i]);
        proof {
            assert(v@.subrange(from as int, i + 1) =~= v@.subrange(from as int, i as int).push(
                v@[i as int],
            ));
        }
        i = i + 1;
    }
    r
}

/// Finds the first occurrence of `c` in `s[from..]`.
pub(crate) fn find_char_from(s: &Vec<char>, from: usize, c: char) -> (r: Option<usize>)
    requires
        from <= s@.len(),
    ensures
        ({
            let d = s@.skip(from as int);
            match r {
                Some(k) => from <= k < s@.len() && find_first(d, c) == Some(k - from),
                None => find_first(d, c) is None,
            }
        }),
{
    let ghost d = s@.skip(from as int);
    let mut k: usize = from;
    while k < s.len()
        invariant
            from <= k <= s@.len(),
            d == s@.skip(from as int),
            forall|j: int| 0 <= j < k - from ==> d[j] != c,
        decreases s@.len() - k,
    {
        if s[k] == c {
            proof {
                lemma_find_first_at(d, c, k - from);
            }
            return Some(k);
        }
        k = k + 1;
    }
    proof {
        lemma_find_first_none(d, c);
    }
    None
}

/// The magnitude and sign of a plain decimal string `t` (no commas), in
/// millionths: an optional sign, then digits with at most one point and at
/// most six fractional digits. `None` when `t` does not have that shape or
/// the value does not fit.
pub open spec fn decimal_val(t: Seq<char>) -> Option<i64> {
    let neg = t.len() > 0 && t[0] == '-';
    let body = if t.len() > 0 && (t[0] == '-' || t[0] == '+') {
        t.drop_first()
    } else {
        t
    };
    let intpart = match find_first(body, '.') {
        None => body,
        Some(k) => body.take(k),
    };
    let fracpart = match find_first(body, '.') {
        None => Seq::<char>::empty(),
        Some(k) => body.skip(k + 1),
    };
    if all_digits(intpart) && all_digits(fracpart) && intpart.len() + fracpart.len() > 0
        && fracpart.len() <= 6 {
        let m = digits_val(intpart) * (SCALE as int) + digits_val(fracpart) * pow10(
            (6 - fracpart.len()) as nat,
        );
        if m <= i64::MAX {
            if neg {
                Some((-m) as i64)
            } else {
                Some(m as i64)
            }
        } else {
            None
        }
    } else {
        None
    }
}

/// `s` without its comma characters.
pub open spec fn strip_commas(s: Seq<char>) -> Seq<char> {
    s.filter(|c: char| c != ',')
}

/// `s` with a zero prefixed when it starts with a decimal point.
pub open spec fn with_zero_prefix(s: Seq<char>) -> Seq<char> {
    if s.len() > 0 && s[0] == '.' {
        seq!['0'].add(s)
    } else {
        s
    }
}

/// The value of one numeric field, in millionths: the empty string counts as
/// zero; a leading point gains a zero; commas are stripped; the rest must be
/// a plain decimal number.
pub open spec fn csv_number_val(s: Seq<char>) -> Option<i64> {
    if s.len() == 0 {
        Some(0)
    } else {
        decimal_val(strip_commas(with_zero_prefix(s)))
    }
}

/// Collects the characters of `s`.
pub fn chars_vec(s: &str) -> (r: Vec<char>)
    ensures
        r@ == s@,
{
    let n = s.unicode_len();
    let mut r: Vec<char> = Vec::new();
    let mut i: usize = 0;
    while i < n
        invariant
            n == s@.len(),
            i <= n,
            r@ == s@.take(i as int),
        decreases n - i,
    {
        let c = s.get_char(i);
        r.push(c);
        proof {
            assert(s@.take(i + 1).drop_last() =~= s@.take(i as int));
            assert(r@ =~= s@.take(i + 1));
        }
        i = i + 1;
    }
    proof {
        assert(s@.take(n as int) =~= s@);
    }
    r
}

/// Ten to the power `e`, for small `e`.
fn pow10_u64(e: usize) -> (r: u64)
    requires
        e <= 6,
    ensures
        r == pow10(e as nat),
{
    proof {
        lemma_pow10_vals();
    }
    if e == 0 {
        1
    } else if e == 1 {
        10
    } else if e == 2 {
        100
    } else if e == 3 {
        1000
    } else if e == 4 {
        10000
    } else if e == 5 {
        100000
    } else {
        1000000
    }
}

/// Reads one numeric field into millionths, per [`csv_number_val`].
pub fn parse_fixed_number(s: &str) -> (r: Option<i64>)
    ensures
        r == csv_number_val(s@),
{
    if s.is_empty() {
        return Some(0);
    }
    let cs = chars_vec(s);
    let ghost t = with_zero_prefix(s@);
    let mut cleaned: Vec<char> = Vec::new();
    let prefixed = cs[0] == '.';
    if prefixed {
        cleaned.push('0');
    }
    let ghost shift: int = if prefixed {
        1
    } else {
        0
    };
    proof {
        assert(t.take(shift).filter(|c: char| c != ',') =~= cleaned@) by {
            reveal(Seq::filter);
            if prefixed {
                assert(t.take(1) =~= seq!['0']);
                assert(seq!['0'].drop_last() =~= Seq::<char>::empty());
            }
        }
    }
    let n = cs.len();
    let mut i: usize = 0;
    while i < n
        invariant
            n == cs@.len(),
            cs@ == s@,
            i <= n,
            t == with_zero_prefix(s@),
            shift == if prefixed { 1int } else { 0int },
            t =~= (if prefixed { seq!['0'].add(s@) } else { s@ }),
            cleaned@ == t.take(shift + i).filter(|c: char| c != ','),
        decreases n - i,
    {
        let c = cs[i];
        proof {
            reveal(Seq::filter);
            assert(t.take(shift + i + 1).drop_last() =~= t.take(shift + i));
            assert(t.take(shift + i + 1).last() == t[shift + i]);
            assert(t[shift + i] == s@[i as int]);
        }
        if c != ',' {
            cleaned.push(c);
        }
        i = i + 1;
    }
    proof {
        assert(t.take(shift + n) =~= t);
    }
    decimal_of_chars(&cleaned)
}

/// Reads a plain decimal string into millionths, per [`decimal_val`].
fn decimal_of_chars(cleaned: &Vec<char>) -> (r: Option<i64>)
    ensures
        r == decimal_val(cleaned@),
{
    let ghost t = cleaned@;
    let len = cleaned.len();
    let mut neg = false;
    let mut start: usize = 0;
    if len > 0 && (cleaned[0] == '-' || cleaned[0] == '+') {
        neg = cleaned[0] == '-';
        start = 1;
    }
    let ghost body = if t.len() > 0 && (t[0] == '-' || t[0] == '+') {
        t.drop_first()
    } else {
        t
    };
    proof {
        assert(body =~= t.skip(start as int));
    }
    let dot = find_char_from(cleaned, start, '.');
    let (int_to, frac_from): (usize, usize) = match dot {
        None => (len, len),
        Some(k) => (k, k + 1),
    };
    let ghost intpart = match find_first(body, '.') {
        None => body,
        Some(k) => body.take(k),
    };
    let ghost fracpart = match find_first(body, '.') {
        None => Seq::<char>::empty(),
        Some(k) => body.skip(k + 1),
    };
    proof {
        assert(intpart =~= t.subrange(start as int, int_to as int));
        assert(fracpart =~= t.subrange(frac_from as int, len as int));
    }
    if int_to == start && frac_from >= len {
        // no digits at all
        return None;
    }
    let frac_len = len - frac_from;
    if frac_len > 6 {
        return None;
    }
    // 9223372036854 == i64::MAX / SCALE
    let int_val: u64 = if int_to == start {
        0
    } else {
        match parse_digits_capped(cleaned, start, int_to, 9223372036854u64) {
            None => {
                proof {
                    lemma_pow10_vals();
                    if all_digits(intpart) && all_digits(fracpart) {
                        // the integer part alone already exceeds `i64::MAX`
                        lemma_digits_val_bounds(fracpart);
                        lemma_pow10_mono((6 - fracpart.len()) as nat, 6);
                        assert(digits_val(fracpart) * pow10((6 - fracpart.len()) as nat) >= 0) by (
                        nonlinear_arith)
                            requires
                                digits_val(fracpart) >= 0,
                                pow10((6 - fracpart.len()) as nat) >= 1,
                        ;
                        assert(digits_val(intpart) * (SCALE as int) > i64::MAX) by (nonlinear_arith)
                            requires
                                digits_val(intpart) >= 9223372036855,
                        ;
                    }
                }
                return None;
            },
            Some(v) => v,
        }
    };
    let frac_val: u64 = if frac_from >= len {
        0
    } else {
        match parse_digits_capped(cleaned, frac_from, len, 999999u64) {
            None => {
                proof {
                    if all_digits(fracpart) {
                        lemma_digits_val_bounds(fracpart);
                        lemma_pow10_mono(fracpart.len() as nat, 6);
                        lemma_pow10_vals();
                    }
                }
                return None;
            },
            Some(v) => v,
        }
    };
    proof {
        lemma_pow10_vals();
        lemma_digits_val_bounds(intpart);
        assert(int_val == digits_val(intpart));
        assert(int_val <= 9223372036854u64);
        lemma_digits_val_bounds(fracpart);
        assert(frac_val == digits_val(fracpart));
        assert(fracpart.len() == len - frac_from);
        lemma_pow10_add(fracpart.len() as nat, (6 - fracpart.len()) as nat);
        lemma_pow10_mono((6 - fracpart.len()) as nat, 6);
        assert(digits_val(fracpart) * pow10((6 - fracpart.len()) as nat) < pow10(6)) by (
        nonlinear_arith)
            requires
                0 <= digits_val(fracpart) < pow10(fracpart.len() as nat),
                pow10(fracpart.len() as nat) * pow10((6 - fracpart.len()) as nat) == pow10(6),
                1 <= pow10((6 - fracpart.len()) as nat),
        ;
        assert(digits_val(fracpart) * pow10((6 - fracpart.len()) as nat) >= 0) by (nonlinear_arith)
            requires
                digits_val(fracpart) >= 0,
                pow10((6 - fracpart.len()) as nat) >= 1,
        ;
    }
    let scaled_frac: u64 = frac_val * pow10_u64(6 - frac_len);
    let m: u64 = int_val * 1000000u64 + scaled_frac;
    if m > 9223372036854775807u64 {
        return None;
    }
    let mv: i64 = m as i64;
    if neg {
        Some(-mv)
    } else {
        Some(mv)
    }
}

/// Whether `c` has the Unicode `White_Space` property, as `char::is_whitespace`
/// has it.
pub open spec fn is_space(c: char) -> bool {
    c == ' ' || c == '\t' || c == '\n' || c == '\u{b}' || c == '\u{c}' || c == '\r' || c
        == '\u{85}' || c == '\u{a0}' || c == '\u{1680}' || ('\u{2000}' <= c && c <= '\u{200a}') || c
        == '\u{2028}' || c == '\u{2029}' || c == '\u{202f}' || c == '\u{205f}' || c == '\u{3000}'
}

fn is_space_char(c: char) -> (r: bool)
    ensures
        r == is_space(c),
{
    c == ' ' || c == '\t' || c == '\n' || c == '\u{b}' || c == '\u{c}' || c == '\r' || c
        == '\u{85}' || c == '\u{a0}' || c == '\u{1680}' || ('\u{2000}' <= c && c <= '\u{200a}') || c
        == '\u{2028}' || c == '\u{2029}' || c == '\u{202f}' || c == '\u{205f}' || c == '\u{3000}'
}

/// `s` without leading and trailing white space.
pub open spec fn trim_spec(s: Seq<char>) -> Seq<char>
    decreases s.len(),
{
    if s.len() == 0 {
        s
    } else if is_space(s[0]) {
        trim_spec(s.drop_first())
    } else if is_space(s.last()) {
        trim_spec(s.drop_last())
    } else {
        s
    }
}

/// The bounds of `v` without leading and trailing white space.
fn trim_bounds(v: &Vec<char>) -> (r: (usize, usize))
    ensures
        r.0 <= r.1 <= v@.len(),
        trim_spec(v@) == v@.subrange(r.0 as int, r.1 as int),
{
    let mut lo: usize = 0;
    let mut hi: usize = v.len();
    proof {
        assert(v@.subrange(0, v@.len() as int) =~= v@);
    }
    while lo < hi
        invariant
            lo <= hi <= v@.len(),
            trim_spec(v@) == trim_spec(v@.subrange(lo as int, hi as int)),
        decreases hi - lo,
    {
        let ghost cur = v@.subrange(lo as int, hi as int);
        if is_space_char(v[lo]) {
            proof {
                assert(cur.drop_first() =~= v@.subrange(lo + 1, hi as int));
            }
            lo = lo + 1;
        } else if is_space_char(v[hi - 1]) {
            proof {
                assert(cur.drop_last() =~= v@.subrange(lo as int, hi - 1));
            }
            hi = hi - 1;
        } else {
            proof {
                assert(trim_spec(cur) == cur);
            }
            return (lo, hi);
        }
    }
    proof {
        assert(v@.subrange(lo as int, hi as int).len() == 0);
    }
    (lo, hi)
}

/// The value of an unsigned integer field: an optional plus sign, then
/// decimal digits, as `u32::from_str` and its relatives read it.
pub open spec fn uint_val(s: Seq<char>) -> Option<int> {
    let body = if s.len() > 0 && s[0] == '+' {
        s.drop_first()
    } else {
        s
    };
    if body.len() > 0 && all_digits(body) {
        Some(digits_val(body))
    } else {
        None
    }
}

/// [`uint_val`] cut off at `cap`: a value above the cap reads as nothing.
pub open spec fn uint_val_capped(s: Seq<char>, cap: u64) -> Option<u64> {
    match uint_val(s) {
        Some(n) => if n <= cap {
            Some(n as u64)
        } else {
            None
        },
        None => None,
    }
}

/// Reads `s[from..to]` as an unsigned integer of at most `cap`.
pub(crate) fn parse_uint_capped(s: &Vec<char>, from: usize, to: usize, cap: u64) -> (r: Option<u64>)
    requires
        from <= to <= s@.len(),
    ensures
        r == uint_val_capped(s@.subrange(from as int, to as int), cap),
        r matches Some(v) ==> v <= cap && uint_val(s@.subrange(from as int, to as int)) == Some(
            v as int,
        ),
{
    let ghost whole = s@.subrange(from as int, to as int);
    let body_from = if from < to && s[from] == '+' {
        from + 1
    } else {
        from
    };
    let ghost body = if whole.len() > 0 && whole[0] == '+' {
        whole.drop_first()
    } else {
        whole
    };
    proof {
        assert(body =~= s@.subrange(body_from as int, to as int));
        if body.len() > 0 && all_digits(body) {
            lemma_digits_val_bounds(body);
        }
    }
    parse_digits_capped(s, body_from, to, cap)
}

/// Reads a whole string as a `u32`, as `u32::from_str` does.
pub fn parse_u32_str(s: &str) -> (r: Option<u32>)
    ensures
        r == match uint_val(s@) {
            Some(n) => if n <= u32::MAX {
                Some(n as u32)
            } else {
                None::<u32>
            },
            None => None::<u32>,
        },
{
    let cs = chars_vec(s);
    proof {
        assert(cs@.subrange(0, cs@.len() as int) =~= s@);
    }
    match parse_uint_capped(&cs, 0, cs.len(), 0xffff_ffffu64) {
        Some(v) => Some(v as u32),
        None => None,
    }
}

/// Reads a string as a `u16` after trimming white space, as
/// `str::trim` and `u16::from_str` do.
pub fn parse_u16_trimmed(s: &str) -> (r: Option<u16>)
    ensures
        r == match uint_val(trim_spec(s@)) {
            Some(n) => if n <= u16::MAX {
                Some(n as u16)
            } else {
                None::<u16>
            },
            None => None::<u16>,
        },
{
    let cs = chars_vec(s);
    let (lo, hi) = trim_bounds(&cs);
    match parse_uint_capped(&cs, lo, hi, 0xffffu64) {
        Some(v) => Some(v as u16),
        None => None,
    }
}

/// Reads a whole string as a `u64`, as `u64::from_str` does.
pub fn parse_u64_str(s: &str) -> (r: Option<u64>)
    ensures
        r == uint_val_capped(s@, u64::MAX),
{
    let cs = chars_vec(s);
    proof {
        assert(cs@.subrange(0, cs@.len() as int) =~= s@);
    }
    parse_uint_capped(&cs, 0, cs.len(), 0xffff_ffff_ffff_ffffu64)
}

/// The small powers of ten, written out.
proof fn lemma_pow10_vals()
    ensures
        pow10(0) == 1,
        pow10(1) == 10,
        pow10(2) == 100,
        pow10(3) == 1000,
        pow10(4) == 10000,
        pow10(5) == 100000,
        pow10(6) == 1000000,
{
    reveal_with_fuel(pow10, 8);
}

proof fn lemma_pow10_mono(a: nat, b: nat)
    requires
        a <= b,
    ensures
        pow10(a) <= pow10(b),
        pow10(a) >= 1,
    decreases b,
{
    if a == b {
        if a > 0 {
            lemma_pow10_mono((a - 1) as nat, (b - 1) as nat);
        }
    } else {
        lemma_pow10_mono(a, (b - 1) as nat);
    }
}

proof fn lemma_pow10_add(a: nat, b: nat)
    ensures
        pow10(a) * pow10(b) == pow10(a + b),
    decreases a,
{
    if a > 0 {
        lemma_pow10_add((a - 1) as nat, b);
        assert(pow10(a) * pow10(b) == 10 * (pow10((a - 1) as nat) * pow10(b))) by (nonlinear_arith)
            requires
                pow10(a) == 10 * pow10((a - 1) as nat),
        ;
    }
}

} // verus!
