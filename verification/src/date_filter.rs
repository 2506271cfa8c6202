//! Date recognition and date-range filtering: interpreting arbitrary
//! strings as calendar dates by an ordered list of formats, building the
//! filter configuration, and dropping rows outside an inclusive range.

use vstd::prelude::*;
use crate::text::{str_eq, to_chars};
use crate::types::{rows_view, strs_view, Date, DateFilter, FilterConfigError, FilterError};

verus! {

/// The year, month, and day of a date as plain integers.
pub open spec fn date_view(d: Date) -> (int, int, int) {
    (d.year as int, d.month as int, d.day as int)
}

/// The view of an optional date.
pub open spec fn date_opt_view(r: Option<Date>) -> Option<(int, int, int)> {
    match r {
        Some(d) => Some(date_view(d)),
        None => None,
    }
}

/// Calendar order on year-month-day triples.
pub open spec fn ymd_le(a: (int, int, int), b: (int, int, int)) -> bool {
    if a.0 != b.0 {
        a.0 < b.0
    } else if a.1 != b.1 {
        a.1 < b.1
    } else {
        a.2 <= b.2
    }
}

/// What parsing a string as an RFC 3339 timestamp yields: the calendar
/// date of the timestamp, or nothing. Depends on the string alone.
pub uninterp spec fn rfc3339_date_of(s: Seq<char>) -> Option<(int, int, int)>;

/// What parsing a string as a date-and-time value under a given format
/// yields: the date portion, or nothing. Depends on the string and the
/// format alone.
pub uninterp spec fn datetime_format_date(s: Seq<char>, fmt: Seq<char>) -> Option<(int, int, int)>;

/// What parsing a string as a date-only value under a given format
/// yields, or nothing. Depends on the string and the format alone.
pub uninterp spec fn date_format_date(s: Seq<char>, fmt: Seq<char>) -> Option<(int, int, int)>;

/// What interpreting an integer as seconds since the epoch yields: the
/// calendar date of that moment, or nothing when it lies outside the
/// representable range. Depends on the integer alone.
pub uninterp spec fn epoch_secs_date(secs: int) -> Option<(int, int, int)>;

/// Relies on chrono DateTime::parse_from_rfc3339 and date_naive: the
/// calendar date of an RFC 3339 timestamp; chrono dates always carry a
/// month and day in calendar bounds.
#[verifier::external_body]
fn parse_rfc3339_date(s: &str) -> (r: Option<Date>)
    ensures
        date_opt_view(r) == rfc3339_date_of(s@),
        r matches Some(d) ==> d.wf(),
{
    match chrono::DateTime::<chrono::FixedOffset>::parse_from_rfc3339(s) {
        Ok(dt) => {
            let nd = dt.date_naive();
            Some(Date {
                year: chrono::Datelike::year(&nd),
                month: chrono::Datelike::month(&nd) as u8,
                day: chrono::Datelike::day(&nd) as u8,
            })
        },
        Err(_) => None,
    }
}

/// Relies on chrono NaiveDateTime::parse_from_str and date: the date
/// portion of a parsed date-and-time string; chrono dates always carry a
/// month and day in calendar bounds.
#[verifier::external_body]
fn parse_datetime_date(s: &str, fmt: &str) -> (r: Option<Date>)
    ensures
        date_opt_view(r) == datetime_format_date(s@, fmt@),
        r matches Some(d) ==> d.wf(),
{
    match chrono::NaiveDateTime::parse_from_str(s, fmt) {
        Ok(dt) => {
            let nd = dt.date();
            Some(Date {
                year: chrono::Datelike::year(&nd),
                month: chrono::Datelike::month(&nd) as u8,
                day: chrono::Datelike::day(&nd) as u8,
            })
        },
        Err(_) => None,
    }
}

/// Relies on chrono NaiveDate::parse_from_str: a date parsed under the
/// given format; chrono dates always carry a month and day in calendar
/// bounds.
#[verifier::external_body]
fn parse_date_format(s: &str, fmt: &str) -> (r: Option<Date>)
    ensures
        date_opt_view(r) == date_format_date(s@, fmt@),
        r matches Some(d) ==> d.wf(),
{
    match chrono::NaiveDate::parse_from_str(s, fmt) {
        Ok(nd) => Some(Date {
            year: chrono::Datelike::year(&nd),
            month: chrono::Datelike::month(&nd) as u8,
            day: chrono::Datelike::day(&nd) as u8,
        }),
        Err(_) => None,
    }
}

/// Relies on chrono DateTime::from_timestamp and date_naive: the calendar
/// date of a moment given in seconds since the epoch; chrono dates always
/// carry a month and day in calendar bounds.
#[verifier::external_body]
fn date_from_epoch_seconds(secs: i64) -> (r: Option<Date>)
    ensures
        date_opt_view(r) == epoch_secs_date(secs as int),
        r matches Some(d) ==> d.wf(),
{
    match chrono::DateTime::from_timestamp(secs, 0) {
        Some(dt) => {
            let nd = dt.date_naive();
            Some(Date {
                year: chrono::Datelike::year(&nd),
                month: chrono::Datelike::month(&nd) as u8,
                day: chrono::Datelike::day(&nd) as u8,
            })
        },
        None => None,
    }
}

/// Relies on chrono Local::now and date_naive: whatever moment the clock
/// reports, the result is a date with its month and day in calendar
/// bounds.
#[verifier::external_body]
fn current_date() -> (r: Date)
    ensures
        r.wf(),
{
    let nd = chrono::Local::now().date_naive();
    Date {
        year: chrono::Datelike::year(&nd),
        month: chrono::Datelike::month(&nd) as u8,
        day: chrono::Datelike::day(&nd) as u8,
    }
}

/// Whether the character is a decimal digit.
pub open spec fn dec_digit(c: char) -> bool {
    '0' <= c && c <= '9'
}

/// The numeric value of a decimal digit character.
pub open spec fn digit_val(c: char) -> int {
    c as int - '0' as int
}

/// Whether every character of the sequence is a decimal digit.
pub open spec fn all_digits(s: Seq<char>) -> bool {
    forall|i: int| 0 <= i < s.len() ==> dec_digit(s[i])
}

/// The value of a sequence of decimal digits.
pub open spec fn digits_value(s: Seq<char>) -> int
    decreases s.len(),
{
    if s.len() == 0 {
        0
    } else {
        digits_value(s.drop_last()) * 10 + digit_val(s.last())
    }
}

/// The signed value of a digit sequence under an optional leading minus.
pub open spec fn signed_digits(ds: Seq<char>, neg: bool) -> Option<int> {
    if ds.len() > 0 && all_digits(ds) {
        let v = if neg {
            -digits_value(ds)
        } else {
            digits_value(ds)
        };
        if i64::MIN <= v <= i64::MAX {
            Some(v)
        } else {
            None
        }
    } else {
        None
    }
}

/// What `str::parse::<i64>` yields: an optional sign followed by decimal
/// digits whose value fits in a 64-bit signed integer.
pub open spec fn spec_parse_i64(s: Seq<char>) -> Option<int> {
    if s.len() > 0 && (s[0] == '+' || s[0] == '-') {
        signed_digits(s.drop_first(), s[0] == '-')
    } else {
        signed_digits(s, false)
    }
}

/// Powers of ten.
pub open spec fn pow10(n: nat) -> int
    decreases n,
{
    if n == 0 {
        1
    } else {
        10 * pow10((n - 1) as nat)
    }
}

/// Every power of ten is positive.
proof fn lemma_pow10_pos(n: nat)
    ensures
        pow10(n) >= 1,
    decreases n,
{
    if n > 0 {
        lemma_pow10_pos((n - 1) as nat);
    }
}

/// Powers of ten grow with the exponent.
proof fn lemma_pow10_mono(a: nat, b: nat)
    requires
        a <= b,
    ensures
        pow10(a) <= pow10(b),
    decreases b,
{
    if a < b {
        lemma_pow10_mono(a, (b - 1) as nat);
        lemma_pow10_pos((b - 1) as nat);
    }
}

/// The two powers of ten bracketing the 64-bit signed range.
proof fn lemma_pow10_values()
    ensures
        pow10(18) == 1000000000000000000,
        pow10(19) == 10000000000000000000,
{
    reveal_with_fuel(pow10, 21);
}

/// A digit sequence's value lies below ten to its length.
proof fn lemma_digits_value_bounds(s: Seq<char>)
    requires
        all_digits(s),
    ensures
        0 <= digits_value(s) < pow10(s.len()),
    decreases s.len(),
{
    if s.len() > 0 {
        assert(all_digits(s.drop_last()));
        lemma_digits_value_bounds(s.drop_last());
        assert(dec_digit(s.last()));
    }
}

/// A digit sequence with a non-zero first digit reaches ten to one less
/// than its length.
proof fn lemma_digits_value_lower(s: Seq<char>)
    requires
        all_digits(s),
        s.len() > 0,
        s[0] != '0',
    ensures
        digits_value(s) >= pow10((s.len() - 1) as nat),
    decreases s.len(),
{
    assert(dec_digit(s[0]));
    assert(dec_digit(s.last()));
    if s.len() == 1 {
        assert(s.drop_last() =~= Seq::<char>::empty());
        assert('0' < s[0]);
        assert(digits_value(Seq::<char>::empty()) == 0);
        assert(digits_value(s) == digit_val(s[0]));
        assert(digit_val(s[0]) >= 1);
    } else {
        assert(all_digits(s.drop_last()));
        assert(s.drop_last()[0] == s[0]);
        lemma_digits_value_lower(s.drop_last());
        assert(pow10((s.len() - 1) as nat) == 10 * pow10((s.len() - 2) as nat));
        assert(digit_val(s.last()) >= 0);
    }
}

/// A leading zero does not change a digit sequence's value.
proof fn lemma_digits_skip_zero(s: Seq<char>)
    requires
        s.len() > 0,
        s[0] == '0',
    ensures
        digits_value(s) == digits_value(s.drop_first()),
    decreases s.len(),
{
    if s.len() == 1 {
        assert(s.drop_last() =~= Seq::<char>::empty());
        assert(s.drop_first() =~= Seq::<char>::empty());
    } else {
        assert(s.drop_last()[0] == s[0]);
        lemma_digits_skip_zero(s.drop_last());
        assert(s.drop_last().drop_first() =~= s.drop_first().drop_last());
        assert(s.drop_first().last() == s.last());
    }
}

/// Parses a string as a 64-bit signed integer: an optional sign followed
/// by decimal digits whose value fits in the type.
fn parse_i64(s: &str) -> (r: Option<i64>)
    ensures
        r matches Some(v) ==> spec_parse_i64(s@) == Some(v as int),
        r is None ==> spec_parse_i64(s@) is None,
{
    let v = to_chars(s);
    let n = v.len();
    let mut start: usize = 0;
    let mut neg = false;
    if n > 0 && (v[0] == '+' || v[0] == '-') {
        neg = v[0] == '-';
        start = 1;
    }
    let ghost ds: Seq<char> = s@.subrange(start as int, n as int);
    proof {
        if start == 1 {
            assert(ds =~= s@.drop_first());
        } else {
            assert(ds =~= s@);
        }
        assert(spec_parse_i64(s@) == signed_digits(ds, neg));
    }
    if start >= n {
        return None;
    }
    let mut j: usize = start;
    while j < n
        invariant
            start <= j <= n,
            start <= 1,
            n == v@.len(),
            v@ == s@,
            ds == s@.subrange(start as int, n as int),
            spec_parse_i64(s@) == signed_digits(ds, neg),
            forall|q: int| 0 <= q < j - start ==> dec_digit(ds[q]),
        decreases n - j,
    {
        let c = v[j];
        proof {
            assert(ds[j - start] == s@[j as int]);
        }
        if c < '0' || c > '9' {
            proof {
                assert(!dec_digit(ds[j - start]));
                assert(!all_digits(ds)) by {
                    if all_digits(ds) {
                        assert(dec_digit(ds[j - start]));
                    }
                }
                assert(signed_digits(ds, neg) is None);
            }
            return None;
        }
        j = j + 1;
    }
    proof {
        assert(all_digits(ds));
    }
    let mut k: usize = start;
    while k < n && v[k] == '0'
        invariant
            start <= k <= n,
            n == v@.len(),
            v@ == s@,
            ds == s@.subrange(start as int, n as int),
            all_digits(ds),
            digits_value(ds) == digits_value(s@.subrange(k as int, n as int)),
        decreases n - k,
    {
        proof {
            let cur = s@.subrange(k as int, n as int);
            assert(cur[0] == s@[k as int]);
            lemma_digits_skip_zero(cur);
            assert(cur.drop_first() =~= s@.subrange(k + 1 as int, n as int));
        }
        k = k + 1;
    }
    let ghost tail = s@.subrange(k as int, n as int);
    proof {
        assert(forall|q: int| 0 <= q < tail.len() ==> tail[q] == ds[q + k - start]);
        assert(all_digits(tail));
    }
    if k == n {
        proof {
            assert(tail.len() == 0);
            assert(digits_value(ds) == 0);
        }
        return Some(0);
    }
    let m = n - k;
    proof {
        assert(tail[0] == s@[k as int]);
        lemma_pow10_values();
    }
    if m > 19 {
        proof {
            lemma_digits_value_lower(tail);
            lemma_pow10_mono(19, (m - 1) as nat);
        }
        return None;
    }
    let mut acc: u64 = 0;
    let mut idx: usize = k;
    proof {
        assert(tail.subrange(0, 0) =~= Seq::<char>::empty());
    }
    while idx < n
        invariant
            k <= idx <= n,
            n == v@.len(),
            v@ == s@,
            m == n - k,
            m <= 19,
            tail == s@.subrange(k as int, n as int),
            all_digits(tail),
            acc as int == digits_value(tail.subrange(0, idx - k)),
            (acc as int) < pow10((idx - k) as nat),
            pow10(18) == 1000000000000000000,
            pow10(19) == 10000000000000000000,
        decreases n - idx,
    {
        let c = v[idx];
        proof {
            assert(tail[idx - k] == s@[idx as int]);
            assert(dec_digit(tail[idx - k]));
            let pre = tail.subrange(0, idx - k);
            let pre1 = tail.subrange(0, idx - k + 1);
            assert(pre1.drop_last() =~= pre);
            assert(pre1.last() == tail[idx - k]);
            lemma_pow10_mono((idx - k) as nat, 18);
        }
        let d: u64 = (c as u32 - '0' as u32) as u64;
        proof {
            assert(d as int == digit_val(s@[idx as int]));
        }
        acc = acc * 10 + d;
        idx = idx + 1;
    }
    proof {
        assert(tail.subrange(0, m as int) =~= tail);
        assert(acc as int == digits_value(ds));
    }
    if neg {
        if acc > 9223372036854775808u64 {
            return None;
        }
        if acc == 9223372036854775808u64 {
            return Some(i64::MIN);
        }
        return Some(-(acc as i64));
    }
    if acc > 9223372036854775807u64 {
        return None;
    }
    Some(acc as i64)
}

/// Division by 1000 rounding toward zero, as the epoch fallback divides a
/// millisecond count down to seconds.
pub open spec fn spec_div1000(t: int) -> int {
    if t >= 0 {
        t / 1000
    } else {
        -((-t) / 1000)
    }
}

/// Divides by 1000, rounding toward zero.
fn div1000_trunc(t: i64) -> (q: i64)
    ensures
        q as int == spec_div1000(t as int),
{
    if t >= 0 {
        let m: u64 = t as u64;
        (m / 1000) as i64
    } else {
        let m: u64 = if t == i64::MIN {
            9223372036854775808u64
        } else {
            (-t) as u64
        };
        let q0: u64 = m / 1000;
        -(q0 as i64)
    }
}

/// The date recognized from an arbitrary string, trying in order: RFC
/// 3339 timestamp; date-and-time under four formats; date-only under
/// seven formats; then a signed integer taken first as epoch milliseconds
/// and then as epoch seconds. The first success wins.
pub open spec fn spec_recognize_date(s: Seq<char>) -> Option<(int, int, int)> {
    if rfc3339_date_of(s) is Some {
        rfc3339_date_of(s)
    } else if datetime_format_date(s, "%Y-%m-%d %H:%M:%S"@) is Some {
        datetime_format_date(s, "%Y-%m-%d %H:%M:%S"@)
    } else if datetime_format_date(s, "%Y-%m-%dT%H:%M:%S"@) is Some {
        datetime_format_date(s, "%Y-%m-%dT%H:%M:%S"@)
    } else if datetime_format_date(s, "%Y-%m-%d %H:%M:%S%.f"@) is Some {
        datetime_format_date(s, "%Y-%m-%d %H:%M:%S%.f"@)
    } else if datetime_format_date(s, "%Y-%m-%dT%H:%M:%S%.f"@) is Some {
        datetime_format_date(s, "%Y-%m-%dT%H:%M:%S%.f"@)
    } else if date_format_date(s, "%Y-%m-%d"@) is Some {
        date_format_date(s, "%Y-%m-%d"@)
    } else if date_format_date(s, "%Y-%m-%d %H:%M:%S"@) is Some {
        date_format_date(s, "%Y-%m-%d %H:%M:%S"@)
    } else if date_format_date(s, "%Y-%m-%dT%H:%M:%S"@) is Some {
        date_format_date(s, "%Y-%m-%dT%H:%M:%S"@)
    } else if date_format_date(s, "%Y-%m-%d %H:%M:%S%.f"@) is Some {
        date_format_date(s, "%Y-%m-%d %H:%M:%S%.f"@)
    } else if date_format_date(s, "%Y-%m-%dT%H:%M:%S%.f"@) is Some {
        date_format_date(s, "%Y-%m-%dT%H:%M:%S%.f"@)
    } else if date_format_date(s, "%m/%d/%Y"@) is Some {
        date_format_date(s, "%m/%d/%Y"@)
    } else if date_format_date(s, "%d/%m/%Y"@) is Some {
        date_format_date(s, "%d/%m/%Y"@)
    } else {
        spec_epoch_fallback(s)
    }
}

/// The epoch fallback: a string that parses as a signed integer is taken
/// first as milliseconds since the epoch, then as seconds.
pub open spec fn spec_epoch_fallback(s: Seq<char>) -> Option<(int, int, int)> {
    match spec_parse_i64(s) {
        Some(t) => if epoch_secs_date(spec_div1000(t)) is Some {
            epoch_secs_date(spec_div1000(t))
        } else {
            epoch_secs_date(t)
        },
        None => None,
    }
}

/// Attempts to interpret an arbitrary string as a calendar date, trying
/// an ordered list of formats and returning the first success.
pub fn parse_date_value(value: &str) -> (r: Option<Date>)
    ensures
        date_opt_view(r) == spec_recognize_date(value@),
        r matches Some(d) ==> d.wf(),
{
    match parse_rfc3339_date(value) {
        Some(d) => {
            return Some(d);
        },
        None => {},
    }
    match parse_datetime_date(value, "%Y-%m-%d %H:%M:%S") {
        Some(d) => {
            return Some(d);
        },
        None => {},
    }
    match parse_datetime_date(value, "%Y-%m-%dT%H:%M:%S") {
        Some(d) => {
            return Some(d);
        },
        None => {},
    }
    match parse_datetime_date(value, "%Y-%m-%d %H:%M:%S%.f") {
        Some(d) => {
            return Some(d);
        },
        None => {},
    }
    match parse_datetime_date(value, "%Y-%m-%dT%H:%M:%S%.f") {
        Some(d) => {
            return Some(d);
        },
        None => {},
    }
    match parse_date_format(value, "%Y-%m-%d") {
        Some(d) => {
            return Some(d);
        },
        None => {},
    }
    match parse_date_format(value, "%Y-%m-%d %H:%M:%S") {
        Some(d) => {
            return Some(d);
        },
        None => {},
    }
    match parse_date_format(value, "%Y-%m-%dT%H:%M:%S") {
        Some(d) => {
            return Some(d);
        },
        None => {},
    }
    match parse_date_format(value, "%Y-%m-%d %H:%M:%S%.f") {
        Some(d) => {
            return Some(d);
        },
        None => {},
    }
    match parse_date_format(value, "%Y-%m-%dT%H:%M:%S%.f") {
        Some(d) => {
            return Some(d);
        },
        None => {},
    }
    match parse_date_format(value, "%m/%d/%Y") {
        Some(d) => {
            return Some(d);
        },
        None => {},
    }
    match parse_date_format(value, "%d/%m/%Y") {
        Some(d) => {
            return Some(d);
        },
        None => {},
    }
    let t = match parse_i64(value) {
        Some(t) => t,
        None => {
            return None;
        },
    };
    let q = div1000_trunc(t);
    match date_from_epoch_seconds(q) {
        Some(d) => {
            return Some(d);
        },
        None => {},
    }
    date_from_epoch_seconds(t)
}

/// The position of the first occurrence of the filter flag in the
/// argument list, searching from position `i`.
pub open spec fn flag_pos_from(args: Seq<Seq<char>>, i: int) -> Option<int>
    decreases args.len() - i,
{
    if i < 0 || i >= args.len() {
        None
    } else if args[i] == "--date-filter"@ {
        Some(i)
    } else {
        flag_pos_from(args, i + 1)
    }
}

/// The position of the first `--date-filter` flag, if any.
pub open spec fn spec_flag_pos(args: Seq<Seq<char>>) -> Option<int> {
    flag_pos_from(args, 0)
}

/// What a successful filter construction from a column name, a parsed
/// start date, and an end date must yield: the filter with exactly those
/// fields when the range is ordered, and a start-after-end error
/// otherwise.
pub open spec fn filter_built(
    col: Seq<char>,
    st: (int, int, int),
    en: (int, int, int),
    r: Result<Option<DateFilter>, FilterConfigError>,
) -> bool {
    if ymd_le(st, en) {
        &&& r matches Ok(of)
        &&& of matches Some(f)
        &&& f.spec_column() == col
        &&& date_view(f.spec_start()) == st
        &&& date_view(f.spec_end()) == en
        &&& f.wf()
    } else {
        r == Result::<Option<DateFilter>, FilterConfigError>::Err(FilterConfigError::StartAfterEnd)
    }
}

/// The full outcome of building a date filter from an argument list,
/// given the date standing in for today: no flag yields no filter;
/// missing arguments, an unparseable date, and a start after the end each
/// yield their error; otherwise the filter holds exactly the parsed
/// column, start, and end, the end defaulting to today.
pub open spec fn spec_filter_outcome(
    a: Seq<Seq<char>>,
    today: Date,
    r: Result<Option<DateFilter>, FilterConfigError>,
) -> bool {
    match spec_flag_pos(a) {
        None => r matches Ok(of) && of is None,
        Some(pos) => if a.len() < pos + 3 {
            r == Result::<Option<DateFilter>, FilterConfigError>::Err(
                FilterConfigError::MissingArguments,
            )
        } else {
            match date_format_date(a[pos + 2], "%Y-%m-%d"@) {
                None => r == Result::<Option<DateFilter>, FilterConfigError>::Err(
                    FilterConfigError::InvalidStartDate,
                ),
                Some(st) => if a.len() > pos + 3 {
                    match date_format_date(a[pos + 3], "%Y-%m-%d"@) {
                        None => r == Result::<Option<DateFilter>, FilterConfigError>::Err(
                            FilterConfigError::InvalidEndDate,
                        ),
                        Some(en) => filter_built(a[pos + 1], st, en, r),
                    }
                } else {
                    filter_built(a[pos + 1], st, date_view(today), r)
                },
            }
        },
    }
}

/// Builds a date filter from an argument list, with `today` standing in
/// for the end date when none is given.
pub fn build_date_filter(args: &Vec<String>, today: Date) -> (r: Result<
    Option<DateFilter>,
    FilterConfigError,
>)
    ensures
        spec_filter_outcome(strs_view(args@), today, r),
{
    let ghost a = strs_view(args@);
    let n = args.len();
    let mut i: usize = 0;
    while i < n && !str_eq(args[i].as_str(), "--date-filter")
        invariant
            n == args@.len(),
            i <= n,
            a == strs_view(args@),
            spec_flag_pos(a) == flag_pos_from(a, i as int),
        decreases n - i,
    {
        proof {
            assert(a[i as int] == args@[i as int]@);
        }
        i = i + 1;
    }
    if i >= n {
        proof {
            assert(spec_flag_pos(a) is None);
        }
        return Ok(None);
    }
    proof {
        assert(a[i as int] == args@[i as int]@);
        assert(spec_flag_pos(a) == Some(i as int));
    }
    let pos = i;
    if n - pos < 3 {
        return Err(FilterConfigError::MissingArguments);
    }
    let column_name = args[pos + 1].clone();
    let start = match parse_date_format(args[pos + 2].as_str(), "%Y-%m-%d") {
        Some(d) => d,
        None => {
            return Err(FilterConfigError::InvalidStartDate);
        },
    };
    let end = if n > pos + 3 {
        match parse_date_format(args[pos + 3].as_str(), "%Y-%m-%d") {
            Some(d) => d,
            None => {
                return Err(FilterConfigError::InvalidEndDate);
            },
        }
    } else {
        today
    };
    proof {
        assert(ymd_le(date_view(start), date_view(end)) == start.spec_le(end));
    }
    match DateFilter::new(column_name, start, end) {
        Ok(f) => Ok(Some(f)),
        Err(e) => Err(e),
    }
}

/// Builds a date filter from an argument list; when no end date is given
/// it defaults to the current local calendar date, so the outcome holds
/// for some well-formed date standing in for today.
pub fn parse_date_filter(args: &Vec<String>) -> (r: Result<
    Option<DateFilter>,
    FilterConfigError,
>)
    ensures
        exists|today: Date|
            today.wf() && #[trigger] spec_filter_outcome(strs_view(args@), today, r),
{
    let today = current_date();
    let r = build_date_filter(args, today);
    proof {
        assert(spec_filter_outcome(strs_view(args@), today, r));
    }
    r
}

/// The position of the first header equal to `name`, if any.
pub open spec fn col_index_of(headers: Seq<Seq<char>>, name: Seq<char>) -> Option<int> {
    header_pos_from(headers, name, 0)
}

/// The position of the first header equal to `name`, searching from `i`.
pub open spec fn header_pos_from(headers: Seq<Seq<char>>, name: Seq<char>, i: int) -> Option<int>
    decreases headers.len() - i,
{
    if i < 0 || i >= headers.len() {
        None
    } else if headers[i] == name {
        Some(i)
    } else {
        header_pos_from(headers, name, i + 1)
    }
}

/// Whether a row is kept by the filter: it reaches the filtered column,
/// the cell is recognized as a date, and that date lies in the inclusive
/// range.
pub open spec fn keep_row(
    row: Seq<Seq<char>>,
    idx: int,
    start: (int, int, int),
    end: (int, int, int),
) -> bool {
    idx < row.len() && (spec_recognize_date(row[idx]) matches Some(t) && ymd_le(start, t)
        && ymd_le(t, end))
}

/// The rows kept by the filter, in order.
pub open spec fn filter_rows(
    rows: Seq<Seq<Seq<char>>>,
    idx: int,
    start: (int, int, int),
    end: (int, int, int),
) -> Seq<Seq<Seq<char>>>
    decreases rows.len(),
{
    if rows.len() == 0 {
        Seq::empty()
    } else {
        let rest = filter_rows(rows.drop_last(), idx, start, end);
        if keep_row(rows.last(), idx, start, end) {
            rest.push(rows.last())
        } else {
            rest
        }
    }
}

/// Copies a row of values.
fn clone_row(row: &Vec<String>) -> (r: Vec<String>)
    ensures
        r@ == row@,
{
    let mut r: Vec<String> = Vec::new();
    let mut i: usize = 0;
    while i < row.len()
        invariant
            i <= row@.len(),
            r@ == row@.subrange(0, i as int),
        decreases row@.len() - i,
    {
        r.push(row[i].clone());
        proof {
            assert(r@ =~= row@.subrange(0, i + 1 as int));
        }
        i = i + 1;
    }
    proof {
        assert(r@ =~= row@);
    }
    r
}

/// Returns the subset of rows whose value in the filter's column is
/// recognized as a date within the inclusive range. A row too short to
/// reach the column, or whose cell is not recognized as a date, is
/// excluded. Fails only when the filter's column is absent from the
/// header.
pub fn apply_date_filter(headers: &Vec<String>, rows: &Vec<Vec<String>>, filter: &DateFilter) -> (r:
    Result<Vec<Vec<String>>, FilterError>)
    ensures
        col_index_of(strs_view(headers@), filter.spec_column()) is None ==> (r matches Err(e) && e
            == FilterError::ColumnMissing),
        col_index_of(strs_view(headers@), filter.spec_column()) matches Some(idx) ==> (r matches Ok(
            v,
        ) && rows_view(v@) == filter_rows(
            rows_view(rows@),
            idx,
            date_view(filter.spec_start()),
            date_view(filter.spec_end()),
        )),
{
    let ghost h = strs_view(headers@);
    let ghost name = filter.spec_column();
    let n = headers.len();
    let mut i: usize = 0;
    while i < n && !headers[i].eq(filter.column_name())
        invariant
            n == headers@.len(),
            i <= n,
            h == strs_view(headers@),
            name == filter.spec_column(),
            col_index_of(h, name) == header_pos_from(h, name, i as int),
        decreases n - i,
    {
        proof {
            assert(h[i as int] == headers@[i as int]@);
        }
        i = i + 1;
    }
    if i >= n {
        proof {
            assert(col_index_of(h, name) is None);
        }
        return Err(FilterError::ColumnMissing);
    }
    proof {
        assert(h[i as int] == headers@[i as int]@);
        assert(col_index_of(h, name) == Some(i as int));
    }
    let idx = i;
    let ghost sv = date_view(filter.spec_start());
    let ghost ev = date_view(filter.spec_end());
    let ghost all = rows_view(rows@);
    let mut out: Vec<Vec<String>> = Vec::new();
    let mut j: usize = 0;
    proof {
        assert(rows_view(out@) =~= Seq::<Seq<Seq<char>>>::empty());
        assert(all.subrange(0, 0) =~= Seq::<Seq<Seq<char>>>::empty());
        assert(filter_rows(all.subrange(0, 0), idx as int, sv, ev) =~= Seq::<
            Seq<Seq<char>>,
        >::empty());
    }
    while j < rows.len()
        invariant
            j <= rows@.len(),
            idx < headers@.len(),
            all == rows_view(rows@),
            sv == date_view(filter.spec_start()),
            ev == date_view(filter.spec_end()),
            rows_view(out@) == filter_rows(all.subrange(0, j as int), idx as int, sv, ev),
        decreases rows@.len() - j,
    {
        proof {
            assert(all[j as int] == strs_view(rows@[j as int]@));
            assert(all.subrange(0, j + 1 as int).drop_last() =~= all.subrange(0, j as int));
            assert(all.subrange(0, j + 1 as int).last() == all[j as int]);
        }
        let row = &rows[j];
        let mut kept = false;
        if idx < row.len() {
            proof {
                assert(all[j as int][idx as int] == row@[idx as int]@);
            }
            match parse_date_value(row[idx].as_str()) {
                Some(d) => {
                    if filter.start_date().le(&d) && d.le(&filter.end_date()) {
                        kept = true;
                    }
                },
                None => {},
            }
        }
        proof {
            assert(kept == keep_row(all[j as int], idx as int, sv, ev));
        }
        if kept {
            let copied = clone_row(row);
            let ghost out0 = out@;
            out.push(copied);
            proof {
                out0.lemma_push_map_commute(|x: Vec<String>| strs_view(x@), out@.last());
                assert(rows_view(out@) =~= filter_rows(
                    all.subrange(0, j + 1 as int),
                    idx as int,
                    sv,
                    ev,
                ));
            }
        }
        j = j + 1;
    }
    proof {
        assert(all.subrange(0, rows@.len() as int) =~= all);
    }
    Ok(out)
}

} // verus!
