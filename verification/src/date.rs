use vstd::prelude::*;
use vstd::string::*;

use chrono::Datelike;

use crate::text::digit_val;
use crate::text::lemma_period_round_trip;
use crate::text::period_label;
use crate::text::spec_digit_val;
use crate::text::spec_is_digit;
use crate::text::spec_parse_period;
use crate::text::spec_period_label;

verus! {

/// A calendar date in the proleptic Gregorian calendar, restricted to the
/// years 0 through 9999 (the range a four-digit year can express).
#[derive(Clone, Copy, PartialEq, Eq, Structural, Debug)]
pub struct Date {
    pub year: u32,
    pub month: u8,
    pub day: u8,
}

pub open spec fn spec_is_leap_year(y: int) -> bool {
    y % 4 == 0 && (y % 100 != 0 || y % 400 == 0)
}

pub fn is_leap_year(y: u32) -> (r: bool)
    ensures
        r == spec_is_leap_year(y as int),
{
    y % 4 == 0 && (y % 100 != 0 || y % 400 == 0)
}

pub open spec fn spec_days_in_month(y: int, m: int) -> int {
    if m == 2 {
        if spec_is_leap_year(y) {
            29
        } else {
            28
        }
    } else if m == 4 || m == 6 || m == 9 || m == 11 {
        30
    } else {
        31
    }
}

pub fn days_in_month(y: u32, m: u8) -> (r: u8)
    ensures
        r as int == spec_days_in_month(y as int, m as int),
{
    if m == 2 {
        if is_leap_year(y) {
            29
        } else {
            28
        }
    } else if m == 4 || m == 6 || m == 9 || m == 11 {
        30
    } else {
        31
    }
}

impl Date {
    /// A real calendar date with a four-digit year.
    pub open spec fn wf(&self) -> bool {
        &&& self.year <= 9999
        &&& 1 <= self.month <= 12
        &&& 1 <= self.day <= spec_days_in_month(self.year as int, self.month as int)
    }
}

// ---------------------------------------------------------------------------
// Day numbers
// ---------------------------------------------------------------------------

pub open spec fn spec_year_length(y: int) -> int {
    if spec_is_leap_year(y) {
        366
    } else {
        365
    }
}

/// Days in all years before year `y`, counted from year 0.
pub open spec fn spec_days_before_year(y: nat) -> int
    decreases y,
{
    if y == 0 {
        0
    } else {
        spec_days_before_year((y - 1) as nat) + spec_year_length(y - 1)
    }
}

/// Days in all months of year `y` before month `m`.
pub open spec fn spec_days_before_month(y: int, m: int) -> int
    decreases m,
{
    if m <= 1 {
        0
    } else {
        spec_days_before_month(y, m - 1) + spec_days_in_month(y, m - 1)
    }
}

/// Days from 0000-01-01 to the given date.
pub open spec fn spec_day_number(d: Date) -> int {
    spec_days_before_year(d.year as nat) + spec_days_before_month(d.year as int, d.month as int)
        + d.day - 1
}

#[verifier::loop_isolation(false)]
fn days_before_year(y: u32) -> (r: u32)
    requires
        y <= 9999,
    ensures
        r as int == spec_days_before_year(y as nat),
        r <= 366 * y,
{
    let mut acc: u32 = 0;
    let mut i: u32 = 0;
    while i < y
        invariant
            i <= y,
            acc as int == spec_days_before_year(i as nat),
            acc <= 366 * i,
        decreases y - i,
    {
        if is_leap_year(i) {
            acc = acc + 366;
        } else {
            acc = acc + 365;
        }
        i = i + 1;
    }
    acc
}

#[verifier::loop_isolation(false)]
fn days_before_month(y: u32, m: u8) -> (r: u32)
    requires
        1 <= m <= 12,
    ensures
        r as int == spec_days_before_month(y as int, m as int),
        r <= 366,
{
    let mut acc: u32 = 0;
    let mut i: u8 = 1;
    while i < m
        invariant
            1 <= i <= m,
            acc as int == spec_days_before_month(y as int, i as int),
            acc <= 31 * (i - 1),
        decreases m - i,
    {
        acc = acc + (days_in_month(y, i) as u32);
        i = i + 1;
    }
    acc
}

pub fn day_number(d: &Date) -> (r: u32)
    requires
        d.wf(),
    ensures
        r as int == spec_day_number(*d),
        r <= 3700000,
{
    let by = days_before_year(d.year);
    let bm = days_before_month(d.year, d.month);
    by + bm + (d.day as u32) - 1
}

// ---------------------------------------------------------------------------
// Parsing YYYY-MM-DD
// ---------------------------------------------------------------------------

/// The fixed shape of a date string: four digits, '-', two digits, '-',
/// two digits.
pub open spec fn spec_date_str_wf(s: Seq<char>) -> bool {
    &&& s.len() == 10
    &&& spec_is_digit(s[0])
    &&& spec_is_digit(s[1])
    &&& spec_is_digit(s[2])
    &&& spec_is_digit(s[3])
    &&& s[4] == '-'
    &&& spec_is_digit(s[5])
    &&& spec_is_digit(s[6])
    &&& s[7] == '-'
    &&& spec_is_digit(s[8])
    &&& spec_is_digit(s[9])
}

/// The date the fields of a well-shaped date string spell out.
pub open spec fn spec_field_date(s: Seq<char>) -> Date {
    Date {
        year: (spec_digit_val(s[0]) * 1000 + spec_digit_val(s[1]) * 100 + spec_digit_val(s[2]) * 10
            + spec_digit_val(s[3])) as u32,
        month: (spec_digit_val(s[5]) * 10 + spec_digit_val(s[6])) as u8,
        day: (spec_digit_val(s[8]) * 10 + spec_digit_val(s[9])) as u8,
    }
}

pub open spec fn spec_parse_date(s: Seq<char>) -> Option<Date> {
    if spec_date_str_wf(s) && spec_field_date(s).wf() {
        Some(spec_field_date(s))
    } else {
        None
    }
}

/// Why a date string is rejected: not of the YYYY-MM-DD shape at all, or of
/// that shape but naming no real calendar date.
#[derive(Clone, Copy, PartialEq, Eq, Structural, Debug)]
pub enum DateError {
    Malformed,
    OutOfRange,
}

pub open spec fn spec_date_error(s: Seq<char>) -> DateError {
    if !spec_date_str_wf(s) {
        DateError::Malformed
    } else {
        DateError::OutOfRange
    }
}

pub fn parse_date(s: &str) -> (r: Result<Date, DateError>)
    ensures
        match r {
            Ok(d) => spec_parse_date(s@) == Some(d),
            Err(e) => spec_parse_date(s@) is None && e == spec_date_error(s@),
        },
{
    let n: usize = s.unicode_len();
    if n != 10 {
        return Err(DateError::Malformed);
    }
    if s.get_char(4) != '-' || s.get_char(7) != '-' {
        return Err(DateError::Malformed);
    }
    let d0 = digit_val(s.get_char(0));
    let d1 = digit_val(s.get_char(1));
    let d2 = digit_val(s.get_char(2));
    let d3 = digit_val(s.get_char(3));
    let d5 = digit_val(s.get_char(5));
    let d6 = digit_val(s.get_char(6));
    let d8 = digit_val(s.get_char(8));
    let d9 = digit_val(s.get_char(9));
    if d0 >= 10 || d1 >= 10 || d2 >= 10 || d3 >= 10 || d5 >= 10 || d6 >= 10 || d8 >= 10 || d9
        >= 10 {
        return Err(DateError::Malformed);
    }
    let year: u32 = (d0 as u32) * 1000 + (d1 as u32) * 100 + (d2 as u32) * 10 + (d3 as u32);
    let month: u8 = d5 * 10 + d6;
    let day: u8 = d8 * 10 + d9;
    let date = Date { year, month, day };
    if month < 1 || month > 12 {
        return Err(DateError::OutOfRange);
    }
    if day < 1 || day > days_in_month(year, month) {
        return Err(DateError::OutOfRange);
    }
    Ok(date)
}

// ---------------------------------------------------------------------------
// Day counts between dates
// ---------------------------------------------------------------------------

/// The signed number of days from `from` to `until`.
pub open spec fn spec_signed_day_count(from: Date, until: Date) -> int {
    spec_day_number(until) - spec_day_number(from)
}

/// Parses both dates and renders the signed day count from `from` to
/// `until` as a period descriptor such as "30d".  A malformed `from` is
/// reported before a malformed `until`.
pub fn count_days(from: &str, until: &str) -> (r: Result<String, DateError>)
    ensures
        match r {
            Ok(p) => {
                &&& spec_parse_date(from@) is Some
                &&& spec_parse_date(until@) is Some
                &&& p@ == spec_period_label(
                    spec_signed_day_count(
                        spec_parse_date(from@)->0,
                        spec_parse_date(until@)->0,
                    ),
                )
            },
            Err(e) => {
                &&& (spec_parse_date(from@) is None || spec_parse_date(until@) is None)
                &&& e == if spec_parse_date(from@) is None {
                    spec_date_error(from@)
                } else {
                    spec_date_error(until@)
                }
            },
        },
{
    let f = match parse_date(from) {
        Ok(d) => d,
        Err(e) => {
            return Err(e);
        },
    };
    let u = match parse_date(until) {
        Ok(d) => d,
        Err(e) => {
            return Err(e);
        },
    };
    let nf = day_number(&f);
    let nu = day_number(&u);
    let diff: i64 = (nu as i64) - (nf as i64);
    Ok(period_label(diff))
}

proof fn lemma_days_before_year_bound(y: nat)
    ensures
        0 <= spec_days_before_year(y) <= 366 * y,
    decreases y,
{
    if y > 0 {
        lemma_days_before_year_bound((y - 1) as nat);
    }
}

proof fn lemma_days_before_month_bound(y: int, m: int)
    requires
        1 <= m <= 13,
    ensures
        0 <= spec_days_before_month(y, m) <= 31 * (m - 1),
    decreases m,
{
    if m > 1 {
        lemma_days_before_month_bound(y, m - 1);
    }
}

/// Day numbers of real dates are bounded: fewer than ten thousand years of
/// days lie before any date a four-digit year can express.
pub proof fn lemma_day_number_bounds(d: Date)
    requires
        d.wf(),
    ensures
        0 <= spec_day_number(d) <= 3700000,
{
    lemma_days_before_year_bound(d.year as nat);
    lemma_days_before_month_bound(d.year as int, d.month as int);
}

/// Calendar order on dates: year first, then month, then day.
pub open spec fn spec_date_le(a: Date, b: Date) -> bool {
    ||| a.year < b.year
    ||| (a.year == b.year && a.month < b.month)
    ||| (a.year == b.year && a.month == b.month && a.day <= b.day)
}

/// The months before month `m2` hold all of month `m1` when `m1 < m2`.
proof fn lemma_days_before_month_mono(y: int, m1: int, m2: int)
    requires
        1 <= m1 < m2 <= 13,
    ensures
        spec_days_before_month(y, m1) + spec_days_in_month(y, m1) <= spec_days_before_month(y, m2),
    decreases m2,
{
    if m2 > m1 + 1 {
        lemma_days_before_month_mono(y, m1, m2 - 1);
    }
}

/// The twelve months together hold exactly one year of days.
proof fn lemma_days_before_month_total(y: int)
    ensures
        spec_days_before_month(y, 13) == spec_year_length(y),
{
    reveal_with_fuel(spec_days_before_month, 14);
}

/// A date's day number lies within its year's days.
proof fn lemma_day_number_within_year(d: Date)
    requires
        d.wf(),
    ensures
        spec_days_before_year(d.year as nat) <= spec_day_number(d) < spec_days_before_year(
            d.year as nat,
        ) + spec_year_length(d.year as int),
{
    lemma_days_before_month_bound(d.year as int, d.month as int);
    lemma_days_before_month_total(d.year as int);
    lemma_days_before_month_mono(d.year as int, d.month as int, 13);
}

/// The years before year `y2` hold all of year `y1` when `y1 < y2`.
proof fn lemma_days_before_year_mono(y1: nat, y2: nat)
    requires
        y1 < y2,
    ensures
        spec_days_before_year(y1) + spec_year_length(y1 as int) <= spec_days_before_year(y2),
    decreases y2,
{
    if y2 > y1 + 1 {
        lemma_days_before_year_mono(y1, (y2 - 1) as nat);
    }
}

/// A date strictly before another has the strictly smaller day number.
proof fn lemma_day_number_strictly_ordered(a: Date, b: Date)
    requires
        a.wf(),
        b.wf(),
        spec_date_le(a, b),
        a != b,
    ensures
        spec_day_number(a) < spec_day_number(b),
{
    if a.year < b.year {
        lemma_day_number_within_year(a);
        lemma_days_before_year_mono(a.year as nat, b.year as nat);
        lemma_day_number_within_year(b);
    } else if a.month < b.month {
        lemma_days_before_month_mono(a.year as int, a.month as int, b.month as int);
    }
}

/// Day numbers order exactly as calendar dates do, and coincide only on
/// the same date: the signed day count from one date to another is
/// positive, zero or negative according as the second date lies after, on
/// or before the first.
pub proof fn lemma_day_number_orders_dates(a: Date, b: Date)
    requires
        a.wf(),
        b.wf(),
    ensures
        spec_day_number(a) <= spec_day_number(b) <==> spec_date_le(a, b),
        spec_day_number(a) == spec_day_number(b) <==> a == b,
{
    if a == b {
    } else if spec_date_le(a, b) {
        lemma_day_number_strictly_ordered(a, b);
    } else {
        assert(spec_date_le(b, a));
        lemma_day_number_strictly_ordered(b, a);
    }
}

/// The descriptor `count_days` renders always reads back as the signed day
/// count it rendered: what the date engine emits, the configuration check
/// accepts and compares as exactly that count.
pub proof fn lemma_count_days_round_trip(from: Date, until: Date)
    requires
        from.wf(),
        until.wf(),
    ensures
        spec_parse_period(spec_period_label(spec_signed_day_count(from, until))) == Some(
            spec_signed_day_count(from, until) as i64,
        ),
{
    lemma_day_number_bounds(from);
    lemma_day_number_bounds(until);
    let count = spec_signed_day_count(from, until);
    lemma_period_round_trip(count as i64);
}

/// Relies on std::time::SystemTime::now for the seconds since the Unix
/// epoch, on chrono::DateTime::from_timestamp to turn them into a calendar
/// day (it returns None outside chrono's representable range, so no path
/// panics; a clock before the epoch yields None as well), and on the
/// chrono::Datelike accessors year, month and day, whose documentation
/// bounds month by 1..=12 and day by 1..=31.
#[verifier::external_body]
fn now_ymd() -> (r: Option<(i32, u32, u32)>)
    ensures
        r matches Some(t) ==> 1 <= t.1 <= 12 && 1 <= t.2 <= 31,
{
    let elapsed = std::time::SystemTime::now().duration_since(std::time::UNIX_EPOCH);
    let secs = match elapsed {
        Ok(d) => d.as_secs() as i64,
        Err(_) => {
            return None;
        },
    };
    let stamp = chrono::DateTime::<chrono::Utc>::from_timestamp(secs, 0)?;
    let d = stamp.date_naive();
    Some((d.year(), d.month(), d.day()))
}

/// Renders the signed day count from `from` to the calendar day a clock
/// reading spells out.  Succeeds exactly when the reading is a real date
/// with a four-digit year; any other reading is out of range.
pub fn period_from(from: Date, ty: i32, tm: u32, td: u32) -> (r: Result<String, DateError>)
    requires
        from.wf(),
        1 <= tm <= 12,
        1 <= td <= 31,
    ensures
        r is Ok <==> (0 <= ty <= 9999 && td as int <= spec_days_in_month(ty as int, tm as int)),
        r matches Ok(p) ==> p@ == spec_period_label(
            spec_signed_day_count(
                from,
                (Date { year: ty as u32, month: tm as u8, day: td as u8 }),
            ),
        ),
        r is Err ==> r->Err_0 == DateError::OutOfRange,
{
    if ty < 0 || ty > 9999 {
        return Err(DateError::OutOfRange);
    }
    let today = Date { year: ty as u32, month: tm as u8, day: td as u8 };
    if today.day > days_in_month(today.year, today.month) {
        return Err(DateError::OutOfRange);
    }
    let nf = day_number(&from);
    let nt = day_number(&today);
    let diff: i64 = (nt as i64) - (nf as i64);
    Ok(period_label(diff))
}

/// Reads today's date from the clock and renders the signed day count from
/// `from` to today as a period descriptor: parse, read the clock, and hand
/// both to `period_from`, which pins the result for every clock reading.
/// An unusable clock reading is reported as out of range.
pub fn count_days_until_today(from: &str) -> (r: Result<String, DateError>)
    ensures
        r is Ok ==> spec_parse_date(from@) is Some,
        spec_parse_date(from@) is None ==> r is Err && r->Err_0 == spec_date_error(from@),
        spec_parse_date(from@) is Some ==> (r is Ok || r->Err_0 == DateError::OutOfRange),
        r matches Ok(p) ==> exists|today: Date|
            #[trigger] today.wf() && p@ == spec_period_label(
                spec_signed_day_count(spec_parse_date(from@)->0, today),
            ),
{
    let f = match parse_date(from) {
        Ok(d) => d,
        Err(e) => {
            return Err(e);
        },
    };
    let (ty, tm, td) = match now_ymd() {
        Some(t) => t,
        None => {
            return Err(DateError::OutOfRange);
        },
    };
    let out = period_from(f, ty, tm, td);
    proof {
        if out is Ok {
            let today = Date { year: ty as u32, month: tm as u8, day: td as u8 };
            assert(today.wf() && out->Ok_0@ == spec_period_label(
                spec_signed_day_count(spec_parse_date(from@)->0, today),
            ));
        }
    }
    out
}

} // verus!
