//! Proleptic Gregorian calendar dates as plain integers, with the calendar
//! arithmetic that the scheduling rules need. The arithmetic itself is done by
//! `chrono`; each call stands behind a small wrapper whose contract states the
//! calendar fact it computes.

use chrono::{Datelike, Days, Months, NaiveDate};
use vstd::prelude::*;
use crate::text::{
    digit_value, is_digit, lemma_text_lt_common_prefix, lemma_two_digit_text_lt, nat_text, text_lt, zero_pad,
};

verus! {

/// Smallest year a `chrono::NaiveDate` can hold.
pub const MIN_YEAR: i32 = -262143;

/// Largest year a `chrono::NaiveDate` can hold.
pub const MAX_YEAR: i32 = 262142;

/// A calendar date (year, month 1..=12, day 1..=31).
#[derive(Clone, Copy, Debug, PartialEq, Eq)]
pub struct CivilDate {
    pub year: i32,
    pub month: u32,
    pub day: u32,
}

pub open spec fn is_leap_year(y: int) -> bool {
    (y % 4 == 0 && y % 100 != 0) || y % 400 == 0
}

pub open spec fn days_in_month(y: int, m: int) -> int {
    if m == 2 {
        if is_leap_year(y) { 29 } else { 28 }
    } else if m == 4 || m == 6 || m == 9 || m == 11 {
        30
    } else {
        31
    }
}

/// The triple names a real date that `chrono` can represent.
pub open spec fn valid_ymd(y: int, m: int, d: int) -> bool {
    &&& MIN_YEAR <= y <= MAX_YEAR
    &&& 1 <= m <= 12
    &&& 1 <= d <= days_in_month(y, m)
}

impl CivilDate {
    pub open spec fn wf(self) -> bool {
        valid_ymd(self.year as int, self.month as int, self.day as int)
    }

    pub open spec fn is_max(self) -> bool {
        self.year == MAX_YEAR && self.month == 12 && self.day == 31
    }

    pub open spec fn is_min(self) -> bool {
        self.year == MIN_YEAR && self.month == 1 && self.day == 1
    }
}

pub open spec fn ymd(y: int, m: int, d: int) -> CivilDate {
    CivilDate { year: y as i32, month: m as u32, day: d as u32 }
}

/// The day after `d` (for a date that is not the last one `chrono` holds).
pub open spec fn next_day(d: CivilDate) -> CivilDate {
    if (d.day as int) < days_in_month(d.year as int, d.month as int) {
        ymd(d.year as int, d.month as int, d.day + 1)
    } else if d.month < 12 {
        ymd(d.year as int, d.month + 1, 1)
    } else {
        ymd(d.year + 1, 1, 1)
    }
}

/// The day before `d` (for a date that is not the first one `chrono` holds).
pub open spec fn prev_day(d: CivilDate) -> CivilDate {
    if d.day > 1 {
        ymd(d.year as int, d.month as int, d.day - 1)
    } else if d.month > 1 {
        ymd(d.year as int, d.month - 1, days_in_month(d.year as int, d.month - 1))
    } else {
        ymd(d.year - 1, 12, 31)
    }
}

/// Chronological order of dates.
pub open spec fn date_lt(a: CivilDate, b: CivilDate) -> bool {
    a.year < b.year || (a.year == b.year && (a.month < b.month || (a.month == b.month
        && a.day < b.day)))
}

pub open spec fn date_le(a: CivilDate, b: CivilDate) -> bool {
    a == b || date_lt(a, b)
}

/// Days from 1970-01-01 to `d` (negative before it).
pub open spec fn day_number(d: CivilDate) -> int {
    let y = if d.month <= 2 { d.year - 1 } else { d.year as int };
    let era = y / 400;
    let yoe = y - era * 400;
    let mp = (d.month + 9) % 12;
    let doy = (153 * mp + 2) / 5 + d.day - 1;
    let doe = yoe * 365 + yoe / 4 - yoe / 100 + doy;
    era * 146097 + doe - 719468
}

/// ISO weekday: 1 = Monday ... 7 = Sunday (1970-01-01 was a Thursday).
pub open spec fn iso_weekday(d: CivilDate) -> int {
    (day_number(d) + 3) % 7 + 1
}

/// Text of a year as `chrono` writes `%Y`: four digits for 0..=9999, a sign
/// and at least four digits otherwise.
pub open spec fn year_text(y: int) -> Seq<char> {
    if 0 <= y <= 9999 {
        zero_pad(nat_text(y as nat), 4)
    } else if y > 9999 {
        seq!['+'] + nat_text(y as nat)
    } else {
        seq!['-'] + zero_pad(nat_text((-y) as nat), 4)
    }
}

/// `YYYY-MM-DD` text of a date, as `chrono` formats it with `%Y-%m-%d` (and as
/// its `Display` writes it).
pub open spec fn date_text(d: CivilDate) -> Seq<char> {
    year_text(d.year as int) + seq!['-'] + zero_pad(nat_text(d.month as nat), 2) + seq!['-']
        + zero_pad(nat_text(d.day as nat), 2)
}

/// The date `n` months after `d`; the day is clamped to the length of the
/// target month (`checked_add_months`). `None` when out of `chrono`'s range.
pub open spec fn add_months(d: CivilDate, n: int) -> Option<CivilDate> {
    let total = d.year * 12 + (d.month - 1) + n;
    let y = total / 12;
    let m = total % 12 + 1;
    let day = if (d.day as int) <= days_in_month(y, m) { d.day as int } else { days_in_month(y, m) };
    if MIN_YEAR <= y <= MAX_YEAR {
        Some(ymd(y, m, day))
    } else {
        None
    }
}

/// Name for what `chrono`'s `NaiveDate::parse_from_str(s, "%Y-%m-%d")` gives:
/// the year, month and day of the parsed date, or the text of the parse error
/// when it refuses the input. Its acceptance rules (signs, padding, widths)
/// and error texts are `chrono`'s own.
pub uninterp spec fn chrono_parse_ymd(s: Seq<char>) -> Result<(int, int, int), Seq<char>>;

/// `s` is exactly `DDDD-DD-DD` in ASCII digits.
pub open spec fn canonical_date_shape(s: Seq<char>) -> bool {
    &&& s.len() == 10
    &&& s[4] == '-'
    &&& s[7] == '-'
    &&& forall|i: int| 0 <= i < 10 && i != 4 && i != 7 ==> is_digit(#[trigger] s[i])
}

/// The number written by the digits `s[from..to]`.
pub open spec fn digits_value(s: Seq<char>, from: int, to: int) -> int
    decreases to - from,
{
    if to <= from {
        0
    } else {
        digits_value(s, from, to - 1) * 10 + digit_value(s[to - 1])
    }
}

/// The date written by a text of canonical shape, when it is a real date.
pub open spec fn canonical_date_value(s: Seq<char>) -> Option<CivilDate> {
    let y = digits_value(s, 0, 4);
    let m = digits_value(s, 5, 7);
    let d = digits_value(s, 8, 10);
    if valid_ymd(y, m, d) {
        Some(ymd(y, m, d))
    } else {
        None
    }
}

/// `chrono`'s `NaiveDate::from_ymd_opt`: the date when the triple is a real
/// date in `chrono`'s range.
#[verifier::external_body]
pub(crate) fn civil_from_ymd(y: i32, m: u32, d: u32) -> (r: Option<CivilDate>)
    ensures
        r is Some <==> valid_ymd(y as int, m as int, d as int),
        r is Some ==> r == Some(CivilDate { year: y, month: m, day: d }),
{
    NaiveDate::from_ymd_opt(y, m, d).map(|_| CivilDate { year: y, month: m, day: d })
}

/// `chrono`'s `succ_opt`: the next day, `None` after the last date it holds.
#[verifier::external_body]
pub(crate) fn civil_succ(d: CivilDate) -> (r: Option<CivilDate>)
    requires
        d.wf(),
    ensures
        d.is_max() ==> r is None,
        !d.is_max() ==> r == Some(next_day(d)),
{
    NaiveDate::from_ymd_opt(d.year, d.month, d.day).unwrap().succ_opt().map(|n| CivilDate { year: n.year(), month: n.month(), day: n.day() })
}

/// `chrono`'s `pred_opt`: the previous day, `None` before the first date it holds.
#[verifier::external_body]
pub(crate) fn civil_pred(d: CivilDate) -> (r: Option<CivilDate>)
    requires
        d.wf(),
    ensures
        d.is_min() ==> r is None,
        !d.is_min() ==> r == Some(prev_day(d)),
{
    NaiveDate::from_ymd_opt(d.year, d.month, d.day).unwrap().pred_opt().map(|n| CivilDate { year: n.year(), month: n.month(), day: n.day() })
}

/// `chrono`'s `weekday().number_from_monday()`.
#[verifier::external_body]
pub(crate) fn civil_weekday(d: CivilDate) -> (r: u32)
    requires
        d.wf(),
    ensures
        r as int == iso_weekday(d),
{
    NaiveDate::from_ymd_opt(d.year, d.month, d.day).unwrap().weekday().number_from_monday()
}

/// `chrono`'s `format("%Y-%m-%d").to_string()` of a date.
#[verifier::external_body]
pub(crate) fn civil_text(d: CivilDate) -> (r: String)
    requires
        d.wf(),
    ensures
        r@ == date_text(d),
{
    NaiveDate::from_ymd_opt(d.year, d.month, d.day).unwrap().format("%Y-%m-%d").to_string()
}

/// `YYYY-MM` text of a date's month, as `chrono` formats it with `%Y-%m`.
pub open spec fn month_text(d: CivilDate) -> Seq<char> {
    year_text(d.year as int) + seq!['-'] + zero_pad(nat_text(d.month as nat), 2)
}

/// `chrono`'s `format("%Y-%m").to_string()` of a date.
#[verifier::external_body]
pub(crate) fn civil_month_text(d: CivilDate) -> (r: String)
    requires
        d.wf(),
    ensures
        r@ == month_text(d),
{
    NaiveDate::from_ymd_opt(d.year, d.month, d.day).unwrap().format("%Y-%m").to_string()
}

/// `chrono`'s `checked_add_months(Months::new(n))`.
#[verifier::external_body]
pub(crate) fn civil_add_months(d: CivilDate, n: u32) -> (r: Option<CivilDate>)
    requires
        d.wf(),
    ensures
        r == add_months(d, n as int),
{
    NaiveDate::from_ymd_opt(d.year, d.month, d.day).unwrap().checked_add_months(Months::new(n)).map(|n| CivilDate { year: n.year(), month: n.month(), day: n.day() })
}

/// `chrono`'s `checked_sub_months(Months::new(n))`.
#[verifier::external_body]
pub(crate) fn civil_sub_months(d: CivilDate, n: u32) -> (r: Option<CivilDate>)
    requires
        d.wf(),
    ensures
        r == add_months(d, -(n as int)),
{
    NaiveDate::from_ymd_opt(d.year, d.month, d.day).unwrap().checked_sub_months(Months::new(n)).map(|n| CivilDate { year: n.year(), month: n.month(), day: n.day() })
}

/// `chrono`'s `checked_add_days(Days::new(n))`: the date `n` days later,
/// `None` when it is past the last date `chrono` holds.
#[verifier::external_body]
pub(crate) fn civil_add_days(d: CivilDate, n: u32) -> (r: Option<CivilDate>)
    requires
        d.wf(),
    ensures
        r is None <==> day_number(d) + n > day_number(ymd(MAX_YEAR as int, 12, 31)),
        r matches Some(x) ==> x.wf() && day_number(x) == day_number(d) + n,
{
    NaiveDate::from_ymd_opt(d.year, d.month, d.day).unwrap().checked_add_days(Days::new(n as u64)).map(|n| CivilDate { year: n.year(), month: n.month(), day: n.day() })
}

/// `chrono`'s `NaiveDate::parse_from_str(s, "%Y-%m-%d")`, with the error
/// rendered as text. A text of the shape `DDDD-DD-DD` gives the date it
/// writes, and an error exactly when that is no real date; other texts give
/// what `chrono`'s parser decides.
#[verifier::external_body]
pub(crate) fn parse_civil(s: &str) -> (r: Result<CivilDate, String>)
    ensures
        r matches Ok(d) ==> d.wf(),
        match chrono_parse_ymd(s@) {
            Ok(t) => r matches Ok(d) && d == ymd(t.0, t.1, t.2),
            Err(e) => r matches Err(x) && x@ == e,
        },
        canonical_date_shape(s@) ==> (r is Ok <==> canonical_date_value(s@) is Some),
        canonical_date_shape(s@) ==> (r matches Ok(d) ==> Some(d) == canonical_date_value(s@)),
{
    match NaiveDate::parse_from_str(s, "%Y-%m-%d") {
        Ok(n) => Ok(CivilDate { year: n.year(), month: n.month(), day: n.day() }),
        Err(e) => Err(e.to_string()),
    }
}

/// A measure that grows with the calendar order.
pub open spec fn date_measure(d: CivilDate) -> int {
    d.year * 400 + d.month * 32 + d.day
}

/// Within one month, a later day has a later `YYYY-MM-DD` text.
pub proof fn lemma_day_text_rising(y: int, m: int, i: int, j: int)
    requires
        0 <= i < j < 100,
    ensures
        text_lt(date_text(ymd(y, m, i)), date_text(ymd(y, m, j))),
{
    let di = ymd(y, m, i);
    let dj = ymd(y, m, j);
    let p = year_text(di.year as int) + seq!['-'] + zero_pad(nat_text(di.month as nat), 2) + seq!['-'];
    assert(date_text(di) =~= p + zero_pad(nat_text(i as nat), 2));
    assert(date_text(dj) =~= p + zero_pad(nat_text(j as nat), 2));
    lemma_two_digit_text_lt(i as nat, j as nat);
    lemma_text_lt_common_prefix(p, zero_pad(nat_text(i as nat), 2), zero_pad(nat_text(j as nat), 2));
}

/// The next day follows `d`, nothing lies between them, and the measure grows.
pub proof fn lemma_next_day(d: CivilDate)
    requires
        d.wf(),
        !d.is_max(),
    ensures
        next_day(d).wf(),
        date_lt(d, next_day(d)),
        date_measure(next_day(d)) > date_measure(d),
        forall|x: CivilDate| x.wf() && date_lt(d, x) ==> date_le(next_day(d), x),
{
}

/// The day before `d` is a date `chrono` holds, and comes before `d`.
pub proof fn lemma_prev_day(d: CivilDate)
    requires
        d.wf(),
        !d.is_min(),
    ensures
        prev_day(d).wf(),
        date_lt(prev_day(d), d),
{
}

/// A date `n` months away from a date `chrono` holds is one too.
pub proof fn lemma_add_months_wf(d: CivilDate, n: int)
    requires
        d.wf(),
    ensures
        add_months(d, n) matches Some(x) ==> x.wf(),
{
}

/// The measure follows the calendar order.
pub proof fn lemma_measure_monotone(a: CivilDate, b: CivilDate)
    requires
        a.wf(),
        b.wf(),
        date_le(a, b),
    ensures
        date_measure(a) <= date_measure(b),
{
}

/// `a < b` in calendar order.
pub fn date_lt_exec(a: CivilDate, b: CivilDate) -> (r: bool)
    ensures
        r == date_lt(a, b),
{
    a.year < b.year || (a.year == b.year && (a.month < b.month || (a.month == b.month
        && a.day < b.day)))
}

/// `a <= b` in calendar order.
pub fn date_le_exec(a: CivilDate, b: CivilDate) -> (r: bool)
    ensures
        r == date_le(a, b),
{
    (a.year == b.year && a.month == b.month && a.day == b.day) || date_lt_exec(a, b)
}

/// Number of days in month `m` of year `y`.
pub fn days_in_month_exec(y: i32, m: u32) -> (r: u32)
    requires
        1 <= m <= 12,
    ensures
        r as int == days_in_month(y as int, m as int),
        28 <= r <= 31,
{
    if m == 2 {
        if (y % 4 == 0 && y % 100 != 0) || y % 400 == 0 {
            29
        } else {
            28
        }
    } else if m == 4 || m == 6 || m == 9 || m == 11 {
        30
    } else {
        31
    }
}

/// `true` for the last date `chrono` holds.
pub fn is_max_exec(d: CivilDate) -> (r: bool)
    ensures
        r == d.is_max(),
{
    d.year == MAX_YEAR && d.month == 12 && d.day == 31
}

/// The day number of a date `chrono` holds (see `day_number`).
pub fn day_number_exec(d: CivilDate) -> (r: i64)
    requires
        d.wf(),
    ensures
        r == day_number(d),
{
    let y: i64 = if d.month <= 2 { d.year as i64 - 1 } else { d.year as i64 };
    let shifted: i64 = y + 400000;
    let era_s: i64 = shifted / 400;
    let yoe: i64 = shifted - era_s * 400;
    let mp: i64 = ((d.month as i64) + 9) % 12;
    let doy: i64 = (153 * mp + 2) / 5 + d.day as i64 - 1;
    let doe: i64 = yoe * 365 + yoe / 4 - yoe / 100 + doy;
    proof {
        let yi = y as int;
        assert(shifted / 400 == yi / 400 + 1000) by (nonlinear_arith)
            requires
                shifted == yi + 400000,
                yi >= -300000,
        ;
        assert(era_s * 400 == (yi / 400 + 1000) * 400);
    }
    (era_s - 1000) * 146097 + doe - 719468
}

} // verus!
