//! Attendance rules: year-month validation, the monthly attendance plan
//! (which student attends on which day for how many minutes), the
//! present/absent toggle, one-off class moves, schedule changes with
//! regeneration, and the monthly summary of a student.

use vstd::prelude::*;
use vstd::string::*;
use vstd::utf8::encode_utf8;
use crate::civil::{
    add_months, civil_add_months, civil_weekday, iso_weekday, civil_succ, date_le, date_lt,
    date_le_exec, date_lt_exec, date_measure, is_max_exec, lemma_measure_monotone, lemma_next_day,
    next_day, parse_civil, chrono_parse_ymd, canonical_date_shape, canonical_date_value, civil_from_ymd, civil_pred, civil_text, date_text,
    days_in_month, valid_ymd, ymd, CivilDate,
};
use crate::text::{padded_int_text, push_char, push_padded_int, str_eq, str_le, str_lt, text_le, text_lt};

verus! {

// ───────────────────────────── year-month text ─────────────────────────────

pub open spec fn is_digit_byte(b: u8) -> bool {
    48 <= b <= 57
}

/// The number written by the ASCII digits `b[from..to]`.
pub open spec fn bytes_value(b: Seq<u8>, from: int, to: int) -> int
    decreases to - from,
{
    if to <= from {
        0
    } else {
        bytes_value(b, from, to - 1) * 10 + (b[to - 1] - 48)
    }
}

/// The UTF-8 bytes have the `YYYY-MM` layout: seven bytes with a `-` at index 4.
pub open spec fn ym_layout(b: Seq<u8>) -> bool {
    b.len() == 7 && b[4] == 45
}

/// The year and month parts of a `YYYY-MM` layout are ASCII digits.
pub open spec fn ym_digits(b: Seq<u8>) -> bool {
    forall|i: int| 0 <= i < 7 && i != 4 ==> is_digit_byte(#[trigger] b[i])
}

pub open spec fn ym_year(b: Seq<u8>) -> int {
    bytes_value(b, 0, 4)
}

pub open spec fn ym_month(b: Seq<u8>) -> int {
    bytes_value(b, 5, 7)
}

/// A valid `YYYY-MM` text: layout, digits, and a month in `01..=12`.
pub open spec fn valid_year_month(b: Seq<u8>) -> bool {
    &&& ym_layout(b)
    &&& ym_digits(b)
    &&& 1 <= ym_month(b) <= 12
}

pub open spec fn msg_ym_layout() -> Seq<char> {
    "year_month 는 YYYY-MM 형식이어야 합니다."@
}

pub open spec fn msg_ym_digits() -> Seq<char> {
    "year_month 에 숫자가 아닌 문자가 포함되어 있습니다."@
}

pub open spec fn msg_ym_month_range(ym: Seq<char>) -> Seq<char> {
    "year_month 의 월은 01~12 사이여야 합니다 (입력: "@ + ym + ")."@
}

/// The error that `validate_year_month` reports for an invalid text.
pub open spec fn year_month_error(ym: Seq<char>) -> Seq<char> {
    let b = encode_utf8(ym);
    if !ym_layout(b) {
        msg_ym_layout()
    } else if !ym_digits(b) {
        msg_ym_digits()
    } else {
        msg_ym_month_range(ym)
    }
}

/// `t` is a valid `YYYY-MM` text.
pub open spec fn ym_valid(t: Seq<char>) -> bool {
    valid_year_month(encode_utf8(t))
}

/// The month after the year-month written `t`, as `YYYY-MM` text.
pub open spec fn next_month_text(t: Seq<char>) -> Seq<char> {
    let (y, m) = following_month(ym_year(encode_utf8(t)), ym_month(encode_utf8(t)));
    year_month_text(y, m)
}

/// Checks that `ym` is a `YYYY-MM` year-month with a month in `01..=12`.
pub fn validate_year_month(ym: &str) -> (r: Result<(), String>)
    ensures
        r is Ok <==> valid_year_month(ym.spec_bytes()),
        r matches Err(e) ==> e@ == year_month_error(ym@),
{
    let b = ym.as_bytes();
    if b.len() != 7 || b[4] != 45u8 {
        return Err(String::from_str("year_month 는 YYYY-MM 형식이어야 합니다."));
    }
    let mut i: usize = 0;
    while i < 7
        invariant
            b@ == ym.spec_bytes(),
            ym_layout(b@),
            i <= 7,
            forall|k: int| 0 <= k < i && k != 4 ==> is_digit_byte(#[trigger] b@[k]),
        decreases 7 - i,
    {
        if i != 4 && (b[i] < 48u8 || b[i] > 57u8) {
            return Err(String::from_str("year_month 에 숫자가 아닌 문자가 포함되어 있습니다."));
        }
        i = i + 1;
    }
    let m: u8 = (b[5] - 48) * 10 + (b[6] - 48);
    proof {
        reveal_with_fuel(bytes_value, 3);
    }
    if m < 1 || m > 12 {
        let msg = String::from_str("year_month 의 월은 01~12 사이여야 합니다 (입력: ");
        let msg = msg.concat(ym);
        return Err(msg.concat(")."));
    }
    Ok(())
}

/// Year and month numbers of a valid `YYYY-MM` text.
pub fn year_month_numbers(ym: &str) -> (r: (i32, u32))
    requires
        valid_year_month(ym.spec_bytes()),
    ensures
        r.0 as int == ym_year(ym.spec_bytes()),
        r.1 as int == ym_month(ym.spec_bytes()),
        0 <= r.0 <= 9999,
        1 <= r.1 <= 12,
{
    let b = ym.as_bytes();
    proof {
        reveal_with_fuel(bytes_value, 5);
        assert(is_digit_byte(b@[0]) && is_digit_byte(b@[1]) && is_digit_byte(b@[2]));
        assert(is_digit_byte(b@[3]) && is_digit_byte(b@[5]) && is_digit_byte(b@[6]));
    }
    let y: i32 = (b[0] - 48) as i32 * 1000 + (b[1] - 48) as i32 * 100 + (b[2] - 48) as i32 * 10
        + (b[3] - 48) as i32;
    let m: u32 = (b[5] - 48) as u32 * 10 + (b[6] - 48) as u32;
    (y, m)
}

/// Text of a year and month as `format!("{:04}-{:02}", year, month)` writes it.
pub open spec fn year_month_text(year: int, month: int) -> Seq<char> {
    padded_int_text(year, 4) + seq!['-'] + padded_int_text(month, 2)
}

/// The text `format!("{:04}-{:02}", year, month)` writes.
fn format_year_month(year: i32, month: u32) -> (r: String)
    ensures
        r@ == year_month_text(year as int, month as int),
{
    let t = push_padded_int(String::new(), year as i64, 4);
    let t = push_char(t, '-');
    let r = push_padded_int(t, month as i64, 2);
    proof {
        assert(Seq::<char>::empty() + padded_int_text(year as int, 4) =~= padded_int_text(year as int, 4));
        assert((padded_int_text(year as int, 4).push('-') + padded_int_text(month as int, 2)) =~= year_month_text(
            year as int,
            month as int,
        ));
    }
    r
}

/// The month after a year-month: December rolls over to January of the next year.
pub open spec fn following_month(y: int, m: int) -> (int, int) {
    if m == 12 { (y + 1, 1) } else { (y, m + 1) }
}

/// `YYYY-MM` of the month after `ym` (December → January of the next year).
pub fn next_month_str(ym: &str) -> (r: Result<String, String>)
    ensures
        r is Ok <==> valid_year_month(ym.spec_bytes()),
        r matches Err(e) ==> e@ == year_month_error(ym@),
        r matches Ok(s) ==> ({
            let (y, m) = following_month(ym_year(ym.spec_bytes()), ym_month(ym.spec_bytes()));
            s@ == year_month_text(y, m)
        }),
{
    validate_year_month(ym)?;
    let (y, m) = year_month_numbers(ym);
    let first = civil_from_ymd(y, m, 1);
    match first {
        Some(f) => {
            match civil_add_months(f, 1) {
                Some(n) => {
                    assert(n.year == following_month(y as int, m as int).0);
                    assert(n.month == following_month(y as int, m as int).1);
                    Ok(format_year_month(n.year, n.month))
                },
                None => {
                    assert(false);
                    Err(String::from_str("다음 달 계산 오버플로"))
                },
            }
        },
        None => {
            assert(false);
            Err(String::from_str("year_month 파싱 실패"))
        },
    }
}

/// First and last day of a valid `YYYY-MM` month, as `YYYY-MM-DD` texts.
pub fn ym_to_range(ym: &str) -> (r: Result<(String, String), String>)
    requires
        valid_year_month(ym.spec_bytes()),
    ensures
        r matches Ok((first, last)) && ({
            let y = ym_year(ym.spec_bytes());
            let m = ym_month(ym.spec_bytes());
            &&& first@ == date_text(ymd(y, m, 1))
            &&& last@ == date_text(ymd(y, m, days_in_month(y, m)))
        }),
{
    let (y, m) = year_month_numbers(ym);
    let first = match civil_from_ymd(y, m, 1) {
        Some(f) => f,
        None => {
            assert(false);
            return Err(String::from_str("월초 일자 생성 실패"));
        },
    };
    let next_first = if m == 12 {
        civil_from_ymd(y + 1, 1, 1)
    } else {
        civil_from_ymd(y, m + 1, 1)
    };
    let next_first = match next_first {
        Some(n) => n,
        None => {
            assert(false);
            return Err(String::from_str("다음 달 일자 생성 실패"));
        },
    };
    let last = match civil_pred(next_first) {
        Some(l) => l,
        None => {
            assert(false);
            return Err(String::from_str("월말 일자 계산 실패"));
        },
    };
    Ok((civil_text(first), civil_text(last)))
}

// ───────────────────────────── schedule slices ─────────────────────────────

/// One weekday entry of a student's schedule history: on `day_of_week`
/// (1 = Monday) the student has `minutes` of class, from `effective_from`
/// (inclusive) until `effective_to` (exclusive, open when `None`). Dates are
/// `YYYY-MM-DD` texts and are compared as text.
#[derive(Clone, Debug)]
pub struct ScheduleSlice {
    pub day_of_week: i64,
    pub minutes: i64,
    pub effective_from: String,
    pub effective_to: Option<String>,
}

/// The slice is in force on the day written `ds`.
pub open spec fn slice_in_force(s: ScheduleSlice, ds: Seq<char>) -> bool {
    &&& text_le(s.effective_from@, ds)
    &&& (s.effective_to matches Some(to) ==> text_lt(ds, to@))
}

/// The slice gives a class on the day written `ds`, a weekday `dow`.
pub open spec fn slice_applies(s: ScheduleSlice, dow: int, ds: Seq<char>) -> bool {
    s.day_of_week == dow && slice_in_force(s, ds)
}

/// Minutes of the first slice (in list order) that gives a class on that day.
pub open spec fn minutes_on(slices: Seq<ScheduleSlice>, dow: int, ds: Seq<char>) -> Option<i64>
    decreases slices.len(),
{
    if slices.len() == 0 {
        None
    } else if slice_applies(slices[0], dow, ds) {
        Some(slices[0].minutes)
    } else {
        minutes_on(slices.drop_first(), dow, ds)
    }
}

/// Which schedule entry gives a day's class, stated by the entries' fields: a
/// day written `ds`, a weekday `dow`, has a class exactly when some entry is
/// for that weekday, started on or before the day (the first day counts) and
/// has not ended by it (its end day is excluded); the minutes are those of the
/// first such entry in the list.
pub proof fn lemma_minutes_on_first_in_force(slices: Seq<ScheduleSlice>, dow: int, ds: Seq<char>)
    ensures
        minutes_on(slices, dow, ds) is None <==> forall|i: int|
            0 <= i < slices.len() ==> !((#[trigger] slices[i]).day_of_week == dow && text_le(
                slices[i].effective_from@,
                ds,
            ) && (slices[i].effective_to matches Some(to) ==> text_lt(ds, to@))),
        minutes_on(slices, dow, ds) matches Some(m) ==> exists|i: int|
            0 <= i < slices.len() && (#[trigger] slices[i]).day_of_week == dow && text_le(
                slices[i].effective_from@,
                ds,
            ) && (slices[i].effective_to matches Some(to) ==> text_lt(ds, to@)) && slices[i].minutes == m
                && forall|k: int|
                0 <= k < i ==> !((#[trigger] slices[k]).day_of_week == dow && text_le(
                    slices[k].effective_from@,
                    ds,
                ) && (slices[k].effective_to matches Some(to) ==> text_lt(ds, to@))),
    decreases slices.len(),
{
    if slices.len() > 0 {
        let rest = slices.drop_first();
        lemma_minutes_on_first_in_force(rest, dow, ds);
        if !slice_applies(slices[0], dow, ds) {
            if minutes_on(rest, dow, ds) is None {
                assert forall|i: int| 0 <= i < slices.len() implies !((#[trigger] slices[i]).day_of_week == dow
                    && text_le(slices[i].effective_from@, ds) && (slices[i].effective_to matches Some(to)
                    ==> text_lt(ds, to@))) by {
                    if i > 0 {
                        assert(slices[i] == rest[i - 1]);
                    }
                }
            } else {
                let m = minutes_on(rest, dow, ds)->0;
                let j = choose|j: int|
                    0 <= j < rest.len() && (#[trigger] rest[j]).day_of_week == dow && text_le(
                        rest[j].effective_from@,
                        ds,
                    ) && (rest[j].effective_to matches Some(to) ==> text_lt(ds, to@)) && rest[j].minutes == m
                        && forall|k: int|
                        0 <= k < j ==> !((#[trigger] rest[k]).day_of_week == dow && text_le(
                            rest[k].effective_from@,
                            ds,
                        ) && (rest[k].effective_to matches Some(to) ==> text_lt(ds, to@)));
                assert(slices[j + 1] == rest[j]);
                assert forall|k: int| 0 <= k < j + 1 implies !((#[trigger] slices[k]).day_of_week == dow && text_le(
                    slices[k].effective_from@,
                    ds,
                ) && (slices[k].effective_to matches Some(to) ==> text_lt(ds, to@))) by {
                    if k > 0 {
                        assert(slices[k] == rest[k - 1]);
                    }
                }
            }
        }
    }
}

/// Class minutes of a date under a schedule history (`None` when no class).
pub open spec fn class_minutes_on(slices: Seq<ScheduleSlice>, d: CivilDate) -> Option<i64> {
    minutes_on(slices, iso_weekday(d), date_text(d))
}

fn slice_in_force_exec(s: &ScheduleSlice, ds: &str) -> (r: bool)
    ensures
        r == slice_in_force(*s, ds@),
{
    if !str_le(s.effective_from.as_str(), ds) {
        return false;
    }
    match &s.effective_to {
        Some(to) => str_lt(ds, to.as_str()),
        None => true,
    }
}

/// Minutes of class on `d` under the schedule history: the first slice whose
/// weekday is that of `d` and which is in force on `d`.
pub fn minutes_for_date(slices: &Vec<ScheduleSlice>, d: CivilDate) -> (r: Option<i64>)
    requires
        d.wf(),
    ensures
        r == class_minutes_on(slices@, d),
{
    let dow = civil_weekday(d) as i64;
    let ds = civil_text(d);
    let mut i: usize = 0;
    assert(slices@.skip(0) =~= slices@);
    while i < slices.len()
        invariant
            i <= slices.len(),
            dow == iso_weekday(d),
            ds@ == date_text(d),
            class_minutes_on(slices@, d) == minutes_on(slices@.skip(i as int), dow as int, ds@),
        decreases slices.len() - i,
    {
        let s = &slices[i];
        assert(slices@.skip(i as int)[0] == *s);
        assert(slices@.skip(i as int).drop_first() =~= slices@.skip(i + 1));
        if s.day_of_week == dow && slice_in_force_exec(s, ds.as_str()) {
            return Some(s.minutes);
        }
        i = i + 1;
    }
    None
}

/// Sum of the minutes of all slices in force on the day written `ds`.
pub open spec fn weekly_total(slices: Seq<ScheduleSlice>, ds: Seq<char>) -> int
    decreases slices.len(),
{
    if slices.len() == 0 {
        0
    } else {
        (if slice_in_force(slices.last(), ds) { slices.last().minutes as int } else { 0 })
            + weekly_total(slices.drop_last(), ds)
    }
}

/// Sum of the absolute minutes of all slices (a bound on every partial sum).
pub open spec fn abs_minutes(slices: Seq<ScheduleSlice>) -> int
    decreases slices.len(),
{
    if slices.len() == 0 {
        0
    } else {
        (if slices.last().minutes >= 0 { slices.last().minutes as int } else { -(slices.last().minutes as int) })
            + abs_minutes(slices.drop_last())
    }
}

proof fn lemma_weekly_bound(slices: Seq<ScheduleSlice>, ds: Seq<char>)
    ensures
        -abs_minutes(slices) <= weekly_total(slices, ds) <= abs_minutes(slices),
        abs_minutes(slices) >= 0,
    decreases slices.len(),
{
    if slices.len() > 0 {
        lemma_weekly_bound(slices.drop_last(), ds);
    }
}

/// Minutes per week under the schedule history on `ref_date`: the sum over all
/// slices in force on that day.
pub fn weekly_minutes_on(slices: &Vec<ScheduleSlice>, ref_date: CivilDate) -> (r: i64)
    requires
        ref_date.wf(),
        abs_minutes(slices@) <= i64::MAX,
    ensures
        r == weekly_total(slices@, date_text(ref_date)),
{
    let ds = civil_text(ref_date);
    let mut total: i64 = 0;
    let mut i: usize = 0;
    while i < slices.len()
        invariant
            i <= slices.len(),
            ds@ == date_text(ref_date),
            abs_minutes(slices@) <= i64::MAX,
            total == weekly_total(slices@.subrange(0, i as int), ds@),
        decreases slices.len() - i,
    {
        let s = &slices[i];
        proof {
            assert(slices@.subrange(0, i + 1).drop_last() =~= slices@.subrange(0, i as int));
            lemma_weekly_bound(slices@.subrange(0, i + 1), ds@);
            lemma_abs_prefix(slices@, i + 1);
        }
        if slice_in_force_exec(s, ds.as_str()) {
            total = total + s.minutes;
        }
        i = i + 1;
    }
    assert(slices@.subrange(0, slices.len() as int) =~= slices@);
    total
}

proof fn lemma_abs_prefix(slices: Seq<ScheduleSlice>, k: int)
    requires
        0 <= k <= slices.len(),
    ensures
        abs_minutes(slices.subrange(0, k)) <= abs_minutes(slices),
    decreases slices.len() - k,
{
    if k < slices.len() {
        lemma_abs_prefix(slices, k + 1);
        assert(slices.subrange(0, k + 1).drop_last() =~= slices.subrange(0, k));
    } else {
        assert(slices.subrange(0, k) =~= slices);
    }
}

// ───────────────────────────── attendance plan ─────────────────────────────

/// The texts of a list of strings.
pub open spec fn texts(v: Seq<String>) -> Seq<Seq<char>> {
    v.map_values(|x: String| x@)
}

/// `true` when `s` is one of the texts in `list`.
pub fn contains_text(list: &Vec<String>, s: &str) -> (r: bool)
    ensures
        r == texts(list@).contains(s@),
{
    let mut i: usize = 0;
    while i < list.len()
        invariant
            i <= list.len(),
            forall|k: int| 0 <= k < i ==> list@[k]@ != s@,
        decreases list.len() - i,
    {
        if str_eq(list[i].as_str(), s) {
            assert(texts(list@)[i as int] == s@);
            return true;
        }
        i = i + 1;
    }
    proof {
        if texts(list@).contains(s@) {
            let k = choose|k: int| 0 <= k < texts(list@).len() && texts(list@)[k] == s@;
            assert(list@[k]@ == s@);
        }
    }
    false
}

/// The student has a regular class on `d`: the schedule history gives class
/// minutes that day, `enroll <= d`, `d <= withdraw` when withdrawn, and `d` is
/// not an off day (a day on which a code forbids regular classes).
pub open spec fn attends(
    slices: Seq<ScheduleSlice>,
    enroll: CivilDate,
    withdraw: Option<CivilDate>,
    off: Seq<Seq<char>>,
    d: CivilDate,
) -> bool {
    &&& class_minutes_on(slices, d) is Some
    &&& date_le(enroll, d)
    &&& (withdraw matches Some(w) ==> date_le(d, w))
    &&& !off.contains(date_text(d))
}

/// The class days of a student from `d` to `end` (both included), in calendar order.
pub open spec fn attending_days(
    slices: Seq<ScheduleSlice>,
    enroll: CivilDate,
    withdraw: Option<CivilDate>,
    off: Seq<Seq<char>>,
    d: CivilDate,
    end: CivilDate,
) -> Seq<CivilDate>
    decreases date_measure(end) - date_measure(d),
{
    if d.wf() && end.wf() && date_le(d, end) && !end.is_max() {
        let rest = if date_lt(d, end) {
            proof {
                lemma_next_day(d);
                lemma_measure_monotone(next_day(d), end);
            }
            attending_days(slices, enroll, withdraw, off, next_day(d), end)
        } else {
            Seq::empty()
        };
        if attends(slices, enroll, withdraw, off, d) {
            seq![d] + rest
        } else {
            rest
        }
    } else {
        Seq::empty()
    }
}

/// One regular attendance to create: the day, its `YYYY-MM-DD` text and the
/// class minutes of that day.
#[derive(Clone, Debug)]
pub struct PlannedAttendance {
    pub date: CivilDate,
    pub event_date: String,
    pub class_minutes: i64,
}

pub open spec fn planned_days(v: Seq<PlannedAttendance>) -> Seq<CivilDate> {
    v.map_values(|p: PlannedAttendance| p.date)
}

/// The entry carries the text and the class minutes of its day.
pub open spec fn planned_entry_ok(p: PlannedAttendance, slices: Seq<ScheduleSlice>) -> bool {
    &&& p.date.wf()
    &&& p.event_date@ == date_text(p.date)
    &&& class_minutes_on(slices, p.date) == Some(p.class_minutes)
}

/// The entry for one day, when the student attends that day.
fn day_entry(
    slices: &Vec<ScheduleSlice>,
    enroll: CivilDate,
    withdraw: Option<CivilDate>,
    off_dates: &Vec<String>,
    d: CivilDate,
) -> (r: Option<PlannedAttendance>)
    requires
        d.wf(),
    ensures
        r is Some <==> attends(slices@, enroll, withdraw, texts(off_dates@), d),
        r matches Some(p) ==> p.date == d && planned_entry_ok(p, slices@),
{
    match minutes_for_date(slices, d) {
        Some(minutes) => {
            let in_range = date_le_exec(enroll, d) && match withdraw {
                Some(w) => date_le_exec(d, w),
                None => true,
            };
            if !in_range {
                return None;
            }
            let ds = civil_text(d);
            if contains_text(off_dates, ds.as_str()) {
                return None;
            }
            Some(PlannedAttendance { date: d, event_date: ds, class_minutes: minutes })
        },
        None => None,
    }
}

/// Unfolds `attending_days` one step.
proof fn lemma_attending_step(
    slices: Seq<ScheduleSlice>,
    enroll: CivilDate,
    withdraw: Option<CivilDate>,
    off: Seq<Seq<char>>,
    d: CivilDate,
    end: CivilDate,
)
    requires
        d.wf(),
        end.wf(),
        date_lt(d, end),
        !end.is_max(),
    ensures
        attending_days(slices, enroll, withdraw, off, d, end) == (if attends(
            slices,
            enroll,
            withdraw,
            off,
            d,
        ) {
            seq![d] + attending_days(slices, enroll, withdraw, off, next_day(d), end)
        } else {
            attending_days(slices, enroll, withdraw, off, next_day(d), end)
        }),
{
}

pub open spec fn msg_date_overflow() -> Seq<char> {
    "날짜 계산 오버플로"@
}

pub open spec fn msg_off_overflow() -> Seq<char> {
    "OFF 날짜 계산 오버플로"@
}

/// The regular attendances of one student from `start` to `end`: one entry per
/// class day (see `attends`), in calendar order. Reaching past the last date
/// `chrono` holds is an error.
pub fn plan_span(
    slices: &Vec<ScheduleSlice>,
    enroll: CivilDate,
    withdraw: Option<CivilDate>,
    start: CivilDate,
    end: CivilDate,
    off_dates: &Vec<String>,
    overflow_msg: &str,
) -> (r: Result<Vec<PlannedAttendance>, String>)
    requires
        start.wf(),
        end.wf(),
    ensures
        r is Err <==> date_le(start, end) && end.is_max(),
        r matches Err(e) ==> e@ == overflow_msg@,
        r matches Ok(v) ==> {
            &&& planned_days(v@) == attending_days(
                slices@,
                enroll,
                withdraw,
                texts(off_dates@),
                start,
                end,
            )
            &&& forall|i: int| 0 <= i < v@.len() ==> planned_entry_ok(#[trigger] v@[i], slices@)
        },
{
    let mut out: Vec<PlannedAttendance> = Vec::new();
    if !date_le_exec(start, end) {
        return Ok(out);
    }
    if is_max_exec(end) {
        return Err(String::from_str(overflow_msg));
    }
    let ghost off = texts(off_dates@);
    let mut d = start;
    while date_lt_exec(d, end)
        invariant
            d.wf(),
            end.wf(),
            start.wf(),
            date_le(d, end),
            !end.is_max(),
            planned_days(out@) + attending_days(slices@, enroll, withdraw, off, d, end)
                == attending_days(slices@, enroll, withdraw, off, start, end),
            forall|i: int| 0 <= i < out@.len() ==> planned_entry_ok(#[trigger] out@[i], slices@),
            off == texts(off_dates@),
        decreases date_measure(end) - date_measure(d),
    {
        proof {
            lemma_attending_step(slices@, enroll, withdraw, off, d, end);
            lemma_next_day(d);
            lemma_measure_monotone(next_day(d), end);
        }
        let ghost before = out@;
        match day_entry(slices, enroll, withdraw, off_dates, d) {
            Some(p) => {
                out.push(p);
                assert(planned_days(out@) =~= planned_days(before).push(d));
            },
            None => {},
        }
        d = match civil_succ(d) {
            Some(n) => n,
            None => {
                assert(false);
                return Err(String::from_str(overflow_msg));
            },
        };
    }
    let ghost before = out@;
    assert(d == end);
    match day_entry(slices, enroll, withdraw, off_dates, d) {
        Some(p) => {
            out.push(p);
            assert(planned_days(out@) =~= planned_days(before).push(d));
        },
        None => {},
    }
    Ok(out)
}

/// The regular attendances of one student for a month's teaching period
/// `start..=end`; a student without any schedule gets none.
pub fn plan_attendances(
    slices: &Vec<ScheduleSlice>,
    enroll: CivilDate,
    withdraw: Option<CivilDate>,
    start: CivilDate,
    end: CivilDate,
    off_dates: &Vec<String>,
) -> (r: Result<Vec<PlannedAttendance>, String>)
    requires
        start.wf(),
        end.wf(),
    ensures
        r is Err <==> slices.len() > 0 && date_le(start, end) && end.is_max(),
        r matches Err(e) ==> e@ == msg_date_overflow(),
        r matches Ok(v) ==> {
            &&& slices.len() == 0 ==> v@.len() == 0
            &&& slices.len() > 0 ==> planned_days(v@) == attending_days(
                slices@,
                enroll,
                withdraw,
                texts(off_dates@),
                start,
                end,
            )
            &&& forall|i: int| 0 <= i < v@.len() ==> planned_entry_ok(#[trigger] v@[i], slices@)
        },
{
    if slices.len() == 0 {
        return Ok(Vec::new());
    }
    plan_span(slices, enroll, withdraw, start, end, off_dates, "날짜 계산 오버플로")
}

// ───────────────────────────── dates from text ─────────────────────────────

pub open spec fn parse_date_error(s: Seq<char>, e: Seq<char>) -> Seq<char> {
    "날짜 파싱 실패 ("@ + s + "): "@ + e
}

/// What `parse_date` gives for a text: the date `chrono` reads, or the error.
pub open spec fn parsed_date(s: Seq<char>) -> Result<CivilDate, Seq<char>> {
    match chrono_parse_ymd(s) {
        Ok(t) => Ok(ymd(t.0, t.1, t.2)),
        Err(e) => Err(parse_date_error(s, e)),
    }
}

/// Reads a `YYYY-MM-DD` date (with `chrono`'s `%Y-%m-%d` parser).
pub fn parse_date(s: &str) -> (r: Result<CivilDate, String>)
    ensures
        r matches Ok(d) ==> d.wf() && parsed_date(s@) == Ok::<CivilDate, Seq<char>>(d),
        r matches Err(x) ==> parsed_date(s@) == Err::<CivilDate, Seq<char>>(x@),
        canonical_date_shape(s@) ==> (r is Ok <==> canonical_date_value(s@) is Some),
        canonical_date_shape(s@) ==> (r matches Ok(d) ==> Some(d) == canonical_date_value(s@)),
{
    match parse_civil(s) {
        Ok(d) => Ok(d),
        Err(e) => {
            let msg = String::from_str("날짜 파싱 실패 (");
            let msg = msg.concat(s);
            let msg = msg.concat("): ");
            Err(msg.concat(e.as_str()))
        },
    }
}

/// Every day from `d` to `end` (both included), in calendar order.
pub open spec fn span_days(d: CivilDate, end: CivilDate) -> Seq<CivilDate>
    decreases date_measure(end) - date_measure(d),
{
    if d.wf() && end.wf() && date_le(d, end) && !end.is_max() {
        if date_lt(d, end) {
            proof {
                lemma_next_day(d);
                lemma_measure_monotone(next_day(d), end);
            }
            seq![d] + span_days(next_day(d), end)
        } else {
            seq![d]
        }
    } else {
        Seq::empty()
    }
}

pub open spec fn day_texts(days: Seq<CivilDate>) -> Seq<Seq<char>> {
    days.map_values(|d: CivilDate| date_text(d))
}

pub open spec fn pair_texts(rows: Seq<(String, String)>) -> Seq<(Seq<char>, Seq<char>)> {
    rows.map_values(|r: (String, String)| (r.0@, r.1@))
}

/// The texts of all days covered by the `(first day, last day)` ranges, range
/// by range; the first unreadable date, or a range reaching the last date
/// `chrono` holds, makes it an error.
pub open spec fn expanded_ranges(rows: Seq<(Seq<char>, Seq<char>)>) -> Result<Seq<Seq<char>>, Seq<char>>
    decreases rows.len(),
{
    if rows.len() == 0 {
        Ok(Seq::empty())
    } else {
        match parsed_date(rows[0].0) {
            Err(e) => Err(e),
            Ok(s) => match parsed_date(rows[0].1) {
                Err(e) => Err(e),
                Ok(e) => if date_le(s, e) && e.is_max() {
                    Err(msg_off_overflow())
                } else {
                    match expanded_ranges(rows.drop_first()) {
                        Ok(rest) => Ok(day_texts(span_days(s, e)) + rest),
                        Err(x) => Err(x),
                    }
                },
            },
        }
    }
}

/// Appends the texts of the days `d..=end`.
pub(crate) fn push_span(out: &mut Vec<String>, d0: CivilDate, end: CivilDate)
    requires
        d0.wf(),
        end.wf(),
        !(date_le(d0, end) && end.is_max()),
    ensures
        texts(final(out)@) == texts(old(out)@) + day_texts(span_days(d0, end)),
{
    let ghost start = texts(out@);
    if !date_le_exec(d0, end) {
        assert(texts(out@) =~= start + day_texts(span_days(d0, end)));
        return;
    }
    let mut d = d0;
    while date_lt_exec(d, end)
        invariant
            d.wf(),
            end.wf(),
            date_le(d, end),
            !end.is_max(),
            texts(out@) + day_texts(span_days(d, end)) == start + day_texts(span_days(d0, end)),
        decreases date_measure(end) - date_measure(d),
    {
        proof {
            lemma_next_day(d);
            lemma_measure_monotone(next_day(d), end);
        }
        let ghost before = texts(out@);
        out.push(civil_text(d));
        proof {
            assert(texts(out@) =~= before.push(date_text(d)));
            assert(span_days(d, end) =~= seq![d] + span_days(next_day(d), end));
            assert(day_texts(span_days(d, end)) =~= seq![date_text(d)] + day_texts(
                span_days(next_day(d), end),
            ));
        }
        d = match civil_succ(d) {
            Some(n) => n,
            None => {
                assert(false);
                return;
            },
        };
    }
    let ghost before = texts(out@);
    out.push(civil_text(d));
    proof {
        assert(texts(out@) =~= before.push(date_text(d)));
        assert(span_days(d, end) =~= seq![d]);
        assert(day_texts(span_days(d, end)) =~= seq![date_text(d)]);
    }
}

/// The texts of all days covered by the ranges of schedule events (each given
/// as its first day and its last day), range by range.
pub fn expand_date_ranges(rows: &Vec<(String, String)>) -> (r: Result<Vec<String>, String>)
    ensures
        match expanded_ranges(pair_texts(rows@)) {
            Ok(t) => r matches Ok(v) && texts(v@) == t,
            Err(e) => r matches Err(x) && x@ == e,
        },
{
    let mut out: Vec<String> = Vec::new();
    let mut i: usize = 0;
    let ghost all = pair_texts(rows@);
    assert(all.skip(0) =~= all);
    assert(texts(out@) =~= Seq::<Seq<char>>::empty());
    while i < rows.len()
        invariant
            i <= rows.len(),
            all == pair_texts(rows@),
            match expanded_ranges(all) {
                Ok(t) => match expanded_ranges(all.skip(i as int)) {
                    Ok(rest) => t == texts(out@) + rest,
                    Err(x) => false,
                },
                Err(e) => match expanded_ranges(all.skip(i as int)) {
                    Ok(rest) => false,
                    Err(x) => x == e,
                },
            },
        decreases rows.len() - i,
    {
        let row = &rows[i];
        assert(all.skip(i as int)[0] == (row.0@, row.1@));
        assert(all.skip(i as int).drop_first() =~= all.skip(i + 1));
        let s = parse_date(row.0.as_str())?;
        let e = parse_date(row.1.as_str())?;
        if date_le_exec(s, e) && is_max_exec(e) {
            return Err(String::from_str("OFF 날짜 계산 오버플로"));
        }
        let ghost before = texts(out@);
        push_span(&mut out, s, e);
        i = i + 1;
    }
    Ok(out)
}

} // verus!
