//! Academic calendar rules: teaching periods, schedule codes and the
//! placement of schedule events on the calendar.

use vstd::prelude::*;
use vstd::string::*;
use vstd::utf8::{encode_utf8, is_char_boundary};
use crate::civil::{civil_from_ymd, civil_weekday, iso_weekday, valid_ymd, ymd, CivilDate};
use crate::text::{
    i32_text_value, lemma_text_le_trans, lemma_text_trichotomy, parse_i32_text, parse_u32_text, split_char, split_on, str_eq, str_le, str_lt,
    text_le, text_lt, u32_text_value,
};

verus! {

// ───────────────────────────── stored shapes ─────────────────────────────

/// A teaching period (one per month).
#[derive(Clone, Debug, PartialEq, Eq)]
pub struct StudyPeriod {
    pub id: i64,
    pub year_month: String,
    pub start_date: String,
    pub end_date: String,
    pub is_confirmed: bool,
    pub is_closed: bool,
    pub created_at: String,
    pub updated_at: String,
}

/// A new teaching period.
#[derive(Clone, Debug)]
pub struct CreateStudyPeriodPayload {
    pub year_month: String,
    pub start_date: String,
    pub end_date: String,
}

/// New days of a teaching period.
#[derive(Clone, Debug)]
pub struct UpdateStudyPeriodPayload {
    pub start_date: String,
    pub end_date: String,
}

/// What deleting a confirmed period with its events would do.
#[derive(Clone, Debug, PartialEq, Eq)]
pub struct CascadeDeletePreview {
    pub affected_count: i64,
    pub holiday_count: i64,
    pub deletable: bool,
    pub reason: Option<String>,
}

/// A schedule code with its three class attributes.
#[derive(Clone, Debug, PartialEq, Eq)]
pub struct ScheduleCode {
    pub id: i64,
    pub code_name: String,
    pub is_system_reserved: bool,
    pub allows_regular_class: bool,
    pub allows_makeup_class: bool,
    pub is_duplicate_blocked: bool,
    pub is_period_type: bool,
    pub is_active: bool,
    pub created_at: String,
    pub updated_at: String,
}

/// A user-defined schedule code.
#[derive(Clone, Debug)]
pub struct CreateScheduleCodePayload {
    pub code_name: String,
    pub allows_regular_class: bool,
    pub allows_makeup_class: bool,
    pub is_duplicate_blocked: bool,
    pub is_period_type: bool,
}

/// New attributes of a user-defined schedule code.
#[derive(Clone, Debug)]
pub struct UpdateScheduleCodePayload {
    pub allows_regular_class: bool,
    pub allows_makeup_class: bool,
    pub is_duplicate_blocked: bool,
    pub is_period_type: bool,
}

/// A schedule event placed on the calendar.
#[derive(Clone, Debug, PartialEq, Eq)]
pub struct ScheduleEvent {
    pub id: i64,
    pub code_id: i64,
    pub event_date: String,
    pub period_end_date: Option<String>,
    pub display_name: Option<String>,
    pub created_at: String,
    pub updated_at: String,
}

/// A schedule event with the attributes of its code, for the calendar.
#[derive(Clone, Debug, PartialEq, Eq)]
pub struct ScheduleEventListItem {
    pub id: i64,
    pub code_id: i64,
    pub code_name: String,
    pub is_system_reserved: bool,
    pub is_duplicate_blocked: bool,
    pub is_period_type: bool,
    pub is_seeded: bool,
    pub allows_regular_class: bool,
    pub allows_makeup_class: bool,
    pub event_date: String,
    pub period_end_date: Option<String>,
    pub display_name: Option<String>,
}

/// A new schedule event.
#[derive(Clone, Debug)]
pub struct CreateScheduleEventPayload {
    pub code_id: i64,
    pub event_date: String,
    pub period_end_date: Option<String>,
    pub display_name: Option<String>,
}

/// New days and name of a schedule event.
#[derive(Clone, Debug)]
pub struct UpdateScheduleEventPayload {
    pub event_date: String,
    pub period_end_date: Option<String>,
    pub display_name: Option<String>,
}

// ───────────────────────────── dates of events ─────────────────────────────

/// Whether a text has a `YYYY-MM` prefix to take: at least seven bytes, a
/// `-` at byte 4, and byte 7 on a character boundary.
pub open spec fn year_month_prefix(b: Seq<u8>) -> bool {
    b.len() >= 7 && b[4] == 45 && is_char_boundary(b, 7)
}

/// The `YYYY-MM` part of a `YYYY-MM-DD` text: its first seven bytes, when the
/// text is at least seven bytes long with a `-` at byte 4 and those seven
/// bytes end on a character boundary; `None` for any other text.
pub fn year_month_of(date_str: &str) -> (r: Option<String>)
    ensures
        r is Some <==> year_month_prefix(date_str.spec_bytes()),
        r matches Some(s) ==> encode_utf8(s@) == date_str.spec_bytes().subrange(0, 7),
{
    let b = date_str.as_bytes();
    if b.len() >= 7 && b[4] == 45u8 && date_str.is_char_boundary(7) {
        let (head, _) = date_str.split_at(7);
        let s = String::from_str(head);
        Some(s)
    } else {
        None
    }
}

/// The ISO weekday (1 = Monday) of a `YYYY-MM-DD` text, reading each part
/// with a fallback (year 2000, month 1, day 1) and falling back to
/// 2000-01-01 when the parts make no date; a text without exactly three parts
/// counts as a Monday.
pub open spec fn iso_dow_text(date: Seq<char>) -> int {
    let p = split_on(date, '-');
    if p.len() != 3 {
        1
    } else {
        let y = match i32_text_value(p[0]) {
            Some(v) => v,
            None => 2000,
        };
        let m = match u32_text_value(p[1]) {
            Some(v) => v,
            None => 1,
        };
        let d = match u32_text_value(p[2]) {
            Some(v) => v,
            None => 1,
        };
        if valid_ymd(y, m, d) {
            iso_weekday(ymd(y, m, d))
        } else {
            iso_weekday(ymd(2000, 1, 1))
        }
    }
}

/// ISO weekday of a `YYYY-MM-DD` text (see `iso_dow_text`).
pub fn iso_dow_of(date: &str) -> (r: i64)
    ensures
        r == iso_dow_text(date@),
{
    let parts = split_char(date, '-');
    let ghost pv = parts@.map_values(|x: String| x@);
    if parts.len() != 3 {
        return 1;
    }
    assert(pv[0] == parts@[0]@ && pv[1] == parts@[1]@ && pv[2] == parts@[2]@);
    let y = match parse_i32_text(parts[0].as_str()) {
        Some(v) => v,
        None => 2000,
    };
    let m = match parse_u32_text(parts[1].as_str()) {
        Some(v) => v,
        None => 1,
    };
    let d = match parse_u32_text(parts[2].as_str()) {
        Some(v) => v,
        None => 1,
    };
    let nd = match civil_from_ymd(y, m, d) {
        Some(x) => x,
        None => CivilDate { year: 2000, month: 1, day: 1 },
    };
    civil_weekday(nd) as i64
}

/// Whether a weekday is an operating day under the operating hours, each
/// given as `(day_of_week, has_open_time, has_close_time)`: the first entry of
/// that weekday decides (both times set); a weekday without entry counts as
/// operating.
pub open spec fn operating_on(hours: Seq<(i64, bool, bool)>, dow: i64) -> bool
    decreases hours.len(),
{
    if hours.len() == 0 {
        true
    } else if hours[0].0 == dow {
        hours[0].1 && hours[0].2
    } else {
        operating_on(hours.drop_first(), dow)
    }
}

/// Operating-day lookup (see `operating_on`).
pub fn is_operating_day(hours: &Vec<(i64, bool, bool)>, dow: i64) -> (r: bool)
    ensures
        r == operating_on(hours@, dow),
{
    let mut i: usize = 0;
    assert(hours@.skip(0) =~= hours@);
    while i < hours.len()
        invariant
            i <= hours.len(),
            operating_on(hours@, dow) == operating_on(hours@.skip(i as int), dow),
        decreases hours.len() - i,
    {
        assert(hours@.skip(i as int)[0] == hours@[i as int]);
        assert(hours@.skip(i as int).drop_first() =~= hours@.skip(i + 1));
        let h = hours[i];
        if h.0 == dow {
            return h.1 && h.2;
        }
        i = i + 1;
    }
    true
}

// ───────────────────────────── placement ─────────────────────────────

/// An event already on the calendar whose span meets the new one.
#[derive(Clone, Debug)]
pub struct ExistingEvent {
    pub is_duplicate_blocked: i64,
    pub code_name: String,
    pub allows_regular_class: i64,
    pub allows_makeup_class: i64,
}

/// Some existing event other than a make-up day blocks all classes.
pub open spec fn has_class_blocker(ex: Seq<ExistingEvent>) -> bool {
    exists|i: int|
        0 <= i < ex.len() && (#[trigger] ex[i]).code_name@ != "보강데이"@
            && ex[i].allows_regular_class == 0 && ex[i].allows_makeup_class == 0
}

/// Some existing event has the code `n`.
pub open spec fn has_code(ex: Seq<ExistingEvent>, n: Seq<char>) -> bool {
    exists|i: int| 0 <= i < ex.len() && (#[trigger] ex[i]).code_name@ == n
}

/// Some existing event has a code other than `n`.
pub open spec fn has_other_code(ex: Seq<ExistingEvent>, n: Seq<char>) -> bool {
    exists|i: int| 0 <= i < ex.len() && (#[trigger] ex[i]).code_name@ != n
}

/// Some existing event has a code that tolerates no other event.
pub open spec fn has_dup_blocked(ex: Seq<ExistingEvent>) -> bool {
    exists|i: int| 0 <= i < ex.len() && (#[trigger] ex[i]).is_duplicate_blocked != 0
}

pub open spec fn msg_makeup_day_on_class_day() -> Seq<char> {
    "보강데이는 수업이 있는 일자에는 배치할 수 없습니다. 휴원일/방학/공휴일 등 수업 없는 일자에만 가능합니다."@
}

pub open spec fn msg_holiday_class_needs_holiday() -> Seq<char> {
    "공휴수업일은 공휴일이 지정된 날에만 배치할 수 있습니다."@
}

pub open spec fn msg_holiday_class_with_other() -> Seq<char> {
    "공휴수업일은 공휴일 외 다른 일정과 중복될 수 없습니다."@
}

pub open spec fn msg_dup_blocked_new() -> Seq<char> {
    "중복불가 코드는 다른 일정이 있는 날짜에 배치할 수 없습니다."@
}

pub open spec fn msg_dup_blocked_existing() -> Seq<char> {
    "해당 일자에 중복불가 일정이 있어 배치할 수 없습니다."@
}

pub open spec fn msg_same_code() -> Seq<char> {
    "동일 일자에 같은 코드의 일정이 이미 존재합니다."@
}

pub open spec fn msg_outside_period() -> Seq<char> {
    "학사 일정은 확정된 교습기간 내 일자에만 배치할 수 있습니다."@
}

/// The placement rules of a schedule event, in order:
/// 1. a make-up day goes only on a non-operating day or a day another code
///    closes to all classes;
/// 2. a holiday class day goes only onto a holiday and next to nothing else;
///    otherwise, on a day with events, a code that tolerates no other event is
///    refused (except a holiday next to holiday class days only), and so is
///    any code next to an event that tolerates no other;
/// 3. a code is not placed twice on one day;
/// 4. the event lies inside a confirmed teaching period.
pub open spec fn placement_outcome(
    code_name: Seq<char>,
    is_dup_blocked: bool,
    ex: Seq<ExistingEvent>,
    operating_day: bool,
    same_code_count: i64,
    in_period_count: i64,
) -> Result<(), Seq<char>> {
    if code_name == "보강데이"@ && operating_day && !has_class_blocker(ex) {
        Err(msg_makeup_day_on_class_day())
    } else if code_name == "공휴수업일"@ && !has_code(ex, "공휴일"@) {
        Err(msg_holiday_class_needs_holiday())
    } else if code_name == "공휴수업일"@ && has_other_code(ex, "공휴일"@) {
        Err(msg_holiday_class_with_other())
    } else if code_name != "공휴수업일"@ && ex.len() > 0 && is_dup_blocked && !(code_name
        == "공휴일"@ && !has_other_code(ex, "공휴수업일"@)) {
        Err(msg_dup_blocked_new())
    } else if code_name != "공휴수업일"@ && ex.len() > 0 && !is_dup_blocked && has_dup_blocked(
        ex,
    ) {
        Err(msg_dup_blocked_existing())
    } else if same_code_count > 0 {
        Err(msg_same_code())
    } else if in_period_count == 0 {
        Err(msg_outside_period())
    } else {
        Ok(())
    }
}

fn has_class_blocker_exec(ex: &Vec<ExistingEvent>) -> (r: bool)
    ensures
        r == has_class_blocker(ex@),
{
    let mut i: usize = 0;
    while i < ex.len()
        invariant
            i <= ex.len(),
            forall|k: int|
                0 <= k < i ==> !((#[trigger] ex@[k]).code_name@ != "보강데이"@
                    && ex@[k].allows_regular_class == 0 && ex@[k].allows_makeup_class == 0),
        decreases ex.len() - i,
    {
        let e = &ex[i];
        if !str_eq(e.code_name.as_str(), "보강데이") && e.allows_regular_class == 0
            && e.allows_makeup_class == 0 {
            return true;
        }
        i = i + 1;
    }
    false
}

fn has_code_exec(ex: &Vec<ExistingEvent>, n: &str) -> (r: bool)
    ensures
        r == has_code(ex@, n@),
{
    let mut i: usize = 0;
    while i < ex.len()
        invariant
            i <= ex.len(),
            forall|k: int| 0 <= k < i ==> (#[trigger] ex@[k]).code_name@ != n@,
        decreases ex.len() - i,
    {
        if str_eq(ex[i].code_name.as_str(), n) {
            return true;
        }
        i = i + 1;
    }
    false
}

fn has_other_code_exec(ex: &Vec<ExistingEvent>, n: &str) -> (r: bool)
    ensures
        r == has_other_code(ex@, n@),
{
    let mut i: usize = 0;
    while i < ex.len()
        invariant
            i <= ex.len(),
            forall|k: int| 0 <= k < i ==> (#[trigger] ex@[k]).code_name@ == n@,
        decreases ex.len() - i,
    {
        if !str_eq(ex[i].code_name.as_str(), n) {
            return true;
        }
        i = i + 1;
    }
    false
}

fn has_dup_blocked_exec(ex: &Vec<ExistingEvent>) -> (r: bool)
    ensures
        r == has_dup_blocked(ex@),
{
    let mut i: usize = 0;
    while i < ex.len()
        invariant
            i <= ex.len(),
            forall|k: int| 0 <= k < i ==> (#[trigger] ex@[k]).is_duplicate_blocked == 0,
        decreases ex.len() - i,
    {
        if ex[i].is_duplicate_blocked != 0 {
            return true;
        }
        i = i + 1;
    }
    false
}

/// Whether the placement check reads the operating hours: only for a
/// make-up day.
pub fn placement_needs_operating_day(code_name: &str) -> (r: bool)
    ensures
        r == (code_name@ == "보강데이"@),
{
    str_eq(code_name, "보강데이")
}

/// Checks the placement of an event of code `code_name` (see
/// `placement_outcome`), given the events already meeting its span, whether
/// its first day is an operating day, how many events of the same code lie on
/// its first day, and how many confirmed periods contain its span.
pub fn check_placement_constraints(
    code_name: &str,
    is_dup_blocked: bool,
    existing: &Vec<ExistingEvent>,
    operating_day: bool,
    same_code_count: i64,
    in_period_count: i64,
) -> (r: Result<(), String>)
    ensures
        match placement_outcome(
            code_name@,
            is_dup_blocked,
            existing@,
            operating_day,
            same_code_count,
            in_period_count,
        ) {
            Ok(()) => r is Ok,
            Err(e) => r matches Err(x) && x@ == e,
        },
{
    if str_eq(code_name, "보강데이") {
        let blocker = has_class_blocker_exec(existing);
        if operating_day && !blocker {
            return Err(
                String::from_str(
                    "보강데이는 수업이 있는 일자에는 배치할 수 없습니다. 휴원일/방학/공휴일 등 수업 없는 일자에만 가능합니다.",
                ),
            );
        }
    }
    if str_eq(code_name, "공휴수업일") {
        if !has_code_exec(existing, "공휴일") {
            return Err(String::from_str("공휴수업일은 공휴일이 지정된 날에만 배치할 수 있습니다."));
        }
        if has_other_code_exec(existing, "공휴일") {
            return Err(String::from_str("공휴수업일은 공휴일 외 다른 일정과 중복될 수 없습니다."));
        }
    } else if existing.len() > 0 {
        let only_holiday_class = !has_other_code_exec(existing, "공휴수업일");
        let is_holiday_target = str_eq(code_name, "공휴일");
        if is_dup_blocked {
            if !(is_holiday_target && only_holiday_class) {
                return Err(String::from_str("중복불가 코드는 다른 일정이 있는 날짜에 배치할 수 없습니다."));
            }
        } else if has_dup_blocked_exec(existing) {
            return Err(String::from_str("해당 일자에 중복불가 일정이 있어 배치할 수 없습니다."));
        }
    }
    if same_code_count > 0 {
        return Err(String::from_str("동일 일자에 같은 코드의 일정이 이미 존재합니다."));
    }
    if in_period_count == 0 {
        return Err(String::from_str("학사 일정은 확정된 교습기간 내 일자에만 배치할 수 있습니다."));
    }
    Ok(())
}

/// A holiday class day is placed only where holidays, and nothing else,
/// already stand.
pub proof fn lemma_holiday_class_only_on_holidays(
    ex: Seq<ExistingEvent>,
    operating_day: bool,
    same_code_count: i64,
    in_period_count: i64,
)
    requires
        placement_outcome("공휴수업일"@, false, ex, operating_day, same_code_count, in_period_count)
            is Ok,
    ensures
        ex.len() > 0,
        forall|i: int| 0 <= i < ex.len() ==> (#[trigger] ex[i]).code_name@ == "공휴일"@,
{
    reveal_strlit("공휴수업일");
    reveal_strlit("보강데이");
    assert("공휴수업일"@ != "보강데이"@) by {
        assert("공휴수업일"@[0] != "보강데이"@[0]);
    }
}

/// Nothing is placed next to an event that tolerates no other event, except
/// a holiday class day onto a holiday.
pub proof fn lemma_dup_blocked_events_stay_alone(
    code_name: Seq<char>,
    is_dup_blocked: bool,
    ex: Seq<ExistingEvent>,
    operating_day: bool,
    same_code_count: i64,
    in_period_count: i64,
)
    requires
        placement_outcome(code_name, is_dup_blocked, ex, operating_day, same_code_count, in_period_count)
            is Ok,
        has_dup_blocked(ex),
        code_name != "공휴수업일"@,
    ensures
        is_dup_blocked && code_name == "공휴일"@ && !has_other_code(ex, "공휴수업일"@),
{
}

// ───────────────────────────── event checks ─────────────────────────────

pub open spec fn msg_period_end_required() -> Seq<char> {
    "기간성 코드는 종료 일자(period_end_date) 가 필요합니다."@
}

pub open spec fn msg_period_end_forbidden() -> Seq<char> {
    "단일 일자 코드는 종료 일자를 지정할 수 없습니다."@
}

/// A period-type code needs an end day; a single-day code takes none.
pub fn check_period_consistency(is_period_type: bool, period_end_date: Option<&str>) -> (r: Result<
    (),
    String,
>)
    ensures
        is_period_type && period_end_date is None ==> (r matches Err(e) && e@
            == msg_period_end_required()),
        !is_period_type && period_end_date is Some ==> (r matches Err(e) && e@
            == msg_period_end_forbidden()),
        (is_period_type == period_end_date is Some) ==> r is Ok,
{
    if is_period_type && period_end_date.is_none() {
        return Err(String::from_str("기간성 코드는 종료 일자(period_end_date) 가 필요합니다."));
    }
    if !is_period_type && period_end_date.is_some() {
        return Err(String::from_str("단일 일자 코드는 종료 일자를 지정할 수 없습니다."));
    }
    Ok(())
}

pub open spec fn msg_code_missing() -> Seq<char> {
    "해당 학사 일정 코드를 찾을 수 없습니다."@
}

pub open spec fn msg_event_missing() -> Seq<char> {
    "해당 학사 일정을 찾을 수 없습니다."@
}

pub open spec fn msg_event_date_format() -> Seq<char> {
    "기존 일자 형식 오류"@
}

pub open spec fn msg_event_past_update() -> Seq<char> {
    "지난 달의 학사 일정은 수정할 수 없습니다."@
}

pub open spec fn msg_event_past_delete() -> Seq<char> {
    "지난 달의 학사 일정은 삭제할 수 없습니다."@
}

pub open spec fn msg_seeded_holiday() -> Seq<char> {
    "시드된 공휴일은 삭제할 수 없습니다."@
}

/// Month prefix check of a stored event day against the current month:
/// the stored day must have a `YYYY-MM` prefix, and that month must not be
/// before `current_ym` (text order).
pub open spec fn event_month_outcome(event_date: Seq<u8>, current_ym: Seq<char>, past_msg: Seq<
    char,
>) -> Result<(), Seq<char>> {
    if !year_month_prefix(event_date) {
        Err(msg_event_date_format())
    } else {
        let ym = event_date.subrange(0, 7);
        if exists|t: Seq<char>| encode_utf8(t) == ym && text_lt(t, current_ym) {
            Err(past_msg)
        } else {
            Ok(())
        }
    }
}

/// Checks before an event is edited, given the stored event day (`None`
/// when there is no such event) and the current month.
pub fn check_event_update(event_date: Option<&str>, current_ym: &str) -> (r: Result<(), String>)
    ensures
        event_date is None ==> (r matches Err(e) && e@ == msg_event_missing()),
        event_date matches Some(d) ==> match event_month_outcome(
            d.spec_bytes(),
            current_ym@,
            msg_event_past_update(),
        ) {
            Ok(()) => r is Ok,
            Err(e) => r matches Err(x) && x@ == e,
        },
{
    let d = match event_date {
        Some(d) => d,
        None => {
            return Err(String::from_str("해당 학사 일정을 찾을 수 없습니다."));
        },
    };
    check_event_month(d, current_ym, "지난 달의 학사 일정은 수정할 수 없습니다.")
}

fn check_event_month(d: &str, current_ym: &str, past_msg: &str) -> (r: Result<(), String>)
    ensures
        match event_month_outcome(d.spec_bytes(), current_ym@, past_msg@) {
            Ok(()) => r is Ok,
            Err(e) => r matches Err(x) && x@ == e,
        },
{
    let ym = match year_month_of(d) {
        Some(y) => y,
        None => {
            return Err(String::from_str("기존 일자 형식 오류"));
        },
    };
    proof {
        vstd::utf8::encode_utf8_decode_utf8(ym@);
    }
    if str_lt(ym.as_str(), current_ym) {
        return Err(String::from_str(past_msg));
    }
    proof {
        assert forall|t: Seq<char>| encode_utf8(t) == d.spec_bytes().subrange(0, 7) implies !text_lt(
            t,
            current_ym@,
        ) by {
            vstd::utf8::encode_utf8_decode_utf8(t);
        }
    }
    Ok(())
}

/// Checks before an event is deleted, given the stored event as `(day,
/// is_seeded, code name, is_system_reserved)` (`None` when there is no such
/// event): a seeded system holiday stays, and so do events of past months.
pub fn check_event_delete(event: Option<(&str, i64, &str, i64)>, current_ym: &str) -> (r: Result<
    (),
    String,
>)
    ensures
        event is None ==> (r matches Err(e) && e@ == msg_event_missing()),
        event matches Some((d, seeded, name, reserved)) ==> if reserved != 0 && name@ == "공휴일"@
            && seeded != 0 {
            r matches Err(e) && e@ == msg_seeded_holiday()
        } else {
            match event_month_outcome(d.spec_bytes(), current_ym@, msg_event_past_delete()) {
                Ok(()) => r is Ok,
                Err(e) => r matches Err(x) && x@ == e,
            }
        },
{
    let (d, seeded, name, reserved) = match event {
        Some(e) => e,
        None => {
            return Err(String::from_str("해당 학사 일정을 찾을 수 없습니다."));
        },
    };
    if reserved != 0 && str_eq(name, "공휴일") && seeded != 0 {
        return Err(String::from_str("시드된 공휴일은 삭제할 수 없습니다."));
    }
    check_event_month(d, current_ym, "지난 달의 학사 일정은 삭제할 수 없습니다.")
}

pub open spec fn msg_code_reserved() -> Seq<char> {
    "시스템 예약 코드의 속성은 수정할 수 없습니다."@
}

/// Checks before a code's attributes change, given the stored
/// `is_system_reserved` flag (`None` when there is no such code).
pub fn check_code_update(is_system_reserved: Option<i64>) -> (r: Result<(), String>)
    ensures
        is_system_reserved is None ==> (r matches Err(e) && e@ == msg_code_missing()),
        is_system_reserved matches Some(f) ==> if f != 0 {
            r matches Err(e) && e@ == msg_code_reserved()
        } else {
            r is Ok
        },
{
    match is_system_reserved {
        None => Err(String::from_str("해당 학사 일정 코드를 찾을 수 없습니다.")),
        Some(f) => if f != 0 {
            Err(String::from_str("시스템 예약 코드의 속성은 수정할 수 없습니다."))
        } else {
            Ok(())
        },
    }
}

/// The message for a code name that already exists.
pub fn duplicate_code_message(code_name: &str) -> (r: String)
    ensures
        r@ == "이미 존재하는 코드명입니다: "@ + code_name@,
{
    let m = String::from_str("이미 존재하는 코드명입니다: ");
    m.concat(code_name)
}

// ───────────────────────────── teaching periods ─────────────────────────────

/// A stored period `[start, end]` meets `[new_start, new_end]` (text order).
pub open spec fn meets(start: Seq<char>, end: Seq<char>, new_start: Seq<char>, new_end: Seq<char>) -> bool {
    text_le(start, new_end) && text_le(new_start, end)
}

/// Two periods meet exactly when they share a day: a stored period
/// `[start, end]` and new days `[new_start, new_end]` (each with its start not
/// after its end) meet if and only if some day lies in both. In particular the
/// check is symmetric: it does not matter which of the two is the stored one.
pub proof fn lemma_meets_iff_shared_day(start: Seq<char>, end: Seq<char>, new_start: Seq<char>, new_end: Seq<char>)
    ensures
        meets(start, end, new_start, new_end) == meets(new_start, new_end, start, end),
        forall|x: Seq<char>|
            text_le(start, x) && text_le(x, end) && text_le(new_start, x) && text_le(x, new_end) ==> meets(
                start,
                end,
                new_start,
                new_end,
            ),
        text_le(start, end) && text_le(new_start, new_end) && meets(start, end, new_start, new_end) ==> exists|
            x: Seq<char>,
        | text_le(start, x) && text_le(x, end) && text_le(new_start, x) && text_le(x, new_end),
{
    assert forall|x: Seq<char>|
        text_le(start, x) && text_le(x, end) && text_le(new_start, x) && text_le(x, new_end) implies meets(
            start,
            end,
            new_start,
            new_end,
        ) by {
        lemma_text_le_trans(start, x, new_end);
        lemma_text_le_trans(new_start, x, end);
    }
    if text_le(start, end) && text_le(new_start, new_end) && meets(start, end, new_start, new_end) {
        lemma_text_trichotomy(start, new_start);
        if text_le(start, new_start) {
            assert(text_le(new_start, new_start));
        } else {
            assert(text_le(new_start, start));
            assert(text_le(start, start));
        }
    }
}

pub open spec fn msg_period_overlap() -> Seq<char> {
    "다른 교습기간과 일자가 중첩됩니다."@
}

/// A period other than `exclude` meets the new days.
pub open spec fn overlaps_any(
    periods: Seq<(i64, String, String)>,
    new_start: Seq<char>,
    new_end: Seq<char>,
    exclude: Option<i64>,
) -> bool {
    exists|i: int|
        0 <= i < periods.len() && (exclude matches Some(x) ==> (#[trigger] periods[i]).0 != x) && meets(
            periods[i].1@,
            periods[i].2@,
            new_start,
            new_end,
        )
}

/// Teaching periods must not overlap: refuses new days `[start, end]` that
/// meet a stored period `(id, start, end)` other than `exclude`.
pub fn check_period_overlap(
    periods: &Vec<(i64, String, String)>,
    start_date: &str,
    end_date: &str,
    exclude: Option<i64>,
) -> (r: Result<(), String>)
    ensures
        overlaps_any(periods@, start_date@, end_date@, exclude) ==> (r matches Err(e) && e@
            == msg_period_overlap()),
        !overlaps_any(periods@, start_date@, end_date@, exclude) ==> r is Ok,
{
    let mut i: usize = 0;
    while i < periods.len()
        invariant
            i <= periods.len(),
            forall|k: int|
                0 <= k < i ==> !((exclude matches Some(x) ==> (#[trigger] periods@[k]).0 != x)
                    && meets(periods@[k].1@, periods@[k].2@, start_date@, end_date@)),
        decreases periods.len() - i,
    {
        let p = &periods[i];
        let other = match exclude {
            Some(x) => p.0 != x,
            None => true,
        };
        if other && str_le(p.1.as_str(), end_date) && str_le(start_date, p.2.as_str()) {
            return Err(String::from_str("다른 교습기간과 일자가 중첩됩니다."));
        }
        i = i + 1;
    }
    Ok(())
}

pub open spec fn msg_study_period_missing() -> Seq<char> {
    "해당 교습기간을 찾을 수 없습니다."@
}

pub open spec fn msg_study_period_closed() -> Seq<char> {
    "마감된 교습기간은 수정할 수 없습니다."@
}

pub open spec fn msg_study_period_past() -> Seq<char> {
    "지난 달의 교습기간은 수정할 수 없습니다."@
}

/// Checks before a period's days change, given its stored month and
/// `is_closed` flag (`None` when there is no such period): closed periods and
/// periods of past months stay as they are.
pub fn check_study_period_update(target: Option<(&str, i64)>, current_ym: &str) -> (r: Result<
    (),
    String,
>)
    ensures
        target is None ==> (r matches Err(e) && e@ == msg_study_period_missing()),
        target matches Some((ym, closed)) ==> if closed != 0 {
            r matches Err(e) && e@ == msg_study_period_closed()
        } else if text_lt(ym@, current_ym@) {
            r matches Err(e) && e@ == msg_study_period_past()
        } else {
            r is Ok
        },
{
    let (ym, closed) = match target {
        Some(t) => t,
        None => {
            return Err(String::from_str("해당 교습기간을 찾을 수 없습니다."));
        },
    };
    if closed != 0 {
        return Err(String::from_str("마감된 교습기간은 수정할 수 없습니다."));
    }
    if str_lt(ym, current_ym) {
        return Err(String::from_str("지난 달의 교습기간은 수정할 수 없습니다."));
    }
    Ok(())
}

pub open spec fn msg_study_period_locked() -> Seq<char> {
    "확정 또는 마감된 교습기간은 삭제할 수 없습니다."@
}

/// Checks before an unconfirmed period is deleted, given its stored
/// `(is_confirmed, is_closed)` flags (`None` when there is no such period).
pub fn check_study_period_delete(target: Option<(i64, i64)>) -> (r: Result<(), String>)
    ensures
        target is None ==> (r matches Err(e) && e@ == msg_study_period_missing()),
        target matches Some((c, cl)) ==> if c != 0 || cl != 0 {
            r matches Err(e) && e@ == msg_study_period_locked()
        } else {
            r is Ok
        },
{
    match target {
        None => Err(String::from_str("해당 교습기간을 찾을 수 없습니다.")),
        Some((c, cl)) => if c != 0 || cl != 0 {
            Err(String::from_str("확정 또는 마감된 교습기간은 삭제할 수 없습니다."))
        } else {
            Ok(())
        },
    }
}

pub open spec fn msg_cascade_unconfirmed() -> Seq<char> {
    "미확정 교습기간은 일반 삭제 IPC 를 사용하세요."@
}

pub open spec fn msg_cascade_past() -> Seq<char> {
    "지난 달의 교습기간은 삭제할 수 없습니다."@
}

/// Whether a confirmed period may be deleted with its events, and why not:
/// unconfirmed periods take the plain deletion, past months stay.
pub fn cascade_delete_guard(is_confirmed: i64, year_month: &str, current_ym: &str) -> (r: (
    bool,
    Option<String>,
))
    ensures
        is_confirmed == 0 ==> !r.0 && (r.1 matches Some(m) && m@ == msg_cascade_unconfirmed()),
        is_confirmed != 0 && text_lt(year_month@, current_ym@) ==> !r.0 && (r.1 matches Some(m)
            && m@ == msg_cascade_past()),
        is_confirmed != 0 && !text_lt(year_month@, current_ym@) ==> r.0 && r.1 is None,
{
    if is_confirmed == 0 {
        return (false, Some(String::from_str("미확정 교습기간은 일반 삭제 IPC 를 사용하세요.")));
    }
    if str_lt(year_month, current_ym) {
        return (false, Some(String::from_str("지난 달의 교습기간은 삭제할 수 없습니다.")));
    }
    (true, None)
}

/// The refusal of a cascade deletion the guard did not allow.
pub fn cascade_delete_decision(deletable: bool, reason: Option<String>) -> (r: Result<(), String>)
    ensures
        deletable ==> r is Ok,
        !deletable ==> (r matches Err(e) && match reason {
            Some(m) => e@ == m@,
            None => e@ == "삭제할 수 없습니다."@,
        }),
{
    if deletable {
        return Ok(());
    }
    match reason {
        Some(m) => Err(m),
        None => Err(String::from_str("삭제할 수 없습니다.")),
    }
}

/// Number of events `(day, code name)` within `[start, end]` (text order)
/// whose code is (`holidays`) or is not (`!holidays`) a holiday.
pub open spec fn cascade_count(events: Seq<(String, String)>, start: Seq<char>, end: Seq<char>, holidays: bool) -> int
    decreases events.len(),
{
    if events.len() == 0 {
        0
    } else {
        let e = events.last();
        cascade_count(events.drop_last(), start, end, holidays) + if text_le(start, e.0@) && text_le(
            e.0@,
            end,
        ) && (e.1@ == "공휴일"@) == holidays {
            1int
        } else {
            0int
        }
    }
}

proof fn lemma_cascade_count_bound(events: Seq<(String, String)>, start: Seq<char>, end: Seq<char>, holidays: bool)
    ensures
        0 <= cascade_count(events, start, end, holidays) <= events.len(),
    decreases events.len(),
{
    if events.len() > 0 {
        lemma_cascade_count_bound(events.drop_last(), start, end, holidays);
    }
}

/// The preview of a cascade deletion of the period `[start, end]`: the events
/// inside it that go (all but holidays) and the holidays that stay.
pub fn cascade_delete_preview(
    events: &Vec<(String, String)>,
    start_date: &str,
    end_date: &str,
    deletable: bool,
    reason: Option<String>,
) -> (r: CascadeDeletePreview)
    requires
        events@.len() <= i64::MAX,
    ensures
        r.affected_count == cascade_count(events@, start_date@, end_date@, false),
        r.holiday_count == cascade_count(events@, start_date@, end_date@, true),
        r.deletable == deletable,
        r.reason == reason,
{
    let mut affected: i64 = 0;
    let mut holidays: i64 = 0;
    let mut i: usize = 0;
    while i < events.len()
        invariant
            i <= events.len(),
            events@.len() <= i64::MAX,
            affected == cascade_count(events@.subrange(0, i as int), start_date@, end_date@, false),
            holidays == cascade_count(events@.subrange(0, i as int), start_date@, end_date@, true),
        decreases events.len() - i,
    {
        let e = &events[i];
        proof {
            assert(events@.subrange(0, i + 1).drop_last() =~= events@.subrange(0, i as int));
            assert(events@.subrange(0, i + 1).last() == *e);
            lemma_cascade_count_bound(events@.subrange(0, i as int), start_date@, end_date@, false);
            lemma_cascade_count_bound(events@.subrange(0, i as int), start_date@, end_date@, true);
        }
        if str_le(start_date, e.0.as_str()) && str_le(e.0.as_str(), end_date) {
            if str_eq(e.1.as_str(), "공휴일") {
                holidays = holidays + 1;
            } else {
                affected = affected + 1;
            }
        }
        i = i + 1;
    }
    assert(events@.subrange(0, events.len() as int) =~= events@);
    CascadeDeletePreview { affected_count: affected, holiday_count: holidays, deletable, reason }
}

} // verus!

verus! {

// ───────────────────────────── assessment days ─────────────────────────────

/// Days from `d` to the next Monday (zero on a Monday).
pub open spec fn monday_offset(d: CivilDate) -> int {
    (7 - (iso_weekday(d) - 1)) % 7
}

/// Offset, from the first Monday of the month, of the `i`-th assessment day:
/// Monday to Friday of the second week, then of the fourth.
pub open spec fn assessment_offset(i: int) -> int {
    if i < 5 { 7 + i } else { 21 + (i - 5) }
}

/// The ten assessment days of the month starting on `first`: Monday to Friday
/// of the week after the first Monday, and of two weeks later (they may fall
/// in the next month).
pub fn assessment_dates_from(first: CivilDate) -> (r: Vec<CivilDate>)
    requires
        first.wf(),
        crate::civil::day_number(first) + monday_offset(first) + 25 <= crate::civil::day_number(
            ymd(crate::civil::MAX_YEAR as int, 12, 31),
        ),
    ensures
        r@.len() == 10,
        forall|i: int|
            0 <= i < 10 ==> (#[trigger] r@[i]).wf() && crate::civil::day_number(r@[i])
                == crate::civil::day_number(first) + monday_offset(first) + assessment_offset(i),
{
    let w = civil_weekday(first);
    let offset: u32 = (7 - (w - 1)) % 7;
    let mut out: Vec<CivilDate> = Vec::new();
    let mut i: u32 = 0;
    while i < 10
        invariant
            i <= 10,
            first.wf(),
            w as int == iso_weekday(first),
            offset as int == monday_offset(first),
            crate::civil::day_number(first) + monday_offset(first) + 25 <= crate::civil::day_number(
                ymd(crate::civil::MAX_YEAR as int, 12, 31),
            ),
            out@.len() == i,
            forall|k: int|
                0 <= k < i ==> (#[trigger] out@[k]).wf() && crate::civil::day_number(out@[k])
                    == crate::civil::day_number(first) + monday_offset(first) + assessment_offset(k),
        decreases 10 - i,
    {
        let step: u32 = if i < 5 { 7 + i } else { 21 + (i - 5) };
        match crate::civil::civil_add_days(first, offset + step) {
            Some(d) => {
                out.push(d);
            },
            None => {
                assert(false);
            },
        }
        i = i + 1;
    }
    out
}

pub open spec fn msg_bad_year_month(ym: Seq<char>) -> Seq<char> {
    "잘못된 연월 형식: "@ + ym
}

/// The first day of the month written `ym`, as `chrono` reads `ym-01`.
pub open spec fn month_first_day(ym: Seq<char>) -> Result<CivilDate, Seq<char>> {
    match crate::civil::chrono_parse_ymd(ym + "-01"@) {
        Ok(t) => Ok(ymd(t.0, t.1, t.2)),
        Err(e) => Err(msg_bad_year_month(ym)),
    }
}

/// The assessment days of month `ym` (see `assessment_dates_from`); a text
/// that does not read as a month is refused.
pub fn assessment_dates_for(year_month: &str) -> (r: Result<Vec<CivilDate>, String>)
    requires
        month_first_day(year_month@) matches Ok(f) ==> crate::civil::day_number(f) + monday_offset(f)
            + 25 <= crate::civil::day_number(ymd(crate::civil::MAX_YEAR as int, 12, 31)),
    ensures
        match month_first_day(year_month@) {
            Ok(f) => r matches Ok(v) && v@.len() == 10 && forall|i: int|
                0 <= i < 10 ==> (#[trigger] v@[i]).wf() && crate::civil::day_number(v@[i])
                    == crate::civil::day_number(f) + monday_offset(f) + assessment_offset(i),
            Err(e) => r matches Err(x) && x@ == e,
        },
{
    let text = String::from_str(year_month);
    let text = text.concat("-01");
    match crate::civil::parse_civil(text.as_str()) {
        Ok(first) => Ok(assessment_dates_from(first)),
        Err(_) => {
            let m = String::from_str("잘못된 연월 형식: ");
            Err(m.concat(year_month))
        },
    }
}

/// The assessment days of month `ym`, or `None` when the month is the last
/// one `chrono` holds and the days would run past its range.
pub fn try_assessment_dates(year_month: &str) -> (r: Option<Result<Vec<CivilDate>, String>>)
    ensures
        match month_first_day(year_month@) {
            Ok(f) => if crate::civil::day_number(f) + monday_offset(f) + 25
                <= crate::civil::day_number(ymd(crate::civil::MAX_YEAR as int, 12, 31)) {
                r matches Some(Ok(v)) && v@.len() == 10 && forall|i: int|
                    0 <= i < 10 ==> (#[trigger] v@[i]).wf() && crate::civil::day_number(v@[i])
                        == crate::civil::day_number(f) + monday_offset(f) + assessment_offset(i)
            } else {
                r is None
            },
            Err(e) => r matches Some(Err(x)) && x@ == e,
        },
{
    let text = String::from_str(year_month);
    let text = text.concat("-01");
    match crate::civil::parse_civil(text.as_str()) {
        Ok(first) => {
            let w = civil_weekday(first);
            let offset: u32 = (7 - (w - 1)) % 7;
            match crate::civil::civil_add_days(first, offset + 25) {
                Some(_) => Some(assessment_dates_for(year_month)),
                None => None,
            }
        },
        Err(_) => Some(assessment_dates_for(year_month)),
    }
}

} // verus!
