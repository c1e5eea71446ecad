//! Changes to attendance rows: the present/absent toggle, the one-off move of
//! a class to another day of the same month, and the permanent schedule
//! change that regenerates the rows after a given day.

use vstd::prelude::*;
use vstd::string::*;
use crate::attendance::{
    abs_minutes, following_month, next_month_str, next_month_text, parse_date, parsed_date,
    plan_span, texts, weekly_minutes_on, weekly_total, year_month_error, ym_valid,
    attending_days, planned_days, planned_entry_ok, PlannedAttendance, ScheduleSlice,
};
use crate::civil::{
    civil_pred, civil_weekday, date_le, date_le_exec, date_lt, date_text, iso_weekday, CivilDate,
};
use crate::text::{
    i64_text, int_text, nat_text, split_char, split_on, str_eq, str_lt, text_lt, two_digit_text,
    u32_text_value, parse_u32_text, zero_pad,
};

verus! {

// ───────────────────────────── toggle ─────────────────────────────

/// What a toggle does to the row: its new status, its new make-up deadline
/// (`YYYY-MM`), and whether the absence memo is cleared.
#[derive(Clone, Debug)]
pub struct ToggleChange {
    pub new_status: String,
    pub new_makeup_deadline: Option<String>,
    pub clears_memo: bool,
}

pub open spec fn msg_toggle_status(s: Seq<char>) -> Seq<char> {
    "토글 가능한 상태는 'present' 또는 'absent' 입니다 (요청: "@ + s + ")."@
}

pub open spec fn msg_attendance_missing(id: int) -> Seq<char> {
    "출결 레코드를 찾을 수 없습니다 (id="@ + int_text(id) + ")."@
}

pub open spec fn msg_toggle_makeup_done() -> Seq<char> {
    "이 출결은 보강이 매칭되어 있어 직접 토글할 수 없습니다. 보강 매칭을 먼저 해제하세요."@
}

pub open spec fn msg_toggle_expired() -> Seq<char> {
    "이 결석은 소멸 처리되어 토글할 수 없습니다. 필요 시 소멸 환원을 먼저 수행하세요."@
}

pub open spec fn msg_toggle_same(s: Seq<char>) -> Seq<char> {
    "이미 '"@ + s + "' 상태입니다."@
}

/// The statuses a user may toggle a row to.
pub open spec fn toggle_target(s: Seq<char>) -> bool {
    s == "present"@ || s == "absent"@
}

/// The outcome of a toggle request: the new deadline and whether the memo is
/// cleared, or the refusal. `current` is the row's status and year-month.
pub open spec fn toggle_outcome(
    id: int,
    new_status: Seq<char>,
    current: Option<(Seq<char>, Seq<char>)>,
) -> Result<(Option<Seq<char>>, bool), Seq<char>> {
    if !toggle_target(new_status) {
        Err(msg_toggle_status(new_status))
    } else {
        match current {
            None => Err(msg_attendance_missing(id)),
            Some((status, ym)) => if status == "makeup_done"@ {
                Err(msg_toggle_makeup_done())
            } else if status == "makeup_expired"@ {
                Err(msg_toggle_expired())
            } else if status == new_status {
                Err(msg_toggle_same(new_status))
            } else if new_status == "absent"@ {
                if ym_valid(ym) {
                    Ok((Some(next_month_text(ym)), false))
                } else {
                    Err(year_month_error(ym))
                }
            } else {
                Ok((None, true))
            },
        }
    }
}

pub open spec fn row_view(current: Option<(String, String)>) -> Option<(Seq<char>, Seq<char>)> {
    match current {
        Some((s, ym)) => Some((s@, ym@)),
        None => None,
    }
}

/// Decides a present/absent toggle of attendance row `attendance_id`, given
/// the row's current status and year-month (`None` when no such row).
/// Rows matched to a make-up or expired are never toggled; a row is never
/// toggled to the status it has; an absence gets the next month as make-up
/// deadline, a return to present clears the deadline and the memo.
pub fn plan_toggle(attendance_id: i64, new_status: &str, current: Option<(String, String)>) -> (r:
    Result<ToggleChange, String>)
    ensures
        match toggle_outcome(attendance_id as int, new_status@, row_view(current)) {
            Ok((deadline, clears)) => r matches Ok(c) && c.new_status@ == new_status@
                && c.clears_memo == clears && match c.new_makeup_deadline {
                Some(d) => deadline == Some(d@),
                None => deadline is None,
            },
            Err(e) => r matches Err(x) && x@ == e,
        },
{
    let is_present = str_eq(new_status, "present");
    let is_absent = str_eq(new_status, "absent");
    if !is_present && !is_absent {
        let m = String::from_str("토글 가능한 상태는 'present' 또는 'absent' 입니다 (요청: ");
        let m = m.concat(new_status);
        return Err(m.concat(")."));
    }
    let (status, ym) = match current {
        Some(c) => c,
        None => {
            let m = String::from_str("출결 레코드를 찾을 수 없습니다 (id=");
            let id = i64_text(attendance_id);
            let m = m.concat(id.as_str());
            return Err(m.concat(")."));
        },
    };
    if str_eq(status.as_str(), "makeup_done") {
        return Err(
            String::from_str(
                "이 출결은 보강이 매칭되어 있어 직접 토글할 수 없습니다. 보강 매칭을 먼저 해제하세요.",
            ),
        );
    }
    if str_eq(status.as_str(), "makeup_expired") {
        return Err(
            String::from_str(
                "이 결석은 소멸 처리되어 토글할 수 없습니다. 필요 시 소멸 환원을 먼저 수행하세요.",
            ),
        );
    }
    if str_eq(status.as_str(), new_status) {
        let m = String::from_str("이미 '");
        let m = m.concat(new_status);
        return Err(m.concat("' 상태입니다."));
    }
    if is_absent {
        let next = next_month_str(ym.as_str())?;
        Ok(
            ToggleChange {
                new_status: String::from_str(new_status),
                new_makeup_deadline: Some(next),
                clears_memo: false,
            },
        )
    } else {
        Ok(
            ToggleChange {
                new_status: String::from_str(new_status),
                new_makeup_deadline: None,
                clears_memo: true,
            },
        )
    }
}

/// Marking a present row of a valid month absent is accepted and sets the
/// next month as deadline; marking the resulting absent row present again is
/// accepted, drops the deadline and clears the memo.
pub proof fn lemma_toggle_round_trip(id: int, ym: Seq<char>)
    requires
        ym_valid(ym),
    ensures
        toggle_outcome(id, "absent"@, Some(("present"@, ym))) == Ok::<
            (Option<Seq<char>>, bool),
            Seq<char>,
        >((Some(next_month_text(ym)), false)),
        toggle_outcome(id, "present"@, Some(("absent"@, ym))) == Ok::<
            (Option<Seq<char>>, bool),
            Seq<char>,
        >((None, true)),
{
    reveal_strlit("present");
    reveal_strlit("absent");
    reveal_strlit("makeup_done");
    reveal_strlit("makeup_expired");
    assert("present"@.len() == 7);
    assert("absent"@.len() == 6);
    assert("makeup_done"@.len() == 11);
    assert("makeup_expired"@.len() == 14);
    assert("present"@ != "absent"@);
    assert("present"@ != "makeup_done"@);
    assert("present"@ != "makeup_expired"@);
    assert("absent"@ != "makeup_done"@);
    assert("absent"@ != "makeup_expired"@);
}

/// A row matched to a make-up or expired is refused whatever is asked.
pub proof fn lemma_toggle_blocked_rows(id: int, new_status: Seq<char>, ym: Seq<char>)
    ensures
        toggle_outcome(id, new_status, Some(("makeup_done"@, ym))) is Err,
        toggle_outcome(id, new_status, Some(("makeup_expired"@, ym))) is Err,
{
}

// ───────────────────────────── start time ─────────────────────────────

pub open spec fn msg_time_format() -> Seq<char> {
    "수업 시작시간 형식이 올바르지 않습니다 (예: 16:00)."@
}

pub open spec fn msg_time_hour() -> Seq<char> {
    "수업 시작시간의 시(時)가 올바르지 않습니다."@
}

pub open spec fn msg_time_minute() -> Seq<char> {
    "수업 시작시간의 분(分)이 올바르지 않습니다."@
}

pub open spec fn msg_time_range() -> Seq<char> {
    "수업 시작시간 범위가 올바르지 않습니다 (00:00~23:59)."@
}

/// Whether the seconds field of a three-field time is well formed: a number
/// from 0 to 59 (a two-field time has none to check).
pub open spec fn seconds_ok(parts: Seq<Seq<char>>) -> bool {
    parts.len() == 3 ==> (u32_text_value(parts[2]) matches Some(sec) && sec <= 59)
}

/// `HH:MM` or `HH:MM:SS` read as hour, minute and (checked) seconds, and
/// written back as `HH:MM:00`; any other form is an error.
pub open spec fn normalized_time(t: Seq<char>) -> Result<Seq<char>, Seq<char>> {
    let parts = split_on(t, ':');
    if parts.len() < 2 || parts.len() > 3 {
        Err(msg_time_format())
    } else {
        match u32_text_value(parts[0]) {
            None => Err(msg_time_hour()),
            Some(h) => match u32_text_value(parts[1]) {
                None => Err(msg_time_minute()),
                Some(m) => if h > 23 || m > 59 {
                    Err(msg_time_range())
                } else if !seconds_ok(parts) {
                    Err(msg_time_format())
                } else {
                    Ok(
                        zero_pad(nat_text(h as nat), 2) + ":"@ + zero_pad(nat_text(m as nat), 2)
                            + ":00"@,
                    )
                },
            },
        }
    }
}

/// Normalises a class start time: `HH:MM` or `HH:MM:SS` gives `HH:MM:00`.
pub fn normalize_time(t: &str) -> (r: Result<String, String>)
    ensures
        match normalized_time(t@) {
            Ok(s) => r matches Ok(x) && x@ == s,
            Err(e) => r matches Err(x) && x@ == e,
        },
{
    let parts = split_char(t, ':');
    let ghost pv = parts@.map_values(|x: String| x@);
    if parts.len() < 2 || parts.len() > 3 {
        return Err(String::from_str("수업 시작시간 형식이 올바르지 않습니다 (예: 16:00)."));
    }
    assert(pv[0] == parts@[0]@);
    assert(pv[1] == parts@[1]@);
    let h = match parse_u32_text(parts[0].as_str()) {
        Some(h) => h,
        None => {
            return Err(String::from_str("수업 시작시간의 시(時)가 올바르지 않습니다."));
        },
    };
    let m = match parse_u32_text(parts[1].as_str()) {
        Some(m) => m,
        None => {
            return Err(String::from_str("수업 시작시간의 분(分)이 올바르지 않습니다."));
        },
    };
    if h > 23 || m > 59 {
        return Err(String::from_str("수업 시작시간 범위가 올바르지 않습니다 (00:00~23:59)."));
    }
    if parts.len() == 3 {
        assert(pv[2] == parts@[2]@);
        let sec_ok = match parse_u32_text(parts[2].as_str()) {
            Some(sec) => sec <= 59,
            None => false,
        };
        if !sec_ok {
            return Err(String::from_str("수업 시작시간 형식이 올바르지 않습니다 (예: 16:00)."));
        }
    }
    let hh = two_digit_text(h);
    let mm = two_digit_text(m);
    let out = hh.concat(":");
    let out = out.concat(mm.as_str());
    Ok(out.concat(":00"))
}

// ───────────────────────────── one-off move ─────────────────────────────

/// `M/D` text of a date (no padding), as the move note writes it.
pub open spec fn md_text(d: CivilDate) -> Seq<char> {
    nat_text(d.month as nat) + "/"@ + nat_text(d.day as nat)
}

/// One-letter Korean name of an ISO weekday (1 = Monday).
pub open spec fn weekday_ko_text(dow: int) -> Seq<char> {
    if dow == 1 {
        "월"@
    } else if dow == 2 {
        "화"@
    } else if dow == 3 {
        "수"@
    } else if dow == 4 {
        "목"@
    } else if dow == 5 {
        "금"@
    } else if dow == 6 {
        "토"@
    } else {
        "일"@
    }
}

/// `M/D` of a date.
pub fn format_md(d: CivilDate) -> (r: String)
    requires
        d.wf(),
    ensures
        r@ == md_text(d),
{
    let m = i64_text(d.month as i64);
    let day = i64_text(d.day as i64);
    let out = m.concat("/");
    out.concat(day.as_str())
}

/// One-letter Korean weekday name of a date.
pub fn weekday_ko(d: CivilDate) -> (r: &'static str)
    requires
        d.wf(),
    ensures
        r@ == weekday_ko_text(iso_weekday(d)),
{
    let w = civil_weekday(d);
    if w == 1 {
        "월"
    } else if w == 2 {
        "화"
    } else if w == 3 {
        "수"
    } else if w == 4 {
        "목"
    } else if w == 5 {
        "금"
    } else if w == 6 {
        "토"
    } else {
        "일"
    }
}

/// A move request that passed the checks that need no stored data.
#[derive(Clone, Debug)]
pub struct MoveRequest {
    pub from: CivilDate,
    pub to: CivilDate,
    pub start_time: String,
}

pub open spec fn msg_move_same_day() -> Seq<char> {
    "출발일과 도착일이 같습니다."@
}

pub open spec fn msg_move_cross_month() -> Seq<char> {
    "수업일 이동은 같은 달 안에서만 가능합니다. 다른 달로 옮기려면 보강 기능을 이용하세요."@
}

/// The checks of a move that need no stored data, in order: both dates read,
/// the start time normalises, the days differ, and both lie in one month.
pub open spec fn move_request_outcome(from: Seq<char>, to: Seq<char>, time: Seq<char>) -> Result<
    (CivilDate, CivilDate, Seq<char>),
    Seq<char>,
> {
    match parsed_date(from) {
        Err(e) => Err(e),
        Ok(f) => match parsed_date(to) {
            Err(e) => Err(e),
            Ok(t) => match normalized_time(time) {
                Err(e) => Err(e),
                Ok(st) => if f == t {
                    Err(msg_move_same_day())
                } else if f.year != t.year || f.month != t.month {
                    Err(msg_move_cross_month())
                } else {
                    Ok((f, t, st))
                },
            },
        },
    }
}

/// First stage of a one-off move: reads both dates and the start time and
/// checks that the class stays in its month.
pub fn check_move_request(from_date: &str, to_date: &str, start_time: &str) -> (r: Result<
    MoveRequest,
    String,
>)
    ensures
        match move_request_outcome(from_date@, to_date@, start_time@) {
            Ok((f, t, st)) => r matches Ok(m) && m.from == f && m.to == t && m.start_time@ == st
                && f.wf() && t.wf(),
            Err(e) => r matches Err(x) && x@ == e,
        },
{
    let from = parse_date(from_date)?;
    let to = parse_date(to_date)?;
    let start_time = normalize_time(start_time)?;
    if from.year == to.year && from.month == to.month && from.day == to.day {
        return Err(String::from_str("출발일과 도착일이 같습니다."));
    }
    if from.year != to.year || from.month != to.month {
        return Err(
            String::from_str(
                "수업일 이동은 같은 달 안에서만 가능합니다. 다른 달로 옮기려면 보강 기능을 이용하세요.",
            ),
        );
    }
    Ok(MoveRequest { from, to, start_time })
}

pub open spec fn msg_move_no_class(from: Seq<char>) -> Seq<char> {
    from + " 에 옮길 수업이 없습니다."@
}

pub open spec fn msg_move_not_present() -> Seq<char> {
    "출석(미처리) 상태의 수업만 이동할 수 있습니다. 결석·보강 처리된 수업은 보강 기능을 이용하세요."@
}

pub open spec fn msg_move_weekend(to: CivilDate) -> Seq<char> {
    md_text(to) + " 은(는) 주말이라 정규수업을 옮길 수 없습니다."@
}

/// Second stage of a move, given the row found on the source day (its id and
/// status): only a present row moves, and never onto a weekend.
pub fn check_move_source(from_date: &str, to: CivilDate, source: Option<(i64, String)>) -> (r:
    Result<i64, String>)
    requires
        to.wf(),
    ensures
        match source {
            None => r matches Err(e) && e@ == msg_move_no_class(from_date@),
            Some((id, status)) => if status@ != "present"@ {
                r matches Err(e) && e@ == msg_move_not_present()
            } else if iso_weekday(to) >= 6 {
                r matches Err(e) && e@ == msg_move_weekend(to)
            } else {
                r == Ok::<i64, String>(id)
            },
        },
{
    let (id, status) = match source {
        Some(s) => s,
        None => {
            let m = String::from_str(from_date);
            return Err(m.concat(" 에 옮길 수업이 없습니다."));
        },
    };
    if !str_eq(status.as_str(), "present") {
        return Err(
            String::from_str(
                "출석(미처리) 상태의 수업만 이동할 수 있습니다. 결석·보강 처리된 수업은 보강 기능을 이용하세요.",
            ),
        );
    }
    if civil_weekday(to) >= 6 {
        let m = format_md(to);
        return Err(m.concat(" 은(는) 주말이라 정규수업을 옮길 수 없습니다."));
    }
    Ok(id)
}

/// Result of a one-off move.
#[derive(Clone, Debug)]
pub struct MoveAttendanceResult {
    pub attendance_id: i64,
    pub from_date: String,
    pub to_date: String,
    pub note: String,
}

pub open spec fn msg_move_off_day(to: CivilDate) -> Seq<char> {
    md_text(to) + " 은(는) 휴일·보강데이 등 정규수업이 불가능한 날이라 수업을 옮길 수 없습니다."@
}

pub open spec fn msg_move_conflict(to: CivilDate) -> Seq<char> {
    md_text(to) + " 에 이미 수업이 있어 옮길 수 없습니다."@
}

/// The note a moved row carries, e.g. `6/8(월)→6/10(수) 이동`.
pub open spec fn move_note(from: CivilDate, to: CivilDate) -> Seq<char> {
    md_text(from) + "("@ + weekday_ko_text(iso_weekday(from)) + ")→"@ + md_text(to) + "("@
        + weekday_ko_text(iso_weekday(to)) + ") 이동"@
}

/// Last stage of a move: the target day must not be a day without regular
/// classes (`off_dates`, the texts of such days around it) and must not
/// already hold a class of the student (`conflict`).
pub fn finish_move(
    attendance_id: i64,
    from_date: &str,
    to_date: &str,
    from: CivilDate,
    to: CivilDate,
    off_dates: &Vec<String>,
    conflict: bool,
) -> (r: Result<MoveAttendanceResult, String>)
    requires
        from.wf(),
        to.wf(),
    ensures
        texts(off_dates@).contains(to_date@) ==> (r matches Err(e) && e@ == msg_move_off_day(
            to,
        )),
        !texts(off_dates@).contains(to_date@) && conflict ==> (r matches Err(e) && e@
            == msg_move_conflict(to)),
        !texts(off_dates@).contains(to_date@) && !conflict ==> (r matches Ok(m)
            && m.attendance_id == attendance_id && m.from_date@ == from_date@ && m.to_date@
            == to_date@ && m.note@ == move_note(from, to)),
{
    if crate::attendance::contains_text(off_dates, to_date) {
        let m = format_md(to);
        return Err(m.concat(" 은(는) 휴일·보강데이 등 정규수업이 불가능한 날이라 수업을 옮길 수 없습니다."));
    }
    if conflict {
        let m = format_md(to);
        return Err(m.concat(" 에 이미 수업이 있어 옮길 수 없습니다."));
    }
    let note = format_md(from);
    let note = note.concat("(");
    let note = note.concat(weekday_ko(from));
    let note = note.concat(")→");
    let tmd = format_md(to);
    let note = note.concat(tmd.as_str());
    let note = note.concat("(");
    let note = note.concat(weekday_ko(to));
    let note = note.concat(") 이동");
    Ok(
        MoveAttendanceResult {
            attendance_id,
            from_date: String::from_str(from_date),
            to_date: String::from_str(to_date),
            note,
        },
    )
}

} // verus!

verus! {

// ───────────────────────────── schedule change ─────────────────────────────

/// The dates a schedule change works with: the change day, and the
/// student's enrolment and withdrawal days.
#[derive(Clone, Debug)]
pub struct ScheduleChangeContext {
    pub effective: CivilDate,
    pub enroll: CivilDate,
    pub withdraw: Option<CivilDate>,
}

pub open spec fn msg_student_missing() -> Seq<char> {
    "원생을 찾을 수 없습니다."@
}

pub open spec fn msg_before_enroll(enroll: Seq<char>) -> Seq<char> {
    "변경일은 입교일("@ + enroll + ") 이후여야 합니다."@
}

/// The checks before a schedule change, in order: the change day reads, the
/// student exists, the change day is not before enrolment (compared as
/// text), and the enrolment and withdrawal days read.
pub open spec fn schedule_change_outcome(
    effective: Seq<char>,
    student: Option<(Seq<char>, Option<Seq<char>>)>,
) -> Result<(CivilDate, CivilDate, Option<CivilDate>), Seq<char>> {
    match parsed_date(effective) {
        Err(e) => Err(e),
        Ok(d) => match student {
            None => Err(msg_student_missing()),
            Some((en, wd)) => if text_lt(effective, en) {
                Err(msg_before_enroll(en))
            } else {
                match parsed_date(en) {
                    Err(e) => Err(e),
                    Ok(ed) => match wd {
                        None => Ok((d, ed, None)),
                        Some(w) => match parsed_date(w) {
                            Err(e) => Err(e),
                            Ok(wdd) => Ok((d, ed, Some(wdd))),
                        },
                    },
                }
            },
        },
    }
}

pub open spec fn student_view(s: Option<(String, Option<String>)>) -> Option<(Seq<char>, Option<Seq<char>>)> {
    match s {
        None => None,
        Some((en, wd)) => Some((en@, match wd {
            Some(w) => Some(w@),
            None => None,
        })),
    }
}

/// First stage of a schedule change, given the student's enrolment and
/// withdrawal days as stored (`None` when there is no such student).
pub fn check_schedule_change(effective_date: &str, student: Option<(String, Option<String>)>) -> (r:
    Result<ScheduleChangeContext, String>)
    ensures
        match schedule_change_outcome(effective_date@, student_view(student)) {
            Ok((d, en, wd)) => r matches Ok(c) && c.effective == d && c.enroll == en && c.withdraw
                == wd && d.wf() && en.wf() && (wd matches Some(w) ==> w.wf()),
            Err(e) => r matches Err(x) && x@ == e,
        },
{
    let d = parse_date(effective_date)?;
    let (enroll_date, withdraw_date) = match student {
        Some(s) => s,
        None => {
            return Err(String::from_str("원생을 찾을 수 없습니다."));
        },
    };
    if str_lt(effective_date, enroll_date.as_str()) {
        let m = String::from_str("변경일은 입교일(");
        let m = m.concat(enroll_date.as_str());
        return Err(m.concat(") 이후여야 합니다."));
    }
    let enroll = parse_date(enroll_date.as_str())?;
    let withdraw = match withdraw_date {
        Some(w) => Some(parse_date(w.as_str())?),
        None => None,
    };
    Ok(ScheduleChangeContext { effective: d, enroll, withdraw })
}

/// Minutes per week before and after a change on `d`: on the day before `d`
/// (zero when `d` is the first date `chrono` holds) and on `d`.
pub fn weekly_minutes_around(slices: &Vec<ScheduleSlice>, d: CivilDate) -> (r: (i64, i64))
    requires
        d.wf(),
        abs_minutes(slices@) <= i64::MAX,
    ensures
        r.1 == weekly_total(slices@, date_text(d)),
        d.is_min() ==> r.0 == 0,
        !d.is_min() ==> r.0 == weekly_total(slices@, date_text(crate::civil::prev_day(d))),
{
    let after = weekly_minutes_on(slices, d);
    let before = match civil_pred(d) {
        Some(p) => {
            proof {
                crate::civil::lemma_prev_day(d);
            }
            weekly_minutes_on(slices, p)
        },
        None => 0,
    };
    (before, after)
}

/// The confirmed teaching periods read from their stored texts, in order;
/// the first unreadable date is the error.
pub open spec fn parsed_periods(rows: Seq<(Seq<char>, Seq<char>)>) -> Result<
    Seq<(CivilDate, CivilDate)>,
    Seq<char>,
>
    decreases rows.len(),
{
    if rows.len() == 0 {
        Ok(Seq::empty())
    } else {
        match parsed_date(rows[0].0) {
            Err(e) => Err(e),
            Ok(s) => match parsed_date(rows[0].1) {
                Err(e) => Err(e),
                Ok(e) => match parsed_periods(rows.drop_first()) {
                    Ok(rest) => Ok(seq![(s, e)] + rest),
                    Err(x) => Err(x),
                },
            },
        }
    }
}

/// Every period's days are dates `chrono` holds.
pub open spec fn periods_wf(ps: Seq<(CivilDate, CivilDate)>) -> bool {
    forall|i: int| 0 <= i < ps.len() ==> (#[trigger] ps[i]).0.wf() && ps[i].1.wf()
}

/// Reads the start and end days of teaching periods.
pub fn parse_periods(rows: &Vec<(String, String)>) -> (r: Result<Vec<(CivilDate, CivilDate)>, String>)
    ensures
        match parsed_periods(crate::attendance::pair_texts(rows@)) {
            Ok(ps) => r matches Ok(v) && v@ == ps && periods_wf(v@),
            Err(e) => r matches Err(x) && x@ == e,
        },
{
    let ghost all = crate::attendance::pair_texts(rows@);
    let mut out: Vec<(CivilDate, CivilDate)> = Vec::new();
    let mut i: usize = 0;
    assert(all.skip(0) =~= all);
    while i < rows.len()
        invariant
            i <= rows.len(),
            all == crate::attendance::pair_texts(rows@),
            periods_wf(out@),
            match parsed_periods(all) {
                Ok(ps) => match parsed_periods(all.skip(i as int)) {
                    Ok(rest) => ps == out@ + rest,
                    Err(x) => false,
                },
                Err(e) => match parsed_periods(all.skip(i as int)) {
                    Ok(rest) => false,
                    Err(x) => x == e,
                },
            },
        decreases rows.len() - i,
    {
        let row = &rows[i];
        assert(all.skip(i as int)[0] == (row.0@, row.1@));
        assert(all.skip(i as int).drop_first() =~= all.skip(i + 1));
        let s = parse_date(row.0.as_str())?;
        let e = parse_date(row.1.as_str())?;
        let ghost before = out@;
        out.push((s, e));
        proof {
            assert(out@ =~= before + seq![(s, e)]);
            match parsed_periods(all.skip(i + 1)) {
                Ok(rest) => {
                    assert(before + seq![(s, e)] + rest =~= before + (seq![(s, e)] + rest));
                },
                Err(x) => {},
            }
        }
        i = i + 1;
    }
    assert(all.skip(rows.len() as int) =~= Seq::<(Seq<char>, Seq<char>)>::empty());
    assert(out@ + Seq::<(CivilDate, CivilDate)>::empty() =~= out@);
    Ok(out)
}

/// The latest end day of the periods (`None` when there are none).
pub fn latest_period_end(periods: &Vec<(CivilDate, CivilDate)>) -> (r: Option<CivilDate>)
    ensures
        r is None <==> periods@.len() == 0,
        r matches Some(m) ==> (exists|i: int| 0 <= i < periods@.len() && periods@[i].1 == m)
            && (forall|i: int| 0 <= i < periods@.len() ==> date_le(#[trigger] periods@[i].1, m)),
{
    if periods.len() == 0 {
        return None;
    }
    let mut best = periods[0].1;
    let mut i: usize = 1;
    while i < periods.len()
        invariant
            1 <= i <= periods.len(),
            exists|k: int| 0 <= k < i && periods@[k].1 == best,
            forall|k: int| 0 <= k < i ==> date_le(#[trigger] periods@[k].1, best),
        decreases periods.len() - i,
    {
        let e = periods[i].1;
        if date_le_exec(best, e) {
            best = e;
        }
        i = i + 1;
    }
    Some(best)
}

/// The later of two days.
pub open spec fn later_day(a: CivilDate, b: CivilDate) -> CivilDate {
    if date_le(a, b) { b } else { a }
}

pub open spec fn msg_regen_overflow() -> Seq<char> {
    "재생성 날짜 계산 오버플로"@
}

/// The class days regenerated after a change on `d`: for each period in
/// order, the student's class days from the later of its start and `d` to its
/// end. `None` when a period reaches the last date `chrono` holds.
pub open spec fn regenerated_days(
    slices: Seq<ScheduleSlice>,
    enroll: CivilDate,
    withdraw: Option<CivilDate>,
    off: Seq<Seq<char>>,
    d: CivilDate,
    periods: Seq<(CivilDate, CivilDate)>,
) -> Option<Seq<CivilDate>>
    decreases periods.len(),
{
    if periods.len() == 0 {
        Some(Seq::empty())
    } else {
        let s = later_day(periods[0].0, d);
        let e = periods[0].1;
        if date_le(s, e) && e.is_max() {
            None
        } else {
            match regenerated_days(slices, enroll, withdraw, off, d, periods.drop_first()) {
                Some(rest) => Some(attending_days(slices, enroll, withdraw, off, s, e) + rest),
                None => None,
            }
        }
    }
}

/// The rows to create again after a schedule change on `d` (see
/// `regenerated_days`), each with its day text and class minutes.
pub fn plan_regeneration(
    slices: &Vec<ScheduleSlice>,
    enroll: CivilDate,
    withdraw: Option<CivilDate>,
    d: CivilDate,
    periods: &Vec<(CivilDate, CivilDate)>,
    off_dates: &Vec<String>,
) -> (r: Result<Vec<PlannedAttendance>, String>)
    requires
        d.wf(),
        periods_wf(periods@),
    ensures
        match regenerated_days(slices@, enroll, withdraw, texts(off_dates@), d, periods@) {
            Some(days) => r matches Ok(v) && planned_days(v@) == days && forall|i: int|
                0 <= i < v@.len() ==> planned_entry_ok(#[trigger] v@[i], slices@),
            None => r matches Err(e) && e@ == msg_regen_overflow(),
        },
{
    let ghost off = texts(off_dates@);
    let mut out: Vec<PlannedAttendance> = Vec::new();
    let mut i: usize = 0;
    assert(periods@.skip(0) =~= periods@);
    while i < periods.len()
        invariant
            i <= periods.len(),
            d.wf(),
            periods_wf(periods@),
            off == texts(off_dates@),
            forall|k: int| 0 <= k < out@.len() ==> planned_entry_ok(#[trigger] out@[k], slices@),
            match regenerated_days(slices@, enroll, withdraw, off, d, periods@) {
                Some(all) => match regenerated_days(
                    slices@,
                    enroll,
                    withdraw,
                    off,
                    d,
                    periods@.skip(i as int),
                ) {
                    Some(rest) => all == planned_days(out@) + rest,
                    None => false,
                },
                None => regenerated_days(
                    slices@,
                    enroll,
                    withdraw,
                    off,
                    d,
                    periods@.skip(i as int),
                ) is None,
            },
        decreases periods.len() - i,
    {
        let (ps, pe) = periods[i];
        assert(periods@.skip(i as int)[0] == (ps, pe));
        assert(periods@.skip(i as int).drop_first() =~= periods@.skip(i + 1));
        assert(ps.wf() && pe.wf()) by {
            assert(periods@[i as int] == (ps, pe));
        }
        let s = if date_le_exec(ps, d) { d } else { ps };
        let mut part = plan_span(slices, enroll, withdraw, s, pe, off_dates, "재생성 날짜 계산 오버플로")?;
        let ghost before = out@;
        let ghost pv = part@;
        out.append(&mut part);
        proof {
            assert(out@ =~= before + pv);
            assert(planned_days(out@) =~= planned_days(before) + planned_days(pv));
            assert forall|k: int| 0 <= k < out@.len() implies planned_entry_ok(
                #[trigger] out@[k],
                slices@,
            ) by {
                if k >= before.len() {
                    assert(out@[k] == pv[k - before.len()]);
                }
            }
            match regenerated_days(slices@, enroll, withdraw, off, d, periods@.skip(i + 1)) {
                Some(rest) => {
                    assert(planned_days(before) + planned_days(pv) + rest =~= planned_days(before)
                        + (planned_days(pv) + rest));
                },
                None => {},
            }
        }
        i = i + 1;
    }
    assert(planned_days(out@) + Seq::<CivilDate>::empty() =~= planned_days(out@));
    Ok(out)
}

/// The first seven characters of a `YYYY-MM-DD` text: its year-month.
pub fn month_prefix(ds: &str) -> (r: String)
    requires
        ds@.len() >= 7,
    ensures
        r@ == ds@.subrange(0, 7),
{
    String::from_str(ds.substring_char(0, 7))
}

/// Rows inserted per student by a generation run, as `(students with at
/// least one new row, rows inserted)`.
pub open spec fn generation_tally(inserted: Seq<i64>) -> (int, int)
    decreases inserted.len(),
{
    if inserted.len() == 0 {
        (0, 0)
    } else {
        let (s, a) = generation_tally(inserted.drop_last());
        if inserted.last() > 0 {
            (s + 1, a + inserted.last())
        } else {
            (s, a)
        }
    }
}

proof fn lemma_tally_bound(inserted: Seq<i64>)
    ensures
        0 <= generation_tally(inserted).0 <= inserted.len(),
        0 <= generation_tally(inserted).1,
    decreases inserted.len(),
{
    if inserted.len() > 0 {
        lemma_tally_bound(inserted.drop_last());
    }
}

/// Every running total of the inserted rows fits in an `i64`.
pub open spec fn tally_fits(inserted: Seq<i64>) -> bool {
    forall|k: int| 0 <= k <= inserted.len() ==> #[trigger] generation_tally(inserted.subrange(0, k)).1 <= i64::MAX
}

/// Counts of a generation run from the rows inserted for each student.
pub fn tally_generation(inserted: &Vec<i64>) -> (r: (i64, i64))
    requires
        inserted@.len() <= i64::MAX,
        tally_fits(inserted@),
    ensures
        r.0 == generation_tally(inserted@).0,
        r.1 == generation_tally(inserted@).1,
{
    let mut students: i64 = 0;
    let mut rows: i64 = 0;
    let mut i: usize = 0;
    while i < inserted.len()
        invariant
            i <= inserted.len(),
            inserted@.len() <= i64::MAX,
            tally_fits(inserted@),
            (students as int, rows as int) == generation_tally(inserted@.subrange(0, i as int)),
        decreases inserted.len() - i,
    {
        proof {
            assert(inserted@.subrange(0, i + 1).drop_last() =~= inserted@.subrange(0, i as int));
            lemma_tally_bound(inserted@.subrange(0, i as int));
            assert(generation_tally(inserted@.subrange(0, i + 1)).1 <= i64::MAX);
        }
        let n = inserted[i];
        if n > 0 {
            students = students + 1;
            rows = rows + n;
        }
        i = i + 1;
    }
    assert(inserted@.subrange(0, inserted.len() as int) =~= inserted@);
    (students, rows)
}

/// Result of a schedule change with regeneration.
#[derive(Clone, Debug)]
pub struct ScheduleChangeResult {
    pub regenerated_count: i64,
    pub preserved_count: i64,
    pub weekly_minutes_before: i64,
    pub weekly_minutes_after: i64,
}

} // verus!
