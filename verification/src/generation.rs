//! Monthly generation of regular attendance rows, and the day list that
//! re-synchronises rows after a schedule event changes.

use vstd::prelude::*;
use vstd::string::*;
use crate::attendance::{
    attending_days, attends, class_minutes_on, msg_date_overflow, parse_date, parsed_date, plan_span, planned_days,
    planned_entry_ok, push_span, span_days, day_texts, texts, validate_year_month,
    valid_year_month, year_month_error, PlannedAttendance, ScheduleSlice,
};
use crate::civil::{
    civil_month_text, civil_weekday, date_le, date_le_exec, date_lt, date_measure, date_text, is_max_exec,
    iso_weekday, month_text, lemma_measure_monotone, lemma_next_day,
    next_day, CivilDate,
};

verus! {

pub open spec fn msg_period_missing(ym: Seq<char>) -> Seq<char> {
    ym + " 교습기간이 설정되지 않았습니다. 학사 캘린더에서 먼저 교습기간을 설정하세요."@
}

pub open spec fn msg_period_unconfirmed(ym: Seq<char>) -> Seq<char> {
    ym + " 교습기간이 아직 확정되지 않았습니다. 교습기간을 확정한 후 다시 시도하세요."@
}

/// The teaching period a generation works on, given the stored period of the
/// month as `(start, end, is_confirmed)`: the month text must be valid, the
/// period must exist and be confirmed.
pub fn check_generation_period(year_month: &str, period: Option<(String, String, i64)>) -> (r:
    Result<(String, String), String>)
    ensures
        !valid_year_month(year_month.spec_bytes()) ==> (r matches Err(e) && e@ == year_month_error(
            year_month@,
        )),
        valid_year_month(year_month.spec_bytes()) ==> match period {
            None => r matches Err(e) && e@ == msg_period_missing(year_month@),
            Some((s, e, c)) => if c == 0 {
                r matches Err(x) && x@ == msg_period_unconfirmed(year_month@)
            } else {
                r matches Ok((a, b)) && a@ == s@ && b@ == e@
            },
        },
{
    validate_year_month(year_month)?;
    match period {
        None => {
            let m = String::from_str(year_month);
            Err(m.concat(" 교습기간이 설정되지 않았습니다. 학사 캘린더에서 먼저 교습기간을 설정하세요."))
        },
        Some((s, e, c)) => {
            if c == 0 {
                let m = String::from_str(year_month);
                Err(m.concat(" 교습기간이 아직 확정되지 않았습니다. 교습기간을 확정한 후 다시 시도하세요."))
            } else {
                Ok((s, e))
            }
        },
    }
}

/// A student considered by the monthly generation, with the whole schedule
/// history.
#[derive(Clone, Debug)]
pub struct GenerationStudent {
    pub id: i64,
    pub enroll_date: String,
    pub withdraw_date: Option<String>,
    pub slices: Vec<ScheduleSlice>,
}

/// The rows to create for one student.
#[derive(Clone, Debug)]
pub struct StudentPlan {
    pub student_id: i64,
    pub attendances: Vec<PlannedAttendance>,
}

pub open spec fn opt_text(o: Option<String>) -> Option<Seq<char>> {
    match o {
        Some(s) => Some(s@),
        None => None,
    }
}

/// The class days of each student with a schedule, in student order, from
/// `sd` to `ed`. Students without any schedule are passed over; the first
/// unreadable enrolment or withdrawal day, or a period ending on the last date
/// `chrono` holds, is the error.
pub open spec fn generation_plan(
    students: Seq<GenerationStudent>,
    sd: CivilDate,
    ed: CivilDate,
    off: Seq<Seq<char>>,
) -> Result<Seq<(i64, Seq<CivilDate>)>, Seq<char>>
    decreases students.len(),
{
    if students.len() == 0 {
        Ok(Seq::empty())
    } else {
        let s = students[0];
        if s.slices@.len() == 0 {
            generation_plan(students.drop_first(), sd, ed, off)
        } else {
            match parsed_date(s.enroll_date@) {
                Err(e) => Err(e),
                Ok(en) => {
                    let wd: Result<Option<CivilDate>, Seq<char>> = match opt_text(s.withdraw_date) {
                        None => Ok(None),
                        Some(w) => match parsed_date(w) {
                            Err(e) => Err(e),
                            Ok(d) => Ok(Some(d)),
                        },
                    };
                    match wd {
                        Err(e) => Err(e),
                        Ok(w) => if date_le(sd, ed) && ed.is_max() {
                            Err(msg_date_overflow())
                        } else {
                            match generation_plan(students.drop_first(), sd, ed, off) {
                                Ok(rest) => Ok(
                                    seq![(s.id, attending_days(s.slices@, en, w, off, sd, ed))]
                                        + rest,
                                ),
                                Err(x) => Err(x),
                            }
                        },
                    }
                },
            }
        }
    }
}

pub open spec fn plan_view(p: StudentPlan) -> (i64, Seq<CivilDate>) {
    (p.student_id, planned_days(p.attendances@))
}

/// Every entry of the plan carries its day text and its class minutes under
/// the schedule `slices`.
pub open spec fn entries_ok(p: StudentPlan, slices: Seq<ScheduleSlice>) -> bool {
    forall|k: int| 0 <= k < p.attendances@.len() ==> planned_entry_ok(#[trigger] p.attendances@[k], slices)
}

/// The plan belongs to one of the students and fits that student's schedule.
pub open spec fn plan_from(p: StudentPlan, students: Seq<GenerationStudent>) -> bool {
    exists|j: int| 0 <= j < students.len() && students[j].id == p.student_id && #[trigger] entries_ok(p, students[j].slices@)
}

pub open spec fn plans_ok(ps: Seq<StudentPlan>, students: Seq<GenerationStudent>) -> bool {
    forall|i: int| 0 <= i < ps.len() ==> plan_from(#[trigger] ps[i], students)
}

/// The regular rows of a month for every student (see `generation_plan`),
/// each with its day text and the class minutes of its day.
pub fn plan_generation(
    students: &Vec<GenerationStudent>,
    sd: CivilDate,
    ed: CivilDate,
    off_dates: &Vec<String>,
) -> (r: Result<Vec<StudentPlan>, String>)
    requires
        sd.wf(),
        ed.wf(),
    ensures
        match generation_plan(students@, sd, ed, texts(off_dates@)) {
            Ok(ps) => r matches Ok(v) && v@.map_values(|p: StudentPlan| plan_view(p)) == ps
                && plans_ok(v@, students@),
            Err(e) => r matches Err(x) && x@ == e,
        },
{
    let ghost off = texts(off_dates@);
    let mut out: Vec<StudentPlan> = Vec::new();
    let mut i: usize = 0;
    assert(students@.skip(0) =~= students@);
    while i < students.len()
        invariant
            i <= students.len(),
            sd.wf(),
            ed.wf(),
            off == texts(off_dates@),
            plans_ok(out@, students@),
            match generation_plan(students@, sd, ed, off) {
                Ok(ps) => match generation_plan(students@.skip(i as int), sd, ed, off) {
                    Ok(rest) => ps == out@.map_values(|p: StudentPlan| plan_view(p)) + rest,
                    Err(x) => false,
                },
                Err(e) => match generation_plan(students@.skip(i as int), sd, ed, off) {
                    Ok(rest) => false,
                    Err(x) => x == e,
                },
            },
        decreases students.len() - i,
    {
        let s = &students[i];
        assert(students@.skip(i as int)[0] == *s);
        assert(students@.skip(i as int).drop_first() =~= students@.skip(i + 1));
        if s.slices.len() == 0 {
            i = i + 1;
            continue;
        }
        let en = parse_date(s.enroll_date.as_str())?;
        let wd = match &s.withdraw_date {
            Some(w) => Some(parse_date(w.as_str())?),
            None => None,
        };
        let part = plan_span(&s.slices, en, wd, sd, ed, off_dates, "날짜 계산 오버플로")?;
        let ghost before = out@;
        let p = StudentPlan { student_id: s.id, attendances: part };
        out.push(p);
        proof {
            assert(out@ =~= before.push(p));
            assert(out@.map_values(|p: StudentPlan| plan_view(p)) =~= before.map_values(
                |p: StudentPlan| plan_view(p),
            ) + seq![plan_view(p)]);
            assert(students@[i as int] == *s);
            assert(entries_ok(p, students@[i as int].slices@));
            assert(plan_from(p, students@));
            assert forall|a: int| 0 <= a < out@.len() implies plan_from(#[trigger] out@[a], students@) by {
                if a < before.len() {
                    assert(out@[a] == before[a]);
                }
            }
            match generation_plan(students@.skip(i + 1), sd, ed, off) {
                Ok(rest) => {
                    assert(before.map_values(|p: StudentPlan| plan_view(p)) + seq![plan_view(p)]
                        + rest =~= before.map_values(|p: StudentPlan| plan_view(p)) + (seq![
                        plan_view(p),
                    ] + rest));
                },
                Err(x) => {},
            }
        }
        i = i + 1;
    }
    assert(students@.skip(students.len() as int) =~= Seq::<GenerationStudent>::empty());
    assert(out@.map_values(|p: StudentPlan| plan_view(p)) + Seq::<(i64, Seq<CivilDate>)>::empty()
        =~= out@.map_values(|p: StudentPlan| plan_view(p)));
    Ok(out)
}

// ───────────────────────────── laws ─────────────────────────────

/// The class days of a student from `d` to `end` are exactly the days of
/// that range the student attends (has a class under the schedule, is
/// enrolled, and no event without regular classes falls on it), each once
/// and in calendar order.
pub proof fn lemma_attending_days_exact(
    slices: Seq<ScheduleSlice>,
    enroll: CivilDate,
    withdraw: Option<CivilDate>,
    off: Seq<Seq<char>>,
    d: CivilDate,
    end: CivilDate,
)
    requires
        d.wf(),
        end.wf(),
        !end.is_max(),
    ensures
        ({
            let days = attending_days(slices, enroll, withdraw, off, d, end);
            &&& forall|i: int| 0 <= i < days.len() ==> (#[trigger] days[i]).wf() && date_le(d, days[i])
                && date_le(days[i], end) && attends(slices, enroll, withdraw, off, days[i])
            &&& forall|x: CivilDate|
                x.wf() && date_le(d, x) && date_le(x, end) && #[trigger] attends(slices, enroll, withdraw, off, x)
                    ==> days.contains(x)
            &&& forall|i: int, j: int| 0 <= i < j < days.len() ==> date_lt(#[trigger] days[i], #[trigger] days[j])
        }),
    decreases date_measure(end) - date_measure(d),
{
    let days = attending_days(slices, enroll, withdraw, off, d, end);
    if date_le(d, end) {
        let rest = if date_lt(d, end) {
            lemma_next_day(d);
            lemma_measure_monotone(next_day(d), end);
            lemma_attending_days_exact(slices, enroll, withdraw, off, next_day(d), end);
            attending_days(slices, enroll, withdraw, off, next_day(d), end)
        } else {
            Seq::empty()
        };
        if date_lt(d, end) {
            lemma_next_day(d);
        }
        assert(forall|i: int| 0 <= i < rest.len() ==> date_lt(d, #[trigger] rest[i]));
        if attends(slices, enroll, withdraw, off, d) {
            assert(days == seq![d] + rest);
            assert forall|i: int| 0 <= i < days.len() implies (#[trigger] days[i]).wf() && date_le(d, days[i])
                && date_le(days[i], end) && attends(slices, enroll, withdraw, off, days[i]) by {
                if i > 0 {
                    assert(days[i] == rest[i - 1]);
                }
            }
            assert forall|x: CivilDate|
                x.wf() && date_le(d, x) && date_le(x, end) && #[trigger] attends(slices, enroll, withdraw, off, x)
                    implies days.contains(x) by {
                if x == d {
                    assert(days[0] == d);
                } else {
                    let k = choose|k: int| 0 <= k < rest.len() && rest[k] == x;
                    assert(days[k + 1] == rest[k]);
                }
            }
            assert forall|i: int, j: int| 0 <= i < j < days.len() implies date_lt(
                #[trigger] days[i],
                #[trigger] days[j],
            ) by {
                assert(days[j] == rest[j - 1]);
                if i > 0 {
                    assert(days[i] == rest[i - 1]);
                }
            }
        } else {
            assert(days == rest);
            assert forall|x: CivilDate|
                x.wf() && date_le(d, x) && date_le(x, end) && #[trigger] attends(slices, enroll, withdraw, off, x)
                    implies days.contains(x) by {
                assert(x != d);
            }
        }
    }
}

/// The class days of a student over `d..=end`, stated by the inputs alone: a
/// day of the range is a class day exactly when the schedule in force that
/// day has a class on its weekday, the day is on or after the enrolment day
/// (the enrolment day itself counts), on or before the withdrawal day if
/// there is one (that day counts too), and is not an off day.
pub proof fn lemma_class_day_conditions(
    slices: Seq<ScheduleSlice>,
    enroll: CivilDate,
    withdraw: Option<CivilDate>,
    off: Seq<Seq<char>>,
    d: CivilDate,
    end: CivilDate,
)
    requires
        d.wf(),
        end.wf(),
        !end.is_max(),
    ensures
        forall|x: CivilDate|
            x.wf() && date_le(d, x) && date_le(x, end) ==> (#[trigger] attending_days(
                slices,
                enroll,
                withdraw,
                off,
                d,
                end,
            ).contains(x) <==> {
                &&& class_minutes_on(slices, x) is Some
                &&& date_le(enroll, x)
                &&& (withdraw matches Some(w) ==> date_le(x, w))
                &&& !off.contains(date_text(x))
            }),
{
    lemma_attending_days_exact(slices, enroll, withdraw, off, d, end);
    let days = attending_days(slices, enroll, withdraw, off, d, end);
    assert forall|x: CivilDate| x.wf() && date_le(d, x) && date_le(x, end) implies (#[trigger] days.contains(x) <==> {
        &&& class_minutes_on(slices, x) is Some
        &&& date_le(enroll, x)
        &&& (withdraw matches Some(w) ==> date_le(x, w))
        &&& !off.contains(date_text(x))
    }) by {
        if days.contains(x) {
            let i = choose|i: int| 0 <= i < days.len() && days[i] == x;
            assert(attends(slices, enroll, withdraw, off, days[i]));
        }
        if class_minutes_on(slices, x) is Some && date_le(enroll, x) && (withdraw matches Some(w) ==> date_le(x, w))
            && !off.contains(date_text(x)) {
            assert(attends(slices, enroll, withdraw, off, x));
        }
    }
}

/// The rows planned for a student over `sd..=ed` (what `plan_span` gives):
/// one row for each day of the range the student attends and no other, no
/// day twice, each row with its day's text and the class minutes of that
/// day's schedule slice.
pub proof fn lemma_planned_rows(
    rows: Seq<PlannedAttendance>,
    slices: Seq<ScheduleSlice>,
    enroll: CivilDate,
    withdraw: Option<CivilDate>,
    off: Seq<Seq<char>>,
    sd: CivilDate,
    ed: CivilDate,
)
    requires
        sd.wf(),
        ed.wf(),
        !ed.is_max(),
        planned_days(rows) == attending_days(slices, enroll, withdraw, off, sd, ed),
        forall|i: int| 0 <= i < rows.len() ==> planned_entry_ok(#[trigger] rows[i], slices),
    ensures
        forall|x: CivilDate|
            x.wf() && date_le(sd, x) && date_le(x, ed) ==> (#[trigger] attends(slices, enroll, withdraw, off, x)
                <==> exists|i: int| 0 <= i < rows.len() && (#[trigger] rows[i]).date == x),
        forall|i: int| 0 <= i < rows.len() ==> date_le(sd, (#[trigger] rows[i]).date) && date_le(rows[i].date, ed),
        forall|i: int, j: int| 0 <= i < j < rows.len() ==> date_lt((#[trigger] rows[i]).date, (#[trigger] rows[j]).date),
        forall|i: int|
            0 <= i < rows.len() ==> (#[trigger] rows[i]).event_date@ == date_text(rows[i].date)
                && class_minutes_on(slices, rows[i].date) == Some(rows[i].class_minutes),
{
    let days = attending_days(slices, enroll, withdraw, off, sd, ed);
    lemma_attending_days_exact(slices, enroll, withdraw, off, sd, ed);
    assert(planned_days(rows).len() == rows.len());
    assert forall|i: int| 0 <= i < rows.len() implies days[i] == (#[trigger] rows[i]).date by {
        assert(planned_days(rows)[i] == rows[i].date);
    }
    assert forall|x: CivilDate| x.wf() && date_le(sd, x) && date_le(x, ed) implies (#[trigger] attends(
        slices,
        enroll,
        withdraw,
        off,
        x,
    ) <==> exists|i: int| 0 <= i < rows.len() && (#[trigger] rows[i]).date == x) by {
        if attends(slices, enroll, withdraw, off, x) {
            assert(days.contains(x));
            let k = choose|k: int| 0 <= k < days.len() && days[k] == x;
            assert(rows[k].date == x);
        }
        if exists|i: int| 0 <= i < rows.len() && (#[trigger] rows[i]).date == x {
            let k = choose|i: int| 0 <= i < rows.len() && (#[trigger] rows[i]).date == x;
            assert(days[k] == x);
        }
    }
    assert forall|i: int| 0 <= i < rows.len() implies date_le(sd, (#[trigger] rows[i]).date) && date_le(
        rows[i].date,
        ed,
    ) by {
        assert(days[i] == rows[i].date);
    }
    assert forall|i: int, j: int| 0 <= i < j < rows.len() implies date_lt(
        (#[trigger] rows[i]).date,
        (#[trigger] rows[j]).date,
    ) by {
        assert(days[i] == rows[i].date && days[j] == rows[j].date);
    }
}

// ───────────────────────────── re-synchronisation ─────────────────────────────

/// The days whose rows are re-synchronised after a change of a schedule
/// event spanning `event_date..=period_end_date` (a single day without end).
pub open spec fn sync_days(event_date: Seq<char>, period_end: Option<Seq<char>>) -> Result<
    Seq<Seq<char>>,
    Seq<char>,
> {
    let end = match period_end {
        Some(e) => e,
        None => event_date,
    };
    match parsed_date(event_date) {
        Err(e) => Err(e),
        Ok(s) => match parsed_date(end) {
            Err(e) => Err(e),
            Ok(e) => if date_le(s, e) && e.is_max() {
                Err(msg_date_overflow())
            } else {
                Ok(day_texts(span_days(s, e)))
            },
        },
    }
}

/// The day texts of an event's span, first to last.
pub fn sync_dates(event_date: &str, period_end_date: Option<&str>) -> (r: Result<Vec<String>, String>)
    ensures
        match sync_days(event_date@, match period_end_date {
            Some(e) => Some(e@),
            None => None,
        }) {
            Ok(t) => r matches Ok(v) && texts(v@) == t,
            Err(e) => r matches Err(x) && x@ == e,
        },
{
    let end = match period_end_date {
        Some(e) => e,
        None => event_date,
    };
    let s = parse_date(event_date)?;
    let e = parse_date(end)?;
    if date_le_exec(s, e) && is_max_exec(e) {
        return Err(String::from_str("날짜 계산 오버플로"));
    }
    let mut out: Vec<String> = Vec::new();
    assert(texts(out@) =~= Seq::<Seq<char>>::empty());
    push_span(&mut out, s, e);
    assert(Seq::<Seq<char>>::empty() + day_texts(span_days(s, e)) =~= day_texts(span_days(s, e)));
    Ok(out)
}

/// A day has no regular classes after a schedule change when some event
/// without regular classes covers it and no event with regular classes does
/// (a holiday class day on a holiday keeps its classes).
pub fn regular_classes_off(off_events: i64, on_events: i64) -> (r: bool)
    ensures
        r == (off_events > 0 && on_events == 0),
{
    off_events > 0 && on_events == 0
}

/// What re-synchronising one day does to its regular rows.
#[derive(Clone, Debug)]
pub enum DaySyncAction {
    /// Delete the day's generated rows: those still `present` and not matched
    /// to a make-up (absences and matched rows stay).
    DeletePresent,
    /// Create the missing rows of the day, as `present`, for the students
    /// enrolled that day whose schedule then has a class on `weekday` (ISO,
    /// 1 = Monday), with the class minutes of that schedule.
    CreateRows { event_date: String, year_month: String, weekday: i64 },
    /// Leave the day's rows as they are.
    Keep,
}

/// What happens to day `date` after a schedule event changed, given how many
/// events without regular classes (`off_events`) and with them (`on_events`)
/// cover it, and whether a confirmed teaching period holds it: the generated
/// rows go when the day has no regular classes (see `regular_classes_off`);
/// otherwise, inside a confirmed period, the day's rows are created (the day
/// must read as a date; its month and weekday come from it); otherwise
/// nothing changes. The month is written from the date read; for the
/// `YYYY-MM-DD` days that `sync_dates` gives, it is their first seven
/// characters.
pub fn day_sync_action(date: &str, off_events: i64, on_events: i64, in_confirmed_period: bool) -> (r: Result<
    DaySyncAction,
    String,
>)
    ensures
        off_events > 0 && on_events == 0 ==> r matches Ok(DaySyncAction::DeletePresent),
        !(off_events > 0 && on_events == 0) && !in_confirmed_period ==> r matches Ok(DaySyncAction::Keep),
        !(off_events > 0 && on_events == 0) && in_confirmed_period ==> match parsed_date(date@) {
            Err(e) => r matches Err(x) && x@ == e,
            Ok(d) => r matches Ok(DaySyncAction::CreateRows { event_date, year_month, weekday })
                && event_date@ == date@ && year_month@ == month_text(d) && weekday == iso_weekday(d),
        },
{
    if regular_classes_off(off_events, on_events) {
        return Ok(DaySyncAction::DeletePresent);
    }
    if !in_confirmed_period {
        return Ok(DaySyncAction::Keep);
    }
    let d = parse_date(date)?;
    let ym = civil_month_text(d);
    let dow = civil_weekday(d);
    Ok(DaySyncAction::CreateRows { event_date: String::from_str(date), year_month: ym, weekday: dow as i64 })
}

/// The outcome of generating a month's attendance, with the expiry run that
/// follows it.
pub struct GenerateResult {
    pub year_month: String,
    pub student_count: i64,
    pub attendance_count: i64,
    pub expiration_report: crate::expiration::ExpirationReport,
}

/// The outcome of a generation: the counts, and the expiry report; a failed
/// expiry does not fail the generation and reports nothing expired.
pub fn generate_result(
    year_month: &str,
    student_count: i64,
    attendance_count: i64,
    expiry: Result<crate::expiration::ExpirationReport, String>,
) -> (r: GenerateResult)
    ensures
        r.year_month@ == year_month@,
        r.student_count == student_count,
        r.attendance_count == attendance_count,
        match expiry {
            Ok(rep) => r.expiration_report == rep,
            Err(_) => r.expiration_report.transitioned_count == 0 && r.expiration_report.details@.len() == 0,
        },
{
    let expiration_report = match expiry {
        Ok(rep) => rep,
        Err(_) => crate::expiration::ExpirationReport { transitioned_count: 0, details: Vec::new() },
    };
    GenerateResult { year_month: String::from_str(year_month), student_count, attendance_count, expiration_report }
}

} // verus!
