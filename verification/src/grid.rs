//! The monthly attendance grid: per-student summaries (present and absent
//! counts, make-up minutes still owed and done), the absences still owed a
//! make-up, and the per-day calendar attributes of the month.

use vstd::prelude::*;
use vstd::string::*;
use crate::attendance::{valid_year_month, year_month_numbers, ym_month, ym_year};
use crate::civil::{
    civil_from_ymd, civil_text, date_le, lemma_day_text_rising, date_le_exec, date_lt, date_text, days_in_month,
    parse_civil, chrono_parse_ymd, valid_ymd, ymd, CivilDate,
};
use crate::text::{str_eq, str_le, str_lt, text_le, text_lt, lemma_text_lt_trans, lemma_text_trichotomy};

verus! {

// ───────────────────────────── records ─────────────────────────────

/// A stored regular attendance row, as the summary reads it.
#[derive(Clone, Debug)]
pub struct AttendanceRecord {
    pub event_date: String,
    pub year_month: String,
    pub status: String,
    pub class_minutes: i64,
    pub makeup_attendance_id: Option<i64>,
    pub makeup_deadline: Option<String>,
}

/// A stored make-up attendance row, as the summary reads it.
#[derive(Clone, Debug)]
pub struct MakeupRecord {
    pub year_month: String,
    pub status: String,
    pub class_minutes: i64,
}

/// Monthly summary of one student.
#[derive(Clone, Debug)]
pub struct AttendanceSummary {
    pub student_id: i64,
    pub year_month: String,
    pub present_count: i64,
    pub absent_count: i64,
    pub makeup_needed_minutes: i64,
    pub makeup_completed_minutes: i64,
}

/// One absence still owed a make-up.
#[derive(Clone, Debug)]
pub struct PendingMakeupDetail {
    pub event_date: String,
    pub class_minutes: i64,
    pub makeup_deadline: Option<String>,
}

/// An absence still owed a make-up as of month `ym`: absent, not matched to a
/// make-up, and its deadline (if any) not before `ym` (text order).
pub open spec fn is_pending(r: AttendanceRecord, ym: Seq<char>) -> bool {
    &&& r.status@ == "absent"@
    &&& r.makeup_attendance_id is None
    &&& (r.makeup_deadline matches Some(d) ==> text_le(ym, d@))
}

/// Number of rows of month `ym` with status `st`.
pub open spec fn count_status(rows: Seq<AttendanceRecord>, ym: Seq<char>, st: Seq<char>) -> int
    decreases rows.len(),
{
    if rows.len() == 0 {
        0
    } else {
        count_status(rows.drop_last(), ym, st) + if rows.last().year_month@ == ym
            && rows.last().status@ == st {
            1int
        } else {
            0int
        }
    }
}

/// Class minutes of the absences still owed a make-up as of `ym`.
pub open spec fn pending_minutes(rows: Seq<AttendanceRecord>, ym: Seq<char>) -> int
    decreases rows.len(),
{
    if rows.len() == 0 {
        0
    } else {
        pending_minutes(rows.drop_last(), ym) + if is_pending(rows.last(), ym) {
            rows.last().class_minutes as int
        } else {
            0int
        }
    }
}

/// Class minutes of the attended make-ups of month `ym`.
pub open spec fn completed_minutes(rows: Seq<MakeupRecord>, ym: Seq<char>) -> int
    decreases rows.len(),
{
    if rows.len() == 0 {
        0
    } else {
        completed_minutes(rows.drop_last(), ym) + if rows.last().year_month@ == ym
            && rows.last().status@ == "makeup_attended"@ {
            rows.last().class_minutes as int
        } else {
            0int
        }
    }
}

/// Every running total of the pending minutes fits in `i64`.
pub open spec fn pending_sums_fit(rows: Seq<AttendanceRecord>, ym: Seq<char>) -> bool {
    forall|k: int|
        0 <= k <= rows.len() ==> i64::MIN <= #[trigger] pending_minutes(rows.subrange(0, k), ym)
            <= i64::MAX
}

/// Every running total of the completed minutes fits in `i64`.
pub open spec fn completed_sums_fit(rows: Seq<MakeupRecord>, ym: Seq<char>) -> bool {
    forall|k: int|
        0 <= k <= rows.len() ==> i64::MIN <= #[trigger] completed_minutes(rows.subrange(0, k), ym)
            <= i64::MAX
}

pub open spec fn msg_needed_overflow() -> Seq<char> {
    "보강필요시간 조회 실패: integer overflow"@
}

pub open spec fn msg_completed_overflow() -> Seq<char> {
    "보강완료 조회 실패: integer overflow"@
}

fn is_pending_exec(r: &AttendanceRecord, ym: &str) -> (b: bool)
    ensures
        b == is_pending(*r, ym@),
{
    if !str_eq(r.status.as_str(), "absent") || r.makeup_attendance_id.is_some() {
        return false;
    }
    match &r.makeup_deadline {
        Some(d) => str_le(ym, d.as_str()),
        None => true,
    }
}

proof fn lemma_count_bound(rows: Seq<AttendanceRecord>, ym: Seq<char>, st: Seq<char>)
    ensures
        0 <= count_status(rows, ym, st) <= rows.len(),
    decreases rows.len(),
{
    if rows.len() > 0 {
        lemma_count_bound(rows.drop_last(), ym, st);
    }
}

/// Monthly summary of a student from all of the student's regular rows and
/// make-up rows: present and absent counts of month `ym`; the minutes of the
/// absences still owed a make-up, over all months (zero for a withdrawn
/// student); the minutes of the attended make-ups of `ym`. A running total
/// that leaves `i64` is the error that SQLite's `SUM` reports.
pub fn compute_summary(
    student_id: i64,
    year_month: &str,
    rows: &Vec<AttendanceRecord>,
    withdrawn: bool,
    makeups: &Vec<MakeupRecord>,
) -> (r: Result<AttendanceSummary, String>)
    requires
        rows@.len() <= i64::MAX,
    ensures
        !withdrawn && !pending_sums_fit(rows@, year_month@) ==> (r matches Err(e) && e@
            == msg_needed_overflow()),
        (withdrawn || pending_sums_fit(rows@, year_month@)) && !completed_sums_fit(
            makeups@,
            year_month@,
        ) ==> (r matches Err(e) && e@ == msg_completed_overflow()),
        (withdrawn || pending_sums_fit(rows@, year_month@)) && completed_sums_fit(
            makeups@,
            year_month@,
        ) ==> (r matches Ok(s) && s.student_id == student_id && s.year_month@ == year_month@
            && s.present_count == count_status(rows@, year_month@, "present"@)
            && s.absent_count == count_status(rows@, year_month@, "absent"@)
            && s.makeup_needed_minutes == (if withdrawn {
            0
        } else {
            pending_minutes(rows@, year_month@)
        }) && s.makeup_completed_minutes == completed_minutes(makeups@, year_month@)),
{
    let mut present: i64 = 0;
    let mut absent: i64 = 0;
    let mut needed: i64 = 0;
    let mut overflow = false;
    let mut i: usize = 0;
    while i < rows.len()
        invariant
            i <= rows.len(),
            rows@.len() <= i64::MAX,
            present == count_status(rows@.subrange(0, i as int), year_month@, "present"@),
            absent == count_status(rows@.subrange(0, i as int), year_month@, "absent"@),
            !overflow ==> needed == pending_minutes(rows@.subrange(0, i as int), year_month@),
            !overflow ==> forall|k: int|
                0 <= k <= i ==> i64::MIN <= #[trigger] pending_minutes(
                    rows@.subrange(0, i as int).subrange(0, k),
                    year_month@,
                ) <= i64::MAX,
            overflow ==> !pending_sums_fit(rows@, year_month@),
        decreases rows.len() - i,
    {
        let r = &rows[i];
        let ghost pre = rows@.subrange(0, i as int);
        let ghost cur = rows@.subrange(0, i + 1);
        proof {
            assert(cur.drop_last() =~= pre);
            assert(cur.last() == *r);
            lemma_count_bound(pre, year_month@, "present"@);
            lemma_count_bound(pre, year_month@, "absent"@);
        }
        let same_month = str_eq(r.year_month.as_str(), year_month);
        if same_month && str_eq(r.status.as_str(), "present") {
            present = present + 1;
        }
        if same_month && str_eq(r.status.as_str(), "absent") {
            absent = absent + 1;
        }
        if !overflow && is_pending_exec(r, year_month) {
            match needed.checked_add(r.class_minutes) {
                Some(v) => {
                    needed = v;
                },
                None => {
                    overflow = true;
                    proof {
                        assert(rows@.subrange(0, i + 1) =~= cur);
                        assert(pending_minutes(rows@.subrange(0, i + 1), year_month@) == needed
                            + r.class_minutes);
                    }
                },
            }
        }
        proof {
            if !overflow {
                assert forall|k: int| 0 <= k <= i + 1 implies i64::MIN <= #[trigger] pending_minutes(
                    cur.subrange(0, k),
                    year_month@,
                ) <= i64::MAX by {
                    if k <= i {
                        assert(cur.subrange(0, k) =~= pre.subrange(0, k));
                    } else {
                        assert(cur.subrange(0, k) =~= cur);
                    }
                }
            }
        }
        i = i + 1;
    }
    assert(rows@.subrange(0, rows.len() as int) =~= rows@);
    if overflow && !withdrawn {
        return Err(String::from_str("보강필요시간 조회 실패: integer overflow"));
    }
    proof {
        if !overflow {
            assert forall|k: int| 0 <= k <= rows@.len() implies i64::MIN <= #[trigger] pending_minutes(
                rows@.subrange(0, k),
                year_month@,
            ) <= i64::MAX by {
                assert(rows@.subrange(0, rows@.len() as int).subrange(0, k) =~= rows@.subrange(0, k));
            }
        }
    }
    let mut completed: i64 = 0;
    let mut j: usize = 0;
    while j < makeups.len()
        invariant
            j <= makeups.len(),
            completed == completed_minutes(makeups@.subrange(0, j as int), year_month@),
            withdrawn || pending_sums_fit(rows@, year_month@),
            !withdrawn ==> needed == pending_minutes(rows@, year_month@),
            present == count_status(rows@, year_month@, "present"@),
            absent == count_status(rows@, year_month@, "absent"@),
            forall|k: int|
                0 <= k <= j ==> i64::MIN <= #[trigger] completed_minutes(
                    makeups@.subrange(0, j as int).subrange(0, k),
                    year_month@,
                ) <= i64::MAX,
        decreases makeups.len() - j,
    {
        let m = &makeups[j];
        let ghost pre = makeups@.subrange(0, j as int);
        let ghost cur = makeups@.subrange(0, j + 1);
        proof {
            assert(cur.drop_last() =~= pre);
            assert(cur.last() == *m);
        }
        if str_eq(m.year_month.as_str(), year_month) && str_eq(
            m.status.as_str(),
            "makeup_attended",
        ) {
            match completed.checked_add(m.class_minutes) {
                Some(v) => {
                    completed = v;
                },
                None => {
                    proof {
                        assert(makeups@.subrange(0, j + 1) =~= cur);
                        assert(!(i64::MIN <= completed_minutes(makeups@.subrange(0, j + 1), year_month@)
                            <= i64::MAX));
                    }
                    return Err(String::from_str("보강완료 조회 실패: integer overflow"));
                },
            }
        }
        proof {
            assert forall|k: int| 0 <= k <= j + 1 implies i64::MIN <= #[trigger] completed_minutes(
                cur.subrange(0, k),
                year_month@,
            ) <= i64::MAX by {
                if k <= j {
                    assert(cur.subrange(0, k) =~= pre.subrange(0, k));
                } else {
                    assert(cur.subrange(0, k) =~= cur);
                }
            }
        }
        j = j + 1;
    }
    assert(makeups@.subrange(0, makeups.len() as int) =~= makeups@);
    Ok(
        AttendanceSummary {
            student_id,
            year_month: String::from_str(year_month),
            present_count: present,
            absent_count: absent,
            makeup_needed_minutes: if withdrawn {
                0
            } else {
                needed
            },
            makeup_completed_minutes: completed,
        },
    )
}

// ───────────────────────────── pending absences ─────────────────────────────

/// The absences still owed a make-up as of `ym`, in row order.
pub open spec fn pending_rows(rows: Seq<AttendanceRecord>, ym: Seq<char>) -> Seq<AttendanceRecord>
    decreases rows.len(),
{
    if rows.len() == 0 {
        Seq::empty()
    } else if is_pending(rows.last(), ym) {
        pending_rows(rows.drop_last(), ym).push(rows.last())
    } else {
        pending_rows(rows.drop_last(), ym)
    }
}

pub open spec fn detail_of(r: AttendanceRecord) -> (Seq<char>, i64, Option<Seq<char>>) {
    (r.event_date@, r.class_minutes, match r.makeup_deadline {
        Some(d) => Some(d@),
        None => None,
    })
}

pub open spec fn detail_view(p: PendingMakeupDetail) -> (Seq<char>, i64, Option<Seq<char>>) {
    (p.event_date@, p.class_minutes, match p.makeup_deadline {
        Some(d) => Some(d@),
        None => None,
    })
}

/// The absences of a student still owed a make-up as of `ym`, in the order of
/// `rows` (the caller passes them by day); none for a withdrawn student.
pub fn pending_absences(rows: &Vec<AttendanceRecord>, year_month: &str, withdrawn: bool) -> (r: Vec<
    PendingMakeupDetail,
>)
    ensures
        withdrawn ==> r@.len() == 0,
        !withdrawn ==> r@.map_values(|p: PendingMakeupDetail| detail_view(p)) == pending_rows(
            rows@,
            year_month@,
        ).map_values(|x: AttendanceRecord| detail_of(x)),
{
    let mut out: Vec<PendingMakeupDetail> = Vec::new();
    if withdrawn {
        return out;
    }
    let mut i: usize = 0;
    while i < rows.len()
        invariant
            i <= rows.len(),
            out@.map_values(|p: PendingMakeupDetail| detail_view(p)) == pending_rows(
                rows@.subrange(0, i as int),
                year_month@,
            ).map_values(|x: AttendanceRecord| detail_of(x)),
        decreases rows.len() - i,
    {
        let r = &rows[i];
        let ghost before = out@;
        proof {
            assert(rows@.subrange(0, i + 1).drop_last() =~= rows@.subrange(0, i as int));
            assert(rows@.subrange(0, i + 1).last() == *r);
        }
        if is_pending_exec(r, year_month) {
            let dl = match &r.makeup_deadline {
                Some(d) => Some(d.clone()),
                None => None,
            };
            out.push(
                PendingMakeupDetail {
                    event_date: r.event_date.clone(),
                    class_minutes: r.class_minutes,
                    makeup_deadline: dl,
                },
            );
            proof {
                let pr = pending_rows(rows@.subrange(0, i as int), year_month@);
                assert(pending_rows(rows@.subrange(0, i + 1), year_month@) == pr.push(*r));
                assert(out@.map_values(|p: PendingMakeupDetail| detail_view(p)) =~= before.map_values(
                    |p: PendingMakeupDetail| detail_view(p),
                ).push(detail_of(*r)));
                assert(pr.push(*r).map_values(|x: AttendanceRecord| detail_of(x)) =~= pr.map_values(
                    |x: AttendanceRecord| detail_of(x),
                ).push(detail_of(*r)));
            }
        }
        i = i + 1;
    }
    assert(rows@.subrange(0, rows.len() as int) =~= rows@);
    out
}

/// Some pending absence of `rows` falls on `d` (text).
pub open spec fn has_pending_on(rows: Seq<AttendanceRecord>, ym: Seq<char>, d: Seq<char>) -> bool {
    exists|i: int| 0 <= i < rows.len() && is_pending(#[trigger] rows[i], ym) && rows[i].event_date@ == d
}

/// The earliest day (text order) of an absence still owed a make-up as of
/// `ym`, over all of the student's rows; `None` when there is none.
pub fn earliest_pending_absence(rows: &Vec<AttendanceRecord>, year_month: &str) -> (r: Option<String>)
    ensures
        r is None <==> (forall|i: int| 0 <= i < rows@.len() ==> !is_pending(#[trigger] rows@[i], year_month@)),
        r matches Some(d) ==> has_pending_on(rows@, year_month@, d@) && forall|i: int|
            0 <= i < rows@.len() && is_pending(#[trigger] rows@[i], year_month@) ==> text_le(d@, rows@[i].event_date@),
{
    let mut best: Option<String> = None;
    let mut i: usize = 0;
    while i < rows.len()
        invariant
            i <= rows.len(),
            best is None <==> (forall|k: int| 0 <= k < i ==> !is_pending(#[trigger] rows@[k], year_month@)),
            best matches Some(d) ==> (exists|k: int| 0 <= k < i && is_pending(#[trigger] rows@[k], year_month@) && rows@[k].event_date@ == d@)
                && forall|k: int| 0 <= k < i && is_pending(#[trigger] rows@[k], year_month@) ==> text_le(d@, rows@[k].event_date@),
        decreases rows.len() - i,
    {
        let r = &rows[i];
        if is_pending_exec(r, year_month) {
            let replace = match &best {
                None => true,
                Some(b) => str_lt(r.event_date.as_str(), b.as_str()),
            };
            let ghost gbest = best;
            if replace {
                proof {
                    match gbest {
                        Some(b) => {
                            assert forall|k: int| 0 <= k < i && is_pending(#[trigger] rows@[k], year_month@) implies text_le(r.event_date@, rows@[k].event_date@) by {
                                lemma_text_le_trans_lt(r.event_date@, b@, rows@[k].event_date@);
                            }
                        },
                        None => {},
                    }
                }
                best = Some(r.event_date.clone());
            } else {
                proof {
                    match gbest {
                        Some(b) => {
                            lemma_text_trichotomy(r.event_date@, b@);
                        },
                        None => {},
                    }
                }
            }
        }
        i = i + 1;
    }
    let ghost gb = best;
    proof {
        if let Some(d) = gb {
            let k = choose|k: int| 0 <= k < rows@.len() && is_pending(#[trigger] rows@[k], year_month@) && rows@[k].event_date@ == d@;
            assert(has_pending_on(rows@, year_month@, d@));
        }
    }
    best
}

proof fn lemma_text_le_trans_lt(a: Seq<char>, b: Seq<char>, c: Seq<char>)
    requires
        text_lt(a, b),
        text_le(b, c),
    ensures
        text_le(a, c),
{
    crate::text::lemma_text_lt_trans(a, b, c);
}

} // verus!

verus! {

// ───────────────────────────── day schedules ─────────────────────────────

/// A stored schedule event overlapping a month: its first and last day
/// (texts) and the attributes of its code.
#[derive(Clone, Debug)]
pub struct DayEventRow {
    pub event_date: String,
    pub end_date: String,
    pub code_name: String,
    pub allows_regular_class: i64,
    pub allows_makeup_class: i64,
}

/// A schedule event with its days read.
#[derive(Clone, Debug)]
pub struct DayEvent {
    pub start: CivilDate,
    pub end: CivilDate,
    pub code_name: String,
    pub allows_regular_class: i64,
    pub allows_makeup_class: i64,
}

/// The calendar attributes of one day of the month.
#[derive(Clone, Debug)]
pub struct DaySchedule {
    pub event_date: String,
    pub allows_makeup: bool,
    pub is_block: bool,
    pub regular_blocked: bool,
    pub label: String,
}

/// The events read from their rows, in order. The first unreadable day is
/// the error, as is an event whose walk would pass the last date `chrono`
/// holds.
pub open spec fn parsed_day_events(rows: Seq<DayEventRow>) -> Result<Seq<DayEvent>, Seq<char>>
    decreases rows.len(),
{
    if rows.len() == 0 {
        Ok(Seq::empty())
    } else {
        match chrono_parse_ymd(rows[0].event_date@) {
            Err(e) => Err("이벤트 일자 파싱 실패: "@ + e),
            Ok(t) => match chrono_parse_ymd(rows[0].end_date@) {
                Err(e) => Err("이벤트 종료일 파싱 실패: "@ + e),
                Ok(u) => {
                    let s = ymd(t.0, t.1, t.2);
                    let e = ymd(u.0, u.1, u.2);
                    if date_le(s, e) && e.is_max() {
                        Err("일자 다음 날짜 계산 실패: "@ + date_text(e))
                    } else {
                        match parsed_day_events(rows.drop_first()) {
                            Ok(rest) => Ok(
                                seq![
                                    DayEvent {
                                        start: s,
                                        end: e,
                                        code_name: rows[0].code_name,
                                        allows_regular_class: rows[0].allows_regular_class,
                                        allows_makeup_class: rows[0].allows_makeup_class,
                                    },
                                ] + rest,
                            ),
                            Err(x) => Err(x),
                        }
                    }
                },
            },
        }
    }
}

/// The events covering day `d`, folded in order into (covered, allows
/// make-up, blocks all classes, blocks regular classes, label). The label is
/// the first covering code's name, replaced by the first code that allows
/// make-up classes, or by any code while it is still empty.
pub open spec fn day_fold(evs: Seq<DayEvent>, d: CivilDate) -> (bool, bool, bool, bool, Seq<char>)
    decreases evs.len(),
{
    if evs.len() == 0 {
        (false, false, false, false, Seq::empty())
    } else {
        let (any, mk, blk, reg, label) = day_fold(evs.drop_last(), d);
        let e = evs.last();
        if date_le(e.start, d) && date_le(d, e.end) {
            let new_mk = e.allows_makeup_class == 1;
            (
                true,
                mk || new_mk,
                blk || (e.allows_regular_class == 0 && e.allows_makeup_class == 0),
                reg || e.allows_regular_class == 0,
                if (new_mk && !mk) || label.len() == 0 {
                    e.code_name@
                } else {
                    label
                },
            )
        } else {
            (any, mk, blk, reg, label)
        }
    }
}

/// The attributes of days `1..=k` of month `m` of year `y` that some event
/// covers, in day order.
pub open spec fn month_schedule(evs: Seq<DayEvent>, y: int, m: int, k: int) -> Seq<
    (Seq<char>, bool, bool, bool, Seq<char>),
>
    decreases k,
{
    if k <= 0 {
        Seq::empty()
    } else {
        let prev = month_schedule(evs, y, m, k - 1);
        let d = ymd(y, m, k);
        let f = day_fold(evs, d);
        if f.0 {
            prev.push((date_text(d), f.1, f.2, f.3, f.4))
        } else {
            prev
        }
    }
}

/// Event `e` covers day `d`.
pub open spec fn covers(e: DayEvent, d: CivilDate) -> bool {
    date_le(e.start, d) && date_le(d, e.end)
}

/// Some event of `evs` covers day `d`.
pub open spec fn day_covered(evs: Seq<DayEvent>, d: CivilDate) -> bool {
    some_event(evs, |e: DayEvent| covers(e, d))
}

/// Some event of `evs` has property `p`.
pub open spec fn some_event(evs: Seq<DayEvent>, p: spec_fn(DayEvent) -> bool) -> bool {
    exists|i: int| 0 <= i < evs.len() && #[trigger] p(evs[i])
}

proof fn lemma_some_event_last(evs: Seq<DayEvent>, p: spec_fn(DayEvent) -> bool)
    requires
        evs.len() > 0,
    ensures
        some_event(evs, p) == (some_event(evs.drop_last(), p) || p(evs.last())),
{
    let pre = evs.drop_last();
    if some_event(evs, p) {
        let i = choose|i: int| 0 <= i < evs.len() && #[trigger] p(evs[i]);
        if i < pre.len() {
            assert(pre[i] == evs[i]);
        }
    }
    if some_event(pre, p) {
        let i = choose|i: int| 0 <= i < pre.len() && #[trigger] p(pre[i]);
        assert(pre[i] == evs[i]);
    }
    if p(evs.last()) {
        assert(evs[evs.len() - 1] == evs.last());
    }
}

/// The attributes `t` of day `d` are what the events covering it give: some
/// event covers it; it allows make-up classes exactly when a covering code
/// does, blocks all classes exactly when a covering code allows neither kind,
/// blocks regular classes exactly when a covering code does; its label is the
/// name of a covering code.
#[verifier::opaque]
pub open spec fn day_attributes(evs: Seq<DayEvent>, d: CivilDate, t: (Seq<char>, bool, bool, bool, Seq<char>)) -> bool {
    &&& t.0 == date_text(d)
    &&& day_covered(evs, d)
    &&& t.1 == some_event(evs, |e: DayEvent| covers(e, d) && e.allows_makeup_class == 1)
    &&& t.2 == some_event(
        evs,
        |e: DayEvent| covers(e, d) && e.allows_regular_class == 0 && e.allows_makeup_class == 0,
    )
    &&& t.3 == some_event(evs, |e: DayEvent| covers(e, d) && e.allows_regular_class == 0)
    &&& some_event(evs, |e: DayEvent| covers(e, d) && e.code_name@ == t.4)
}

/// What the fold of a day's events gives, stated over the events: covered
/// exactly when some event covers the day; each flag exactly when some
/// covering code has it; a label that is a covering code's name (empty when
/// nothing covers the day).
pub proof fn lemma_day_fold_flags(evs: Seq<DayEvent>, d: CivilDate)
    ensures
        ({
            let f = day_fold(evs, d);
            &&& f.0 == some_event(evs, |e: DayEvent| covers(e, d))
            &&& f.1 == some_event(evs, |e: DayEvent| covers(e, d) && e.allows_makeup_class == 1)
            &&& f.2 == some_event(
                evs,
                |e: DayEvent| covers(e, d) && e.allows_regular_class == 0 && e.allows_makeup_class == 0,
            )
            &&& f.3 == some_event(evs, |e: DayEvent| covers(e, d) && e.allows_regular_class == 0)
            &&& f.0 ==> some_event(evs, |e: DayEvent| covers(e, d) && e.code_name@ == f.4)
            &&& !f.0 ==> f.4.len() == 0
        }),
    decreases evs.len(),
{
    if evs.len() > 0 {
        let pre = evs.drop_last();
        let e = evs.last();
        lemma_day_fold_flags(pre, d);
        let f = day_fold(evs, d);
        let g = day_fold(pre, d);
        lemma_some_event_last(evs, |e: DayEvent| covers(e, d));
        lemma_some_event_last(evs, |e: DayEvent| covers(e, d) && e.allows_makeup_class == 1);
        lemma_some_event_last(
            evs,
            |e: DayEvent| covers(e, d) && e.allows_regular_class == 0 && e.allows_makeup_class == 0,
        );
        lemma_some_event_last(evs, |e: DayEvent| covers(e, d) && e.allows_regular_class == 0);
        lemma_some_event_last(evs, |x: DayEvent| covers(x, d) && x.code_name@ == f.4);
        if covers(e, d) {
            if f.4 != e.code_name@ {
                assert(f.4 == g.4);
                assert(g.4.len() != 0);
                assert(g.0);
                let pl = |x: DayEvent| covers(x, d) && x.code_name@ == g.4;
                assert(some_event(pre, pl));
                let i = choose|i: int| 0 <= i < pre.len() && #[trigger] pl(pre[i]);
                assert(pre[i] == evs[i]);
                assert((|x: DayEvent| covers(x, d) && x.code_name@ == f.4)(evs[i]));
            }
        } else {
            assert(f == g);
            if g.0 {
                let pl = |x: DayEvent| covers(x, d) && x.code_name@ == g.4;
                let i = choose|i: int| 0 <= i < pre.len() && #[trigger] pl(pre[i]);
                assert(pre[i] == evs[i]);
                assert((|x: DayEvent| covers(x, d) && x.code_name@ == f.4)(evs[i]));
            }
        }
    }
}

proof fn lemma_fold_gives_attributes(evs: Seq<DayEvent>, d: CivilDate)
    ensures
        ({
            let f = day_fold(evs, d);
            &&& f.0 ==> day_attributes(evs, d, (date_text(d), f.1, f.2, f.3, f.4))
            &&& f.0 == day_covered(evs, d)
        }),
{
    lemma_day_fold_flags(evs, d);
    reveal(day_attributes);
}

/// `t` is the attributes of one of the days `1..=k` of month `m` of year `y`.
pub open spec fn attributes_of_some_day(
    evs: Seq<DayEvent>,
    y: int,
    m: int,
    k: int,
    t: (Seq<char>, bool, bool, bool, Seq<char>),
) -> bool {
    exists|day: int| 1 <= day <= k && #[trigger] day_attributes(evs, ymd(y, m, day), t)
}

/// Some entry of `ms` is for the text `dt`.
pub open spec fn has_entry_for(ms: Seq<(Seq<char>, bool, bool, bool, Seq<char>)>, dt: Seq<char>) -> bool {
    exists|j: int| 0 <= j < ms.len() && (#[trigger] ms[j]).0 == dt
}

/// Each entry of a month schedule over days `1..=k` is the attributes of one
/// of those days (see `day_attributes`), and every one of those days that
/// some event covers has an entry.
pub proof fn lemma_month_schedule_days(evs: Seq<DayEvent>, y: int, m: int, k: int)
    ensures
        forall|j: int|
            0 <= j < month_schedule(evs, y, m, k).len() ==> #[trigger] attributes_of_some_day(
                evs,
                y,
                m,
                k,
                month_schedule(evs, y, m, k)[j],
            ),
        forall|day: int|
            1 <= day <= k && #[trigger] day_covered(evs, ymd(y, m, day)) ==> has_entry_for(
                month_schedule(evs, y, m, k),
                date_text(ymd(y, m, day)),
            ),
    decreases k,
{
    let ms = month_schedule(evs, y, m, k);
    if k > 0 {
        lemma_month_schedule_days(evs, y, m, k - 1);
        let prev = month_schedule(evs, y, m, k - 1);
        let d = ymd(y, m, k);
        let f = day_fold(evs, d);
        lemma_fold_gives_attributes(evs, d);
        if f.0 {
            let t = (date_text(d), f.1, f.2, f.3, f.4);
            assert(ms == prev.push(t));
            assert forall|j: int| 0 <= j < ms.len() implies #[trigger] attributes_of_some_day(evs, y, m, k, ms[j]) by {
                if j < prev.len() {
                    assert(ms[j] == prev[j]);
                    assert(attributes_of_some_day(evs, y, m, k - 1, prev[j]));
                    let day = choose|day: int| 1 <= day <= k - 1 && #[trigger] day_attributes(evs, ymd(y, m, day), prev[j]);
                    assert(day_attributes(evs, ymd(y, m, day), ms[j]));
                } else {
                    assert(ms[j] == t);
                    assert(day_attributes(evs, ymd(y, m, k), ms[j]));
                }
            }
            assert forall|day: int| 1 <= day <= k && #[trigger] day_covered(evs, ymd(y, m, day)) implies has_entry_for(
                ms,
                date_text(ymd(y, m, day)),
            ) by {
                if day < k {
                    assert(has_entry_for(prev, date_text(ymd(y, m, day))));
                    let j = choose|j: int| 0 <= j < prev.len() && (#[trigger] prev[j]).0 == date_text(ymd(y, m, day));
                    assert(ms[j] == prev[j]);
                } else {
                    assert(ms[prev.len() as int] == t);
                }
            }
        } else {
            assert(ms == prev);
            assert forall|j: int| 0 <= j < ms.len() implies #[trigger] attributes_of_some_day(evs, y, m, k, ms[j]) by {
                assert(attributes_of_some_day(evs, y, m, k - 1, prev[j]));
                let day = choose|day: int| 1 <= day <= k - 1 && #[trigger] day_attributes(evs, ymd(y, m, day), prev[j]);
                assert(day_attributes(evs, ymd(y, m, day), ms[j]));
            }
            assert forall|day: int| 1 <= day <= k && #[trigger] day_covered(evs, ymd(y, m, day)) implies has_entry_for(
                ms,
                date_text(ymd(y, m, day)),
            ) by {
                if day < k {
                    assert(has_entry_for(prev, date_text(ymd(y, m, day))));
                } else {
                    assert(false);
                }
            }
        }
    }
}

/// Entries of a month schedule whose days come in strictly rising text
/// order, each before the text of day `k + 1`.
pub open spec fn days_rising_below(ms: Seq<(Seq<char>, bool, bool, bool, Seq<char>)>, bound: Seq<char>) -> bool {
    &&& forall|i: int, j: int| 0 <= i < j < ms.len() ==> text_lt(#[trigger] ms[i].0, #[trigger] ms[j].0)
    &&& forall|i: int| 0 <= i < ms.len() ==> text_lt(#[trigger] ms[i].0, bound)
}

/// The days of a month schedule come in strictly rising order.
pub proof fn lemma_month_schedule_rising(evs: Seq<DayEvent>, y: int, m: int, k: int)
    requires
        0 <= k <= 98,
    ensures
        days_rising_below(month_schedule(evs, y, m, k), date_text(ymd(y, m, k + 1))),
    decreases k,
{
    let ms = month_schedule(evs, y, m, k);
    let bound = date_text(ymd(y, m, k + 1));
    lemma_day_text_rising(y, m, k, k + 1);
    if k > 0 {
        lemma_month_schedule_rising(evs, y, m, k - 1);
        let prev = month_schedule(evs, y, m, k - 1);
        let here = date_text(ymd(y, m, k));
        assert forall|i: int| 0 <= i < prev.len() implies text_lt(#[trigger] prev[i].0, bound) by {
            lemma_text_lt_trans(prev[i].0, here, bound);
        }
        if ms.len() > prev.len() {
            assert(ms.last().0 == here);
            assert forall|i: int, j: int| 0 <= i < j < ms.len() implies text_lt(
                #[trigger] ms[i].0,
                #[trigger] ms[j].0,
            ) by {
                assert(ms[i] == prev[i]);
                if j < prev.len() {
                    assert(ms[j] == prev[j]);
                }
            }
            assert forall|i: int| 0 <= i < ms.len() implies text_lt(#[trigger] ms[i].0, bound) by {
                if i < prev.len() {
                    assert(ms[i] == prev[i]);
                }
            }
        }
    }
}

pub open spec fn day_schedule_view(s: DaySchedule) -> (Seq<char>, bool, bool, bool, Seq<char>) {
    (s.event_date@, s.allows_makeup, s.is_block, s.regular_blocked, s.label@)
}

pub open spec fn events_wf(evs: Seq<DayEvent>) -> bool {
    forall|i: int| 0 <= i < evs.len() ==> (#[trigger] evs[i]).start.wf() && evs[i].end.wf()
}

/// Reads the days of the events overlapping a month.
pub fn parse_day_events(rows: &Vec<DayEventRow>) -> (r: Result<Vec<DayEvent>, String>)
    ensures
        match parsed_day_events(rows@) {
            Ok(evs) => r matches Ok(v) && v@ == evs && events_wf(v@),
            Err(e) => r matches Err(x) && x@ == e,
        },
{
    let mut out: Vec<DayEvent> = Vec::new();
    let mut i: usize = 0;
    assert(rows@.skip(0) =~= rows@);
    while i < rows.len()
        invariant
            i <= rows.len(),
            events_wf(out@),
            match parsed_day_events(rows@) {
                Ok(evs) => match parsed_day_events(rows@.skip(i as int)) {
                    Ok(rest) => evs == out@ + rest,
                    Err(x) => false,
                },
                Err(e) => match parsed_day_events(rows@.skip(i as int)) {
                    Ok(rest) => false,
                    Err(x) => x == e,
                },
            },
        decreases rows.len() - i,
    {
        let row = &rows[i];
        assert(rows@.skip(i as int)[0] == *row);
        assert(rows@.skip(i as int).drop_first() =~= rows@.skip(i + 1));
        let s = match parse_civil(row.event_date.as_str()) {
            Ok(d) => d,
            Err(e) => {
                let m = String::from_str("이벤트 일자 파싱 실패: ");
                return Err(m.concat(e.as_str()));
            },
        };
        let e = match parse_civil(row.end_date.as_str()) {
            Ok(d) => d,
            Err(x) => {
                let m = String::from_str("이벤트 종료일 파싱 실패: ");
                return Err(m.concat(x.as_str()));
            },
        };
        if date_le_exec(s, e) && crate::civil::is_max_exec(e) {
            let m = String::from_str("일자 다음 날짜 계산 실패: ");
            let t = civil_text(e);
            return Err(m.concat(t.as_str()));
        }
        let ghost before = out@;
        let ev = DayEvent {
            start: s,
            end: e,
            code_name: row.code_name.clone(),
            allows_regular_class: row.allows_regular_class,
            allows_makeup_class: row.allows_makeup_class,
        };
        out.push(ev);
        proof {
            assert(out@ =~= before + seq![ev]);
            match parsed_day_events(rows@.skip(i + 1)) {
                Ok(rest) => {
                    assert(before + seq![ev] + rest =~= before + (seq![ev] + rest));
                },
                Err(x) => {},
            }
        }
        i = i + 1;
    }
    assert(rows@.skip(rows.len() as int) =~= Seq::<DayEventRow>::empty());
    assert(out@ + Seq::<DayEvent>::empty() =~= out@);
    Ok(out)
}

/// The folded attributes of one day (see `day_fold`).
fn fold_day(evs: &Vec<DayEvent>, d: CivilDate) -> (r: (bool, bool, bool, bool, String))
    ensures
        (r.0, r.1, r.2, r.3, r.4@) == day_fold(evs@, d),
{
    let mut any = false;
    let mut mk = false;
    let mut blk = false;
    let mut reg = false;
    let mut label = String::new();
    let mut i: usize = 0;
    while i < evs.len()
        invariant
            i <= evs.len(),
            (any, mk, blk, reg, label@) == day_fold(evs@.subrange(0, i as int), d),
        decreases evs.len() - i,
    {
        let e = &evs[i];
        proof {
            assert(evs@.subrange(0, i + 1).drop_last() =~= evs@.subrange(0, i as int));
            assert(evs@.subrange(0, i + 1).last() == *e);
        }
        if date_le_exec(e.start, d) && date_le_exec(d, e.end) {
            let new_mk = e.allows_makeup_class == 1;
            if (new_mk && !mk) || label.unicode_len() == 0 {
                label = e.code_name.clone();
            }
            any = true;
            mk = mk || new_mk;
            blk = blk || (e.allows_regular_class == 0 && e.allows_makeup_class == 0);
            reg = reg || e.allows_regular_class == 0;
        }
        i = i + 1;
    }
    assert(evs@.subrange(0, evs.len() as int) =~= evs@);
    (any, mk, blk, reg, label)
}

/// The calendar attributes of the days of month `year_month` that some
/// event covers, in day order: whether a code allows make-up classes there,
/// whether a code blocks all classes, whether a code blocks regular classes,
/// and the label to show.
pub fn build_day_schedules(year_month: &str, rows: &Vec<DayEventRow>) -> (r: Result<
    Vec<DaySchedule>,
    String,
>)
    requires
        valid_year_month(year_month.spec_bytes()),
    ensures
        match parsed_day_events(rows@) {
            Ok(evs) => r matches Ok(v) && v@.map_values(|s: DaySchedule| day_schedule_view(s))
                == month_schedule(
                evs,
                ym_year(year_month.spec_bytes()),
                ym_month(year_month.spec_bytes()),
                days_in_month(ym_year(year_month.spec_bytes()), ym_month(year_month.spec_bytes())),
            ) && (forall|i: int, j: int|
                0 <= i < j < v@.len() ==> text_lt(#[trigger] v@[i].event_date@, #[trigger] v@[j].event_date@))
                && (forall|j: int|
                0 <= j < v@.len() ==> #[trigger] attributes_of_some_day(
                    evs,
                    ym_year(year_month.spec_bytes()),
                    ym_month(year_month.spec_bytes()),
                    days_in_month(ym_year(year_month.spec_bytes()), ym_month(year_month.spec_bytes())),
                    day_schedule_view(v@[j]),
                )) && (forall|day: int|
                1 <= day <= days_in_month(ym_year(year_month.spec_bytes()), ym_month(year_month.spec_bytes()))
                    && #[trigger] day_covered(
                    evs,
                    ymd(ym_year(year_month.spec_bytes()), ym_month(year_month.spec_bytes()), day),
                ) ==> has_entry_for(
                    v@.map_values(|s: DaySchedule| day_schedule_view(s)),
                    date_text(ymd(ym_year(year_month.spec_bytes()), ym_month(year_month.spec_bytes()), day)),
                )),
            Err(e) => r matches Err(x) && x@ == e,
        },
{
    let (y, m) = year_month_numbers(year_month);
    let evs = parse_day_events(rows)?;
    let dim = crate::civil::days_in_month_exec(y, m);
    let mut out: Vec<DaySchedule> = Vec::new();
    let mut k: u32 = 1;
    while k <= dim
        invariant
            1 <= k <= dim + 1,
            0 <= y <= 9999,
            1 <= m <= 12,
            dim as int == days_in_month(y as int, m as int),
            out@.map_values(|s: DaySchedule| day_schedule_view(s)) == month_schedule(
                evs@,
                y as int,
                m as int,
                k - 1,
            ),
        decreases dim + 1 - k,
    {
        let d = CivilDate { year: y, month: m, day: k };
        assert(d == ymd(y as int, m as int, k as int));
        let (any, mk, blk, reg, label) = fold_day(&evs, d);
        if any {
            let ghost before = out@;
            let t = civil_text(d);
            out.push(
                DaySchedule {
                    event_date: t,
                    allows_makeup: mk,
                    is_block: blk,
                    regular_blocked: reg,
                    label,
                },
            );
            assert(out@.map_values(|s: DaySchedule| day_schedule_view(s)) =~= before.map_values(
                |s: DaySchedule| day_schedule_view(s),
            ).push(day_schedule_view(out@.last())));
        }
        k = k + 1;
    }
    proof {
        let ms = month_schedule(evs@, y as int, m as int, dim as int);
        let ov = out@.map_values(|s: DaySchedule| day_schedule_view(s));
        lemma_month_schedule_rising(evs@, y as int, m as int, dim as int);
        lemma_month_schedule_days(evs@, y as int, m as int, dim as int);
        assert forall|j: int| 0 <= j < out@.len() implies #[trigger] attributes_of_some_day(
            evs@,
            y as int,
            m as int,
            dim as int,
            day_schedule_view(out@[j]),
        ) by {
            assert(ov.len() == ms.len());
            assert(ov[j] == day_schedule_view(out@[j]));
            assert(attributes_of_some_day(evs@, y as int, m as int, dim as int, ms[j]));
        }
        assert forall|i: int, j: int| 0 <= i < j < out@.len() implies text_lt(
            #[trigger] out@[i].event_date@,
            #[trigger] out@[j].event_date@,
        ) by {
            assert(ov.len() == ms.len());
            assert(ov[i] == day_schedule_view(out@[i]) && ov[j] == day_schedule_view(out@[j]));
            assert(text_lt(ms[i].0, ms[j].0));
        }
    }
    Ok(out)
}

} // verus!

verus! {

// ───────────────────────────── grid rows ─────────────────────────────

/// One cell of the grid: a regular attendance row.
#[derive(Clone, Debug)]
pub struct AttendanceCell {
    pub id: i64,
    pub event_date: String,
    pub status: String,
    pub class_minutes: i64,
    pub absence_memo: Option<String>,
    pub makeup_deadline: Option<String>,
    pub makeup_attendance_id: Option<i64>,
    pub note: Option<String>,
}

/// A make-up attendance of the month, shown on a day without regular class.
#[derive(Clone, Debug)]
pub struct GridMakeupCell {
    pub id: i64,
    pub event_date: String,
    pub status: String,
    pub class_minutes: i64,
}

/// The stored data of a student shown in the grid.
#[derive(Clone, Debug)]
pub struct GridStudentRow {
    pub student_id: i64,
    pub name: String,
    pub serial_no: String,
    pub school_level: String,
    pub grade: i64,
    pub enroll_date: String,
    pub withdraw_date: Option<String>,
}

/// One student row of the grid.
#[derive(Clone, Debug)]
pub struct AttendanceGridStudent {
    pub student_id: i64,
    pub name: String,
    pub serial_no: String,
    pub school_level: String,
    pub grade: i64,
    pub schedule_days: Vec<i64>,
    pub enroll_date: String,
    pub withdraw_date: Option<String>,
    pub attendances: Vec<AttendanceCell>,
    pub makeups: Vec<GridMakeupCell>,
    pub summary: AttendanceSummary,
    pub earliest_pending_absence_date: Option<String>,
    pub pending_absences: Vec<PendingMakeupDetail>,
}

/// The whole grid of a month.
#[derive(Clone, Debug)]
pub struct AttendanceGrid {
    pub year_month: String,
    pub students: Vec<AttendanceGridStudent>,
    pub day_schedules: Vec<DaySchedule>,
}

/// Result of a toggle: the row, its new status and deadline, and the
/// student's summary after the change.
#[derive(Clone, Debug)]
pub struct ToggleResult {
    pub attendance_id: i64,
    pub new_status: String,
    pub new_makeup_deadline: Option<String>,
    pub updated_summary: AttendanceSummary,
}

/// Total class minutes of a list of absences still owed a make-up.
pub open spec fn details_minutes(ps: Seq<PendingMakeupDetail>) -> int
    decreases ps.len(),
{
    if ps.len() == 0 {
        0
    } else {
        details_minutes(ps.drop_last()) + ps.last().class_minutes as int
    }
}

proof fn lemma_details_minutes_match(ps: Seq<PendingMakeupDetail>, rs: Seq<AttendanceRecord>)
    requires
        ps.map_values(|p: PendingMakeupDetail| detail_view(p)) == rs.map_values(|x: AttendanceRecord| detail_of(x)),
    ensures
        details_minutes(ps) == minutes_total(rs),
    decreases ps.len(),
{
    let pv = ps.map_values(|p: PendingMakeupDetail| detail_view(p));
    let rv = rs.map_values(|x: AttendanceRecord| detail_of(x));
    assert(pv.len() == ps.len());
    assert(rv.len() == rs.len());
    assert(pv.len() == rv.len());
    if ps.len() > 0 {
        let n = ps.len() - 1;
        assert(pv[n] == detail_view(ps[n]));
        assert(rv[n] == detail_of(rs[n]));
        assert(pv[n] == detail_view(ps[n]) && rv[n] == detail_of(rs[n]));
        assert(ps.drop_last().map_values(|p: PendingMakeupDetail| detail_view(p)) =~= pv.drop_last());
        assert(rs.drop_last().map_values(|x: AttendanceRecord| detail_of(x)) =~= rv.drop_last());
        lemma_details_minutes_match(ps.drop_last(), rs.drop_last());
    }
}

/// The summary `s` is the one of the given rows (see `compute_summary`).
pub open spec fn summary_of(
    s: AttendanceSummary,
    student_id: i64,
    ym: Seq<char>,
    rows: Seq<AttendanceRecord>,
    withdrawn: bool,
    makeups: Seq<MakeupRecord>,
) -> bool {
    &&& s.student_id == student_id
    &&& s.year_month@ == ym
    &&& s.present_count == count_status(rows, ym, "present"@)
    &&& s.absent_count == count_status(rows, ym, "absent"@)
    &&& s.makeup_needed_minutes == (if withdrawn {
        0
    } else {
        pending_minutes(rows, ym)
    })
    &&& s.makeup_completed_minutes == completed_minutes(makeups, ym)
}

/// The grid row of a student: the stored data with the month's cells and
/// make-ups, the monthly summary, the earliest absence still owed a make-up
/// (over all months) and the list of those absences by day (none for a
/// withdrawn student). `rows` and `makeup_rows` are all of the student's
/// rows, the regular ones by day.
pub fn grid_student(
    student: GridStudentRow,
    year_month: &str,
    schedule_days: Vec<i64>,
    attendances: Vec<AttendanceCell>,
    makeups: Vec<GridMakeupCell>,
    rows: &Vec<AttendanceRecord>,
    makeup_rows: &Vec<MakeupRecord>,
) -> (r: Result<AttendanceGridStudent, String>)
    requires
        rows@.len() <= i64::MAX,
        rows_by_day(rows@),
    ensures
        ({
            let withdrawn = student.withdraw_date is Some;
            &&& !withdrawn && !pending_sums_fit(rows@, year_month@) ==> (r matches Err(e) && e@
                == msg_needed_overflow())
            &&& (withdrawn || pending_sums_fit(rows@, year_month@)) && !completed_sums_fit(
                makeup_rows@,
                year_month@,
            ) ==> (r matches Err(e) && e@ == msg_completed_overflow())
            &&& (withdrawn || pending_sums_fit(rows@, year_month@)) && completed_sums_fit(
                makeup_rows@,
                year_month@,
            ) ==> (r matches Ok(g) && g.student_id == student.student_id && g.name == student.name
                && g.serial_no == student.serial_no && g.school_level == student.school_level
                && g.grade == student.grade && g.enroll_date == student.enroll_date
                && g.withdraw_date == student.withdraw_date && g.schedule_days@ == schedule_days@
                && g.attendances@ == attendances@ && g.makeups@ == makeups@ && summary_of(
                g.summary,
                student.student_id,
                year_month@,
                rows@,
                withdrawn,
                makeup_rows@,
            ) && g.summary.makeup_needed_minutes == details_minutes(g.pending_absences@) && (withdrawn
                ==> g.pending_absences@.len() == 0) && (forall|i: int, j: int|
                0 <= i < j < g.pending_absences@.len() ==> text_le(
                    #[trigger] g.pending_absences@[i].event_date@,
                    #[trigger] g.pending_absences@[j].event_date@,
                )) && (!withdrawn
                ==> g.pending_absences@.map_values(|p: PendingMakeupDetail| detail_view(p))
                == pending_rows(rows@, year_month@).map_values(
                |x: AttendanceRecord| detail_of(x),
            )) && (g.earliest_pending_absence_date is None <==> (forall|i: int|
                0 <= i < rows@.len() ==> !is_pending(#[trigger] rows@[i], year_month@)))
                && (g.earliest_pending_absence_date matches Some(d) ==> has_pending_on(
                rows@,
                year_month@,
                d@,
            ) && forall|i: int|
                0 <= i < rows@.len() && is_pending(#[trigger] rows@[i], year_month@) ==> text_le(
                    d@,
                    rows@[i].event_date@,
                )))
        }),
{
    let withdrawn = student.withdraw_date.is_some();
    let summary = compute_summary(student.student_id, year_month, rows, withdrawn, makeup_rows)?;
    let earliest = earliest_pending_absence(rows, year_month);
    let pending = pending_absences(rows, year_month, withdrawn);
    proof {
        lemma_pending_rows_by_day(rows@, year_month@);
        lemma_needed_minutes_match_pending_list(rows@, year_month@);
        if !withdrawn {
            lemma_details_minutes_match(pending@, pending_rows(rows@, year_month@));
        }
        if !withdrawn {
            let pv = pending@.map_values(|p: PendingMakeupDetail| detail_view(p));
            let rv = pending_rows(rows@, year_month@).map_values(|x: AttendanceRecord| detail_of(x));
            assert forall|i: int, j: int| 0 <= i < j < pending@.len() implies text_le(
                #[trigger] pending@[i].event_date@,
                #[trigger] pending@[j].event_date@,
            ) by {
                let pr = pending_rows(rows@, year_month@);
                assert(pv.len() == rv.len() && rv.len() == pr.len());
                assert(pv[i] == detail_view(pending@[i]) && pv[j] == detail_view(pending@[j]));
                assert(rv[i] == detail_of(pr[i]) && rv[j] == detail_of(pr[j]));
                assert(pv[i] == rv[i] && pv[j] == rv[j]);
                assert(pr[i].event_date@ == pending@[i].event_date@);
                assert(pr[j].event_date@ == pending@[j].event_date@);
                assert(text_le(pr[i].event_date@, pr[j].event_date@));
            }
        }
    }
    Ok(
        AttendanceGridStudent {
            student_id: student.student_id,
            name: student.name,
            serial_no: student.serial_no,
            school_level: student.school_level,
            grade: student.grade,
            schedule_days,
            enroll_date: student.enroll_date,
            withdraw_date: student.withdraw_date,
            attendances,
            makeups,
            summary,
            earliest_pending_absence_date: earliest,
            pending_absences: pending,
        },
    )
}

// ───────────────────────────── laws ─────────────────────────────

/// Total class minutes of a list of rows.
pub open spec fn minutes_total(rows: Seq<AttendanceRecord>) -> int
    decreases rows.len(),
{
    if rows.len() == 0 {
        0
    } else {
        minutes_total(rows.drop_last()) + rows.last().class_minutes as int
    }
}

/// The make-up minutes a student still owes are exactly the minutes of the
/// listed absences still owed a make-up: the summary and the hover list of
/// the grid agree.
pub proof fn lemma_needed_minutes_match_pending_list(rows: Seq<AttendanceRecord>, ym: Seq<char>)
    ensures
        pending_minutes(rows, ym) == minutes_total(pending_rows(rows, ym)),
    decreases rows.len(),
{
    if rows.len() > 0 {
        lemma_needed_minutes_match_pending_list(rows.drop_last(), ym);
        if is_pending(rows.last(), ym) {
            assert(pending_rows(rows, ym).drop_last() =~= pending_rows(rows.drop_last(), ym));
        }
    }
}

proof fn lemma_pending_rows_members(rows: Seq<AttendanceRecord>, ym: Seq<char>)
    ensures
        forall|j: int| 0 <= j < pending_rows(rows, ym).len() ==> exists|i: int|
            0 <= i < rows.len() && #[trigger] pending_rows(rows, ym)[j] == rows[i] && is_pending(
                rows[i],
                ym,
            ),
        pending_rows(rows, ym).len() == 0 <==> forall|i: int|
            0 <= i < rows.len() ==> !is_pending(#[trigger] rows[i], ym),
        pending_rows(rows, ym).len() > 0 ==> exists|i: int|
            0 <= i < rows.len() && is_pending(rows[i], ym) && pending_rows(rows, ym)[0] == rows[i]
                && forall|k: int| 0 <= k < i ==> !is_pending(#[trigger] rows[k], ym),
    decreases rows.len(),
{
    if rows.len() > 0 {
        let pre = rows.drop_last();
        lemma_pending_rows_members(pre, ym);
        assert forall|j: int| 0 <= j < pending_rows(rows, ym).len() implies exists|i: int|
            0 <= i < rows.len() && #[trigger] pending_rows(rows, ym)[j] == rows[i] && is_pending(
                rows[i],
                ym,
            ) by {
            if j < pending_rows(pre, ym).len() {
                let i = choose|i: int|
                    0 <= i < pre.len() && #[trigger] pending_rows(pre, ym)[j] == pre[i] && is_pending(
                        pre[i],
                        ym,
                    );
                assert(rows[i] == pre[i]);
            } else {
                assert(rows[rows.len() - 1] == rows.last());
            }
        }
        if pending_rows(pre, ym).len() == 0 && is_pending(rows.last(), ym) {
            assert(rows[rows.len() - 1] == rows.last());
            assert forall|k: int| 0 <= k < rows.len() - 1 implies !is_pending(#[trigger] rows[k], ym) by {
                assert(rows[k] == pre[k]);
            }
        }
        if pending_rows(pre, ym).len() > 0 {
            let i = choose|i: int|
                0 <= i < pre.len() && is_pending(pre[i], ym) && pending_rows(pre, ym)[0] == pre[i]
                    && forall|k: int| 0 <= k < i ==> !is_pending(#[trigger] pre[k], ym);
            assert(rows[i] == pre[i]);
            assert forall|k: int| 0 <= k < i implies !is_pending(#[trigger] rows[k], ym) by {
                assert(rows[k] == pre[k]);
            }
        }
        if !is_pending(rows.last(), ym) && pending_rows(pre, ym).len() == 0 {
            assert forall|i: int| 0 <= i < rows.len() implies !is_pending(#[trigger] rows[i], ym) by {
                if i < rows.len() - 1 {
                    assert(rows[i] == pre[i]);
                }
            }
        }
        if pending_rows(pre, ym).len() > 0 || is_pending(rows.last(), ym) {
            if pending_rows(pre, ym).len() > 0 {
                let i = choose|i: int|
                    0 <= i < pre.len() && is_pending(pre[i], ym) && pending_rows(pre, ym)[0] == pre[i]
                        && forall|k: int| 0 <= k < i ==> !is_pending(#[trigger] pre[k], ym);
                assert(rows[i] == pre[i]);
            } else {
                assert(rows[rows.len() - 1] == rows.last());
            }
        }
    }
}

/// Rows that come by day (text order of their days).
pub open spec fn rows_by_day(rows: Seq<AttendanceRecord>) -> bool {
    forall|i: int, j: int|
        0 <= i < j < rows.len() ==> text_le(#[trigger] rows[i].event_date@, #[trigger] rows[j].event_date@)
}

/// The absences still owed a make-up, taken from rows that come by day, come
/// by day too.
pub proof fn lemma_pending_rows_by_day(rows: Seq<AttendanceRecord>, ym: Seq<char>)
    requires
        rows_by_day(rows),
    ensures
        rows_by_day(pending_rows(rows, ym)),
    decreases rows.len(),
{
    if rows.len() > 0 {
        let pre = rows.drop_last();
        assert forall|i: int, j: int| 0 <= i < j < pre.len() implies text_le(
            #[trigger] pre[i].event_date@,
            #[trigger] pre[j].event_date@,
        ) by {
            assert(pre[i] == rows[i] && pre[j] == rows[j]);
        }
        lemma_pending_rows_by_day(pre, ym);
        lemma_pending_rows_members(pre, ym);
        if is_pending(rows.last(), ym) {
            let p = pending_rows(pre, ym);
            let q = pending_rows(rows, ym);
            assert(q == p.push(rows.last()));
            assert forall|i: int, j: int| 0 <= i < j < q.len() implies text_le(
                #[trigger] q[i].event_date@,
                #[trigger] q[j].event_date@,
            ) by {
                if j < p.len() {
                    assert(q[i] == p[i] && q[j] == p[j]);
                } else {
                    assert(q[i] == p[i]);
                    assert(q[j] == rows.last());
                    let k = choose|k: int|
                        0 <= k < pre.len() && #[trigger] pending_rows(pre, ym)[i] == pre[k] && is_pending(
                            pre[k],
                            ym,
                        );
                    assert(pre[k] == rows[k]);
                    assert(rows.last() == rows[rows.len() - 1]);
                }
            }
        }
    }
}

/// When a student's rows come by day, the earliest absence still owed a
/// make-up is the first one of the grid's list of such absences.
pub proof fn lemma_earliest_is_first_listed(rows: Seq<AttendanceRecord>, ym: Seq<char>)
    requires
        forall|i: int, j: int|
            0 <= i < j < rows.len() ==> text_le(#[trigger] rows[i].event_date@, #[trigger] rows[j].event_date@),
    ensures
        pending_rows(rows, ym).len() == 0 <==> forall|i: int|
            0 <= i < rows.len() ==> !is_pending(#[trigger] rows[i], ym),
        pending_rows(rows, ym).len() > 0 ==> forall|i: int|
            0 <= i < rows.len() && is_pending(#[trigger] rows[i], ym) ==> text_le(
                pending_rows(rows, ym)[0].event_date@,
                rows[i].event_date@,
            ),
{
    lemma_pending_rows_members(rows, ym);
    if pending_rows(rows, ym).len() > 0 {
        let f = choose|f: int|
            0 <= f < rows.len() && is_pending(rows[f], ym) && pending_rows(rows, ym)[0] == rows[f]
                && forall|k: int| 0 <= k < f ==> !is_pending(#[trigger] rows[k], ym);
        assert forall|i: int| 0 <= i < rows.len() && is_pending(#[trigger] rows[i], ym) implies text_le(
            pending_rows(rows, ym)[0].event_date@,
            rows[i].event_date@,
        ) by {
            if i != f {
                assert(f < i);
            }
        }
    }
}

} // verus!
