//! The month calendar (regular and make-up classes grouped by day) and the
//! make-up management list (how much make-up each student still owes and
//! whether its deadline is near).

use vstd::prelude::*;
use vstd::string::*;
use crate::civil::{CivilDate, day_number, day_number_exec, parse_civil, ymd};
use crate::text::{text_lt, text_le, lemma_text_trichotomy, lemma_text_lt_trans, str_lt, str_eq};

verus! {

/// One class of a student on the calendar.
#[derive(Clone, Debug, PartialEq, Eq)]
pub struct CalendarSession {
    pub student_id: i64,
    pub student_name: String,
    pub start_time: Option<String>,
    pub class_minutes: i64,
}

/// The classes of one day: regular ones, then make-up ones.
pub struct CalendarDay {
    pub event_date: String,
    pub regular_sessions: Vec<CalendarSession>,
    pub makeup_sessions: Vec<CalendarSession>,
}

/// The calendar of a month: its days with classes, in date order.
pub struct CalendarMonth {
    pub year_month: String,
    pub days: Vec<CalendarDay>,
}

/// A class with the date it takes place on, as read from the database.
pub struct DatedSession {
    pub event_date: String,
    pub session: CalendarSession,
}

/// The classes of `rows` on the date `d`, in their order.
pub open spec fn sessions_on(rows: Seq<DatedSession>, d: Seq<char>) -> Seq<CalendarSession>
    decreases rows.len(),
{
    if rows.len() == 0 {
        Seq::empty()
    } else {
        let rest = sessions_on(rows.drop_last(), d);
        if rows.last().event_date@ == d {
            rest.push(rows.last().session)
        } else {
            rest
        }
    }
}

/// Some class of `rows` is on the date `d`.
pub open spec fn has_date(rows: Seq<DatedSession>, d: Seq<char>) -> bool {
    exists|i: int| 0 <= i < rows.len() && #[trigger] rows[i].event_date@ == d
}

/// Some text of `s` is `t`.
pub open spec fn has_text(s: Seq<String>, t: Seq<char>) -> bool {
    exists|k: int| 0 <= k < s.len() && #[trigger] s[k]@ == t
}

/// Some day of `days` is the date `t`.
pub open spec fn has_day(days: Seq<CalendarDay>, t: Seq<char>) -> bool {
    exists|k: int| 0 <= k < days.len() && #[trigger] days[k].event_date@ == t
}

/// Strictly increasing texts.
pub open spec fn strictly_sorted(s: Seq<String>) -> bool {
    forall|a: int, b: int| 0 <= a < b < s.len() ==> text_lt(#[trigger] s[a]@, #[trigger] s[b]@)
}

fn copy_session(s: &CalendarSession) -> (r: CalendarSession)
    ensures
        r == *s,
{
    CalendarSession {
        student_id: s.student_id,
        student_name: s.student_name.clone(),
        start_time: s.start_time.clone(),
        class_minutes: s.class_minutes,
    }
}

/// Adds `d` to the sorted distinct dates unless it is there.
fn insert_date(dates: &mut Vec<String>, d: &str)
    requires
        strictly_sorted(old(dates)@),
    ensures
        strictly_sorted(final(dates)@),
        has_text(final(dates)@, d@),
        forall|t: Seq<char>| #[trigger] has_text(final(dates)@, t) <==> (t == d@ || has_text(old(dates)@, t)),
{
    let mut j: usize = 0;
    while j < dates.len() && str_lt(dates[j].as_str(), d)
        invariant
            j <= dates.len(),
            forall|k: int| 0 <= k < j ==> text_lt(#[trigger] dates@[k]@, d@),
        decreases dates.len() - j,
    {
        j = j + 1;
    }
    if j < dates.len() && str_eq(dates[j].as_str(), d) {
        proof {
            let jj = j as int;
            assert(dates@[jj]@ == d@);
        }
        return;
    }
    let ghost old_dates = dates@;
    proof {
        if j < dates.len() {
            lemma_text_trichotomy(d@, dates@[j as int]@);
            lemma_text_trichotomy(dates@[j as int]@, d@);
        }
    }
    dates.insert(j, String::from_str(d));
    proof {
        let nd = dates@;
        assert(nd == old_dates.insert(j as int, nd[j as int]));
        assert(nd[j as int]@ == d@);
        assert forall|a: int, b: int| 0 <= a < b < nd.len() implies text_lt(#[trigger] nd[a]@, #[trigger] nd[b]@) by {
            if b < j {
                assert(nd[a] == old_dates[a] && nd[b] == old_dates[b]);
            } else if b == j {
                assert(nd[a] == old_dates[a]);
            } else if a < j {
                assert(nd[a] == old_dates[a] && nd[b] == old_dates[b - 1]);
            } else if a == j {
                assert(nd[b] == old_dates[b - 1]);
                assert(text_lt(d@, old_dates[j as int]@));
                if b - 1 > j {
                    assert(text_lt(old_dates[j as int]@, old_dates[b - 1]@));
                    lemma_text_lt_trans(d@, old_dates[j as int]@, old_dates[b - 1]@);
                }
            } else {
                assert(nd[a] == old_dates[a - 1] && nd[b] == old_dates[b - 1]);
            }
        }
        assert(has_text(nd, d@));
        assert forall|t: Seq<char>| #[trigger] has_text(nd, t) <==> (t == d@ || has_text(old_dates, t)) by {
            if has_text(nd, t) {
                let k = choose|k: int| 0 <= k < nd.len() && #[trigger] nd[k]@ == t;
                if k < j {
                    assert(old_dates[k] == nd[k]);
                } else if k > j {
                    assert(old_dates[k - 1] == nd[k]);
                }
            }
            if has_text(old_dates, t) {
                let k = choose|k: int| 0 <= k < old_dates.len() && #[trigger] old_dates[k]@ == t;
                if k < j {
                    assert(nd[k] == old_dates[k]);
                } else {
                    assert(nd[k + 1] == old_dates[k]);
                }
            }
            if t == d@ {
                assert(nd[j as int]@ == t);
            }
        }
    }
}

/// The classes of `rows` on the date `d`, in their order.
fn sessions_for(rows: &Vec<DatedSession>, d: &str) -> (r: Vec<CalendarSession>)
    ensures
        r@ == sessions_on(rows@, d@),
{
    let mut out: Vec<CalendarSession> = Vec::new();
    let mut i: usize = 0;
    while i < rows.len()
        invariant
            i <= rows.len(),
            out@ == sessions_on(rows@.subrange(0, i as int), d@),
        decreases rows.len() - i,
    {
        proof {
            let s = rows@.subrange(0, i as int + 1);
            assert(s.drop_last() =~= rows@.subrange(0, i as int));
            assert(s.last() == rows@[i as int]);
        }
        if str_eq(rows[i].event_date.as_str(), d) {
            out.push(copy_session(&rows[i].session));
        }
        i = i + 1;
    }
    proof {
        assert(rows@.subrange(0, rows.len() as int) =~= rows@);
    }
    out
}

proof fn lemma_sessions_nonempty(rows: Seq<DatedSession>, d: Seq<char>)
    requires
        has_date(rows, d),
    ensures
        sessions_on(rows, d).len() > 0,
    decreases rows.len(),
{
    if rows.last().event_date@ != d {
        let i = choose|i: int| 0 <= i < rows.len() && #[trigger] rows[i].event_date@ == d;
        assert(rows.drop_last()[i].event_date@ == d);
        lemma_sessions_nonempty(rows.drop_last(), d);
    }
}

/// Groups a month's regular and make-up classes by day: one day for each date
/// that has a class, in date order, holding that date's regular classes and
/// make-up classes in the order given.
pub fn group_calendar(year_month: &str, regular: Vec<DatedSession>, makeup: Vec<DatedSession>) -> (r: CalendarMonth)
    ensures
        r.year_month@ == year_month@,
        forall|a: int, b: int|
            0 <= a < b < r.days.len() ==> text_lt(#[trigger] r.days@[a].event_date@, #[trigger] r.days@[b].event_date@),
        forall|k: int|
            0 <= k < r.days.len() ==> (#[trigger] r.days@[k]).regular_sessions@ == sessions_on(regular@, r.days@[k].event_date@)
                && r.days@[k].makeup_sessions@ == sessions_on(makeup@, r.days@[k].event_date@)
                && (r.days@[k].regular_sessions.len() > 0 || r.days@[k].makeup_sessions.len() > 0),
        forall|t: Seq<char>| has_date(regular@, t) || has_date(makeup@, t) ==> #[trigger] has_day(r.days@, t),
{
    let mut dates: Vec<String> = Vec::new();
    let mut i: usize = 0;
    while i < regular.len()
        invariant
            i <= regular.len(),
            strictly_sorted(dates@),
            forall|t: Seq<char>| #[trigger] has_text(dates@, t) <==> has_date(regular@.subrange(0, i as int), t),
        decreases regular.len() - i,
    {
        let ghost before = dates@;
        insert_date(&mut dates, regular[i].event_date.as_str());
        proof {
            let p = regular@.subrange(0, i as int);
            let q = regular@.subrange(0, i as int + 1);
            assert forall|t: Seq<char>| has_date(q, t) <==> (t == regular@[i as int].event_date@ || has_date(p, t)) by {
                if has_date(q, t) {
                    let x = choose|x: int| 0 <= x < q.len() && #[trigger] q[x].event_date@ == t;
                    if x < i {
                        assert(p[x] == q[x]);
                    }
                }
                if has_date(p, t) {
                    let x = choose|x: int| 0 <= x < p.len() && #[trigger] p[x].event_date@ == t;
                    assert(q[x] == p[x]);
                }
                if t == regular@[i as int].event_date@ {
                    assert(q[i as int] == regular@[i as int]);
                }
            }
        }
        i = i + 1;
    }
    proof {
        assert(regular@.subrange(0, regular.len() as int) =~= regular@);
    }
    let mut i: usize = 0;
    while i < makeup.len()
        invariant
            i <= makeup.len(),
            strictly_sorted(dates@),
            forall|t: Seq<char>| #[trigger] has_text(dates@, t) <==> (has_date(regular@, t) || has_date(
                makeup@.subrange(0, i as int),
                t,
            )),
        decreases makeup.len() - i,
    {
        insert_date(&mut dates, makeup[i].event_date.as_str());
        proof {
            let p = makeup@.subrange(0, i as int);
            let q = makeup@.subrange(0, i as int + 1);
            assert forall|t: Seq<char>| has_date(q, t) <==> (t == makeup@[i as int].event_date@ || has_date(p, t)) by {
                if has_date(q, t) {
                    let x = choose|x: int| 0 <= x < q.len() && #[trigger] q[x].event_date@ == t;
                    if x < i {
                        assert(p[x] == q[x]);
                    }
                }
                if has_date(p, t) {
                    let x = choose|x: int| 0 <= x < p.len() && #[trigger] p[x].event_date@ == t;
                    assert(q[x] == p[x]);
                }
                if t == makeup@[i as int].event_date@ {
                    assert(q[i as int] == makeup@[i as int]);
                }
            }
        }
        i = i + 1;
    }
    proof {
        assert(makeup@.subrange(0, makeup.len() as int) =~= makeup@);
    }
    let mut days: Vec<CalendarDay> = Vec::new();
    let mut k: usize = 0;
    while k < dates.len()
        invariant
            k <= dates.len(),
            days.len() == k,
            strictly_sorted(dates@),
            forall|t: Seq<char>| #[trigger] has_text(dates@, t) <==> (has_date(regular@, t) || has_date(makeup@, t)),
            forall|x: int| 0 <= x < k ==> (#[trigger] days@[x]).event_date@ == dates@[x]@,
            forall|x: int|
                0 <= x < k ==> (#[trigger] days@[x]).regular_sessions@ == sessions_on(regular@, days@[x].event_date@)
                    && days@[x].makeup_sessions@ == sessions_on(makeup@, days@[x].event_date@) && (
                days@[x].regular_sessions.len() > 0 || days@[x].makeup_sessions.len() > 0),
        decreases dates.len() - k,
    {
        let d = dates[k].as_str();
        let reg = sessions_for(&regular, d);
        let mk = sessions_for(&makeup, d);
        proof {
            let kk = k as int;
            assert(has_text(dates@, dates@[kk]@));
            if has_date(regular@, d@) {
                lemma_sessions_nonempty(regular@, d@);
            } else {
                lemma_sessions_nonempty(makeup@, d@);
            }
        }
        days.push(CalendarDay { event_date: String::from_str(d), regular_sessions: reg, makeup_sessions: mk });
        k = k + 1;
    }
    proof {
        assert forall|a: int, b: int| 0 <= a < b < days.len() implies text_lt(
            #[trigger] days@[a].event_date@,
            #[trigger] days@[b].event_date@,
        ) by {
            assert(text_lt(dates@[a]@, dates@[b]@));
        }
        assert forall|t: Seq<char>| has_date(regular@, t) || has_date(makeup@, t) implies #[trigger] has_day(days@, t) by {
            assert(has_text(dates@, t));
            let x = choose|x: int| 0 <= x < dates@.len() && #[trigger] dates@[x]@ == t;
            assert(days@[x].event_date@ == t);
        }
    }
    CalendarMonth { year_month: String::from_str(year_month), days }
}

// ───────────────────────────── make-up management ─────────────────────────────

/// A student who still owes make-up classes.
pub struct MakeupManagementStudent {
    pub student_id: i64,
    pub student_name: String,
    pub serial_no: String,
    pub remaining_minutes: i64,
    pub earliest_deadline: Option<String>,
    pub is_imminent: bool,
}

/// A deadline is imminent when the study period it names ends between
/// `today` and a week later, both included.
pub open spec fn imminent(end: CivilDate, today: CivilDate) -> bool {
    day_number(today) <= day_number(end) <= day_number(today) + 7
}

/// Whether the earliest make-up deadline is imminent: with no deadline, or
/// no study period for it (`period_end` absent), it is not; otherwise the
/// period's end date must read as `YYYY-MM-DD` and be imminent. An
/// unreadable end date is an error that names it.
pub fn deadline_imminence(has_deadline: bool, period_end: Option<&str>, today: CivilDate) -> (r: Result<bool, String>)
    requires
        today.wf(),
    ensures
        !has_deadline ==> r == Ok::<bool, String>(false),
        has_deadline && period_end is None ==> r == Ok::<bool, String>(false),
        has_deadline ==> (period_end matches Some(s) ==> match crate::civil::chrono_parse_ymd(s@) {
            Ok(t) => r == Ok::<bool, String>(imminent(ymd(t.0, t.1, t.2), today)),
            Err(e) => r matches Err(m) && m@ == "교습기간 종료일 파싱 실패: "@ + e,
        }),
{
    if !has_deadline {
        return Ok(false);
    }
    match period_end {
        None => Ok(false),
        Some(s) => {
            let end = match parse_civil(s) {
                Ok(d) => d,
                Err(e) => {
                    return Err(String::from_str("교습기간 종료일 파싱 실패: ").concat(e.as_str()));
                },
            };
            let t = day_number_exec(today);
            let e = day_number_exec(end);
            Ok(t <= e && e <= t + 7)
        },
    }
}

} // verus!
