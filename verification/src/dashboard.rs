//! Dashboard figures: academic quarters, the academy overview, today's class
//! slots, the monthly summary, the attendance entry progress and the alerts.

use vstd::prelude::*;
use vstd::string::*;
use crate::attendance::{contains_text, day_texts, span_days, texts};
use crate::civil::{
    add_months, civil_add_months, civil_from_ymd, civil_month_text, civil_pred, civil_sub_months,
    civil_succ, civil_text, civil_weekday, date_le, date_le_exec, date_lt, date_lt_exec, date_text,
    iso_weekday, lemma_add_months_wf, lemma_measure_monotone, lemma_next_day, month_text, next_day,
    parse_civil, chrono_parse_ymd, prev_day, ymd, CivilDate, MIN_YEAR,
};
use crate::text::{i64_text, int_text, nat_text, str_eq, str_le, text_le};

verus! {

// ───────────────────────────── shapes ─────────────────────────────

/// A label with a count (distribution by gender, grade or school).
#[derive(Clone, Debug, PartialEq, Eq)]
pub struct LabelCount {
    pub label: String,
    pub count: i64,
}

/// Enrolments and withdrawals of one quarter.
#[derive(Clone, Debug, PartialEq, Eq)]
pub struct QuarterEnrollment {
    pub label: String,
    pub enrolled: i64,
    pub withdrawn: i64,
}

/// The academy overview.
#[derive(Clone, Debug)]
pub struct AcademyOverview {
    pub total_active: i64,
    pub by_gender: Vec<LabelCount>,
    pub by_grade: Vec<LabelCount>,
    pub by_school: Vec<LabelCount>,
    pub quarterly: Vec<QuarterEnrollment>,
}

/// The students starting class at one time.
#[derive(Clone, Debug, PartialEq, Eq)]
pub struct TodaySlot {
    pub start_time: String,
    pub students: Vec<String>,
}

/// Today's classes by start time.
#[derive(Clone, Debug)]
pub struct TodaySchedule {
    pub weekday: u8,
    pub slots: Vec<TodaySlot>,
}

/// The key figures of a month.
#[derive(Clone, Debug)]
pub struct MonthlySummary {
    pub year_month: String,
    pub bill_total: i64,
    pub paid_total: i64,
    pub unpaid_total: i64,
    pub bill_count: i64,
    pub paid_count: i64,
    pub enrolled_this_month: i64,
    pub withdrawn_this_month: i64,
    pub attendance_recorded_days: i64,
}

/// One dashboard alert.
#[derive(Clone, Debug, PartialEq, Eq)]
pub struct DashboardAlert {
    pub kind: String,
    pub severity: String,
    pub message: String,
    pub count: i64,
}

/// How far the attendance entry of a month has come.
#[derive(Clone, Debug)]
pub struct AttendanceProgress {
    pub year_month: String,
    pub expected_days: i64,
    pub recorded_days: i64,
    pub missing_dates: Vec<String>,
}

// ───────────────────────────── quarters ─────────────────────────────

/// First day of the academic quarter of `d`: quarters start on the first of
/// March, June, September and December (January and February belong to the
/// quarter that started in the previous December).
pub open spec fn quarter_start_of(d: CivilDate) -> CivilDate {
    let y = d.year as int;
    let m = d.month as int;
    if 3 <= m <= 5 {
        ymd(y, 3, 1)
    } else if 6 <= m <= 8 {
        ymd(y, 6, 1)
    } else if 9 <= m <= 11 {
        ymd(y, 9, 1)
    } else if m == 12 {
        ymd(y, 12, 1)
    } else {
        ymd(y - 1, 12, 1)
    }
}

/// The academic quarter of a date starts on the 1st of March, June,
/// September or December, on or before the date, and the date falls within
/// the three months that start there.
pub proof fn lemma_quarter_start_contains_date(d: CivilDate)
    requires
        d.wf(),
    ensures
        quarter_start_of(d).day == 1,
        quarter_start_of(d).month == 3 || quarter_start_of(d).month == 6 || quarter_start_of(d).month == 9
            || quarter_start_of(d).month == 12,
        date_le(quarter_start_of(d), d),
        0 <= (d.year * 12 + d.month) - (quarter_start_of(d).year * 12 + quarter_start_of(d).month) <= 2,
{
}

/// First day of the academic quarter of `date`.
pub fn quarter_start(date: CivilDate) -> (r: CivilDate)
    requires
        date.wf(),
        date.month <= 2 ==> date.year > MIN_YEAR,
    ensures
        r == quarter_start_of(date),
        r.wf(),
{
    let y = date.year;
    let m = date.month;
    let (sy, sm): (i32, u32) = if 3 <= m && m <= 5 {
        (y, 3)
    } else if 6 <= m && m <= 8 {
        (y, 6)
    } else if 9 <= m && m <= 11 {
        (y, 9)
    } else if m == 12 {
        (y, 12)
    } else {
        (y - 1, 12)
    };
    match civil_from_ymd(sy, sm, 1) {
        Some(s) => s,
        None => {
            assert(false);
            date
        },
    }
}

/// The quarter number of a quarter's first month: March 1, June 2,
/// September 3, December 4.
pub open spec fn quarter_number(month: int) -> int {
    if month == 3 {
        1
    } else if month == 6 {
        2
    } else if month == 9 {
        3
    } else {
        4
    }
}

/// The quarter number of a quarter's first month is that month divided by
/// three: March is the first quarter, December the fourth.
pub proof fn lemma_quarter_number_of_start(d: CivilDate)
    requires
        d.wf(),
    ensures
        quarter_number(quarter_start_of(d).month as int) == quarter_start_of(d).month / 3,
        1 <= quarter_number(quarter_start_of(d).month as int) <= 4,
{
    lemma_quarter_start_contains_date(d);
}

/// Label of a quarter, e.g. `2026 2분기`.
pub open spec fn quarter_label_text(start: CivilDate) -> Seq<char> {
    int_text(start.year as int) + " "@ + nat_text(quarter_number(start.month as int) as nat)
        + "분기"@
}

/// Label of the quarter starting on `start`.
pub fn quarter_label(start: CivilDate) -> (r: String)
    ensures
        r@ == quarter_label_text(start),
{
    let q: i64 = if start.month == 3 {
        1
    } else if start.month == 6 {
        2
    } else if start.month == 9 {
        3
    } else {
        4
    };
    let y = i64_text(start.year as i64);
    let qt = i64_text(q);
    let out = y.concat(" ");
    let out = out.concat(qt.as_str());
    out.concat("분기")
}

/// The quarter `back` quarters before the one starting on `cur`: its first
/// and last day.
pub open spec fn quarter_range(cur: CivilDate, back: int) -> Option<(CivilDate, CivilDate)> {
    match add_months(cur, -3 * back) {
        None => None,
        Some(s) => match add_months(s, 3) {
            None => None,
            Some(n) => if n.is_min() {
                None
            } else {
                Some((s, prev_day(n)))
            },
        },
    }
}

/// The last four quarters up to the one of `today` lie within `chrono`'s
/// range.
pub open spec fn recent_quarters_in_range(today: CivilDate) -> bool {
    &&& today.month <= 2 ==> today.year > MIN_YEAR
    &&& forall|back: int| 0 <= back < 4 ==> #[trigger] quarter_range(quarter_start_of(today), back) is Some
}

/// The last four quarters up to the one of `today`, oldest first, as
/// `(label, first day, last day)`.
pub fn recent_quarters(today: CivilDate) -> (r: Vec<(String, CivilDate, CivilDate)>)
    requires
        today.wf(),
        recent_quarters_in_range(today),
    ensures
        r@.len() == 4,
        forall|i: int|
            0 <= i < 4 ==> ((#[trigger] quarter_range(quarter_start_of(today), 3 - i)) matches Some(q)
                && r@[i].1 == q.0 && r@[i].2 == q.1 && r@[i].0@ == quarter_label_text(q.0)),
{
    let current = quarter_start(today);
    let mut out: Vec<(String, CivilDate, CivilDate)> = Vec::new();
    let mut i: u32 = 0;
    while i < 4
        invariant
            i <= 4,
            current == quarter_start_of(today),
            current.wf(),
            recent_quarters_in_range(today),
            out@.len() == i,
            forall|k: int|
                0 <= k < i ==> ((#[trigger] quarter_range(quarter_start_of(today), 3 - k)) matches Some(q)
                    && out@[k].1 == q.0 && out@[k].2 == q.1 && out@[k].0@ == quarter_label_text(q.0)),
        decreases 4 - i,
    {
        let back = 3 - i;
        assert(quarter_range(current, back as int) is Some);
        proof {
            lemma_add_months_wf(current, -3 * back);
        }
        let s = match civil_sub_months(current, 3 * back) {
            Some(s) => s,
            None => {
                assert(false);
                return out;
            },
        };
        proof {
            lemma_add_months_wf(s, 3);
        }
        let n = match civil_add_months(s, 3) {
            Some(n) => n,
            None => {
                assert(false);
                return out;
            },
        };
        let e = match civil_pred(n) {
            Some(e) => e,
            None => {
                assert(false);
                return out;
            },
        };
        out.push((quarter_label(s), s, e));
        i = i + 1;
    }
    out
}

// ───────────────────────────── overview ─────────────────────────────

/// Label of a gender code: `남` for `male`, `여` otherwise.
pub open spec fn gender_label_text(g: Seq<char>) -> Seq<char> {
    if g == "male"@ { "남"@ } else { "여"@ }
}

/// Label of a school grade: `초` for elementary school, `중` otherwise,
/// followed by the grade.
pub open spec fn grade_label_text(level: Seq<char>, grade: int) -> Seq<char> {
    (if level == "elementary"@ { "초"@ } else { "중"@ }) + int_text(grade)
}

pub open spec fn label_view(l: LabelCount) -> (Seq<char>, i64) {
    (l.label@, l.count)
}

/// Gender distribution from `(gender code, count)` rows.
pub fn gender_distribution(rows: &Vec<(String, i64)>) -> (r: Vec<LabelCount>)
    ensures
        r@.map_values(|l: LabelCount| label_view(l)) == rows@.map_values(
            |x: (String, i64)| (gender_label_text(x.0@), x.1),
        ),
{
    let mut out: Vec<LabelCount> = Vec::new();
    let mut i: usize = 0;
    while i < rows.len()
        invariant
            i <= rows.len(),
            out@.map_values(|l: LabelCount| label_view(l)) == rows@.subrange(0, i as int).map_values(
                |x: (String, i64)| (gender_label_text(x.0@), x.1),
            ),
        decreases rows.len() - i,
    {
        let row = &rows[i];
        let label = if str_eq(row.0.as_str(), "male") {
            String::from_str("남")
        } else {
            String::from_str("여")
        };
        let ghost before = out@;
        let item = LabelCount { label, count: row.1 };
        assert(label_view(item) == (gender_label_text(row.0@), row.1));
        out.push(item);
        assert(rows@.subrange(0, i + 1) =~= rows@.subrange(0, i as int).push(*row));
        assert(out@.map_values(|l: LabelCount| label_view(l)) =~= before.map_values(
            |l: LabelCount| label_view(l),
        ).push(label_view(item)));
        assert(rows@.subrange(0, i as int).push(*row).map_values(
            |x: (String, i64)| (gender_label_text(x.0@), x.1),
        ) =~= rows@.subrange(0, i as int).map_values(
            |x: (String, i64)| (gender_label_text(x.0@), x.1),
        ).push((gender_label_text(row.0@), row.1)));
        i = i + 1;
    }
    assert(rows@.subrange(0, rows.len() as int) =~= rows@);
    out
}

/// Grade distribution from `(school level, grade, count)` rows.
pub fn grade_distribution(rows: &Vec<(String, i64, i64)>) -> (r: Vec<LabelCount>)
    ensures
        r@.map_values(|l: LabelCount| label_view(l)) == rows@.map_values(
            |x: (String, i64, i64)| (grade_label_text(x.0@, x.1 as int), x.2),
        ),
{
    let mut out: Vec<LabelCount> = Vec::new();
    let mut i: usize = 0;
    while i < rows.len()
        invariant
            i <= rows.len(),
            out@.map_values(|l: LabelCount| label_view(l)) == rows@.subrange(0, i as int).map_values(
                |x: (String, i64, i64)| (grade_label_text(x.0@, x.1 as int), x.2),
            ),
        decreases rows.len() - i,
    {
        let row = &rows[i];
        let prefix = if str_eq(row.0.as_str(), "elementary") {
            String::from_str("초")
        } else {
            String::from_str("중")
        };
        let g = i64_text(row.1);
        let label = prefix.concat(g.as_str());
        let ghost before = out@;
        let item = LabelCount { label, count: row.2 };
        assert(label_view(item) == (grade_label_text(row.0@, row.1 as int), row.2));
        out.push(item);
        assert(rows@.subrange(0, i + 1) =~= rows@.subrange(0, i as int).push(*row));
        assert(out@.map_values(|l: LabelCount| label_view(l)) =~= before.map_values(
            |l: LabelCount| label_view(l),
        ).push(label_view(item)));
        assert(rows@.subrange(0, i as int).push(*row).map_values(
            |x: (String, i64, i64)| (grade_label_text(x.0@, x.1 as int), x.2),
        ) =~= rows@.subrange(0, i as int).map_values(
            |x: (String, i64, i64)| (grade_label_text(x.0@, x.1 as int), x.2),
        ).push((grade_label_text(row.0@, row.1 as int), row.2)));
        i = i + 1;
    }
    assert(rows@.subrange(0, rows.len() as int) =~= rows@);
    out
}

/// Number of days `ds` with `from <= d <= to` (text order).
pub open spec fn count_between(ds: Seq<Option<String>>, from: Seq<char>, to: Seq<char>) -> int
    decreases ds.len(),
{
    if ds.len() == 0 {
        0
    } else {
        count_between(ds.drop_last(), from, to) + match ds.last() {
            Some(d) => if text_le(from, d@) && text_le(d@, to) {
                1int
            } else {
                0int
            },
            None => 0int,
        }
    }
}

proof fn lemma_count_between_bound(ds: Seq<Option<String>>, from: Seq<char>, to: Seq<char>)
    ensures
        0 <= count_between(ds, from, to) <= ds.len(),
    decreases ds.len(),
{
    if ds.len() > 0 {
        lemma_count_between_bound(ds.drop_last(), from, to);
    }
}

fn count_between_exec(ds: &Vec<Option<String>>, from: &str, to: &str) -> (r: i64)
    requires
        ds@.len() <= i64::MAX,
    ensures
        r == count_between(ds@, from@, to@),
{
    let mut n: i64 = 0;
    let mut i: usize = 0;
    while i < ds.len()
        invariant
            i <= ds.len(),
            ds@.len() <= i64::MAX,
            n == count_between(ds@.subrange(0, i as int), from@, to@),
        decreases ds.len() - i,
    {
        proof {
            assert(ds@.subrange(0, i + 1).drop_last() =~= ds@.subrange(0, i as int));
            lemma_count_between_bound(ds@.subrange(0, i as int), from@, to@);
        }
        match &ds[i] {
            Some(d) => {
                if str_le(from, d.as_str()) && str_le(d.as_str(), to) {
                    n = n + 1;
                }
            },
            None => {},
        }
        i = i + 1;
    }
    assert(ds@.subrange(0, ds.len() as int) =~= ds@);
    n
}

/// Enrolments and withdrawals in each quarter `(label, first day, last day)`:
/// the students whose enrolment (withdrawal) day lies between the quarter's
/// first and last day, compared as `YYYY-MM-DD` texts.
pub fn quarterly_enrollments(
    quarters: &Vec<(String, CivilDate, CivilDate)>,
    enroll_dates: &Vec<Option<String>>,
    withdraw_dates: &Vec<Option<String>>,
) -> (r: Vec<QuarterEnrollment>)
    requires
        enroll_dates@.len() <= i64::MAX,
        withdraw_dates@.len() <= i64::MAX,
        forall|i: int| 0 <= i < quarters@.len() ==> (#[trigger] quarters@[i]).1.wf() && quarters@[i].2.wf(),
    ensures
        r@.len() == quarters@.len(),
        forall|i: int|
            0 <= i < quarters@.len() ==> (#[trigger] r@[i]).label == quarters@[i].0 && r@[i].enrolled
                == count_between(enroll_dates@, date_text(quarters@[i].1), date_text(quarters@[i].2))
                && r@[i].withdrawn == count_between(
                withdraw_dates@,
                date_text(quarters@[i].1),
                date_text(quarters@[i].2),
            ),
{
    let mut out: Vec<QuarterEnrollment> = Vec::new();
    let mut i: usize = 0;
    while i < quarters.len()
        invariant
            i <= quarters.len(),
            enroll_dates@.len() <= i64::MAX,
            withdraw_dates@.len() <= i64::MAX,
            forall|k: int| 0 <= k < quarters@.len() ==> (#[trigger] quarters@[k]).1.wf() && quarters@[k].2.wf(),
            out@.len() == i,
            forall|k: int|
                0 <= k < i ==> (#[trigger] out@[k]).label == quarters@[k].0 && out@[k].enrolled
                    == count_between(enroll_dates@, date_text(quarters@[k].1), date_text(quarters@[k].2))
                    && out@[k].withdrawn == count_between(
                    withdraw_dates@,
                    date_text(quarters@[k].1),
                    date_text(quarters@[k].2),
                ),
        decreases quarters.len() - i,
    {
        let q = &quarters[i];
        let s = civil_text(q.1);
        let e = civil_text(q.2);
        let enrolled = count_between_exec(enroll_dates, s.as_str(), e.as_str());
        let withdrawn = count_between_exec(withdraw_dates, s.as_str(), e.as_str());
        out.push(QuarterEnrollment { label: q.0.clone(), enrolled, withdrawn });
        i = i + 1;
    }
    out
}

// ───────────────────────────── today ─────────────────────────────

/// Rows `(start time, name)` grouped into runs of one start time, in order.
pub open spec fn group_slots(rows: Seq<(Seq<char>, Seq<char>)>) -> Seq<(Seq<char>, Seq<Seq<char>>)>
    decreases rows.len(),
{
    if rows.len() == 0 {
        Seq::empty()
    } else {
        let g = group_slots(rows.drop_last());
        let t = rows.last().0;
        let n = rows.last().1;
        if g.len() > 0 && g.last().0 == t {
            g.update(g.len() - 1, (t, g.last().1.push(n)))
        } else {
            g.push((t, seq![n]))
        }
    }
}

pub open spec fn slot_view(s: TodaySlot) -> (Seq<char>, Seq<Seq<char>>) {
    (s.start_time@, texts(s.students@))
}

pub open spec fn row_pairs(rows: Seq<(String, String)>) -> Seq<(Seq<char>, Seq<char>)> {
    rows.map_values(|r: (String, String)| (r.0@, r.1@))
}

/// Today's class slots: the rows `(start time, name)` (ordered by start
/// time) grouped by start time, names in row order.
pub fn today_slots(rows: &Vec<(String, String)>) -> (r: Vec<TodaySlot>)
    ensures
        r@.map_values(|s: TodaySlot| slot_view(s)) == group_slots(row_pairs(rows@)),
{
    let mut out: Vec<TodaySlot> = Vec::new();
    let mut cur: Option<(String, Vec<String>)> = None;
    let mut i: usize = 0;
    while i < rows.len()
        invariant
            i <= rows.len(),
            ({
                let done = out@.map_values(|s: TodaySlot| slot_view(s));
                let g = group_slots(row_pairs(rows@.subrange(0, i as int)));
                match cur {
                    None => i == 0 && done.len() == 0 && g.len() == 0,
                    Some((t, names)) => g == done.push((t@, texts(names@))),
                }
            }),
        decreases rows.len() - i,
    {
        let (t, n) = &rows[i];
        let ghost prev_done = out@.map_values(|s: TodaySlot| slot_view(s));
        proof {
            assert(row_pairs(rows@.subrange(0, i + 1)).drop_last() =~= row_pairs(
                rows@.subrange(0, i as int),
            ));
            assert(row_pairs(rows@.subrange(0, i + 1)).last() == (t@, n@));
        }
        match cur {
            None => {
                let mut names: Vec<String> = Vec::new();
                names.push(n.clone());
                assert(texts(names@) =~= seq![n@]);
                cur = Some((t.clone(), names));
            },
            Some((ct, mut names)) => {
                if str_eq(ct.as_str(), t.as_str()) {
                    let ghost before = texts(names@);
                    names.push(n.clone());
                    assert(texts(names@) =~= before.push(n@));
                    cur = Some((ct, names));
                } else {
                    let ghost finished = (ct@, texts(names@));
                    out.push(TodaySlot { start_time: ct, students: names });
                    assert(out@.map_values(|s: TodaySlot| slot_view(s)) =~= prev_done.push(finished));
                    let mut fresh: Vec<String> = Vec::new();
                    fresh.push(n.clone());
                    assert(texts(fresh@) =~= seq![n@]);
                    cur = Some((t.clone(), fresh));
                }
            },
        }
        i = i + 1;
    }
    assert(rows@.subrange(0, rows.len() as int) =~= rows@);
    match cur {
        None => {},
        Some((ct, names)) => {
            let ghost before = out@.map_values(|s: TodaySlot| slot_view(s));
            let ghost last = (ct@, texts(names@));
            out.push(TodaySlot { start_time: ct, students: names });
            assert(out@.map_values(|s: TodaySlot| slot_view(s)) =~= before.push(last));
        },
    }
    out
}

pub open spec fn flatten_names(g: Seq<(Seq<char>, Seq<Seq<char>>)>) -> Seq<Seq<char>>
    decreases g.len(),
{
    if g.len() == 0 {
        Seq::empty()
    } else {
        flatten_names(g.drop_last()) + g.last().1
    }
}

/// Grouping loses no student and keeps their order; every slot holds
/// someone, and two neighbouring slots never share a start time.
pub proof fn lemma_slots_partition_rows(rows: Seq<(Seq<char>, Seq<char>)>)
    ensures
        flatten_names(group_slots(rows)) == rows.map_values(|r: (Seq<char>, Seq<char>)| r.1),
        forall|i: int|
            0 <= i < group_slots(rows).len() ==> (#[trigger] group_slots(rows)[i]).1.len() > 0,
        forall|i: int|
            0 <= i < group_slots(rows).len() - 1 ==> (#[trigger] group_slots(rows)[i]).0
                != group_slots(rows)[i + 1].0,
    decreases rows.len(),
{
    if rows.len() > 0 {
        let pre = rows.drop_last();
        lemma_slots_partition_rows(pre);
        let g = group_slots(pre);
        let t = rows.last().0;
        let n = rows.last().1;
        assert(rows.map_values(|r: (Seq<char>, Seq<char>)| r.1) =~= pre.map_values(
            |r: (Seq<char>, Seq<char>)| r.1,
        ).push(n));
        if g.len() > 0 && g.last().0 == t {
            let g2 = g.update(g.len() - 1, (t, g.last().1.push(n)));
            assert(g2.drop_last() =~= g.drop_last());
            assert(flatten_names(g) == flatten_names(g.drop_last()) + g.last().1);
            assert(flatten_names(g2) =~= flatten_names(g) + seq![n]);
        } else {
            let g2 = g.push((t, seq![n]));
            assert(g2.drop_last() =~= g);
            assert(flatten_names(g2) =~= flatten_names(g) + seq![n]);
        }
        assert(flatten_names(g) + seq![n] =~= flatten_names(g).push(n));
    } else {
        assert(rows.map_values(|r: (Seq<char>, Seq<char>)| r.1) =~= Seq::<Seq<char>>::empty());
    }
}

// ───────────────────────────── monthly summary ─────────────────────────────

/// The first seven characters of a text, or the whole text when shorter
/// (SQLite's `substr(x, 1, 7)`).
pub open spec fn prefix7(s: Seq<char>) -> Seq<char> {
    if s.len() >= 7 { s.subrange(0, 7) } else { s }
}

/// Number of days whose `YYYY-MM` prefix is `ym`.
pub open spec fn count_in_month(ds: Seq<Option<String>>, ym: Seq<char>) -> int
    decreases ds.len(),
{
    if ds.len() == 0 {
        0
    } else {
        count_in_month(ds.drop_last(), ym) + match ds.last() {
            Some(d) => if prefix7(d@) == ym {
                1int
            } else {
                0int
            },
            None => 0int,
        }
    }
}

proof fn lemma_count_in_month_bound(ds: Seq<Option<String>>, ym: Seq<char>)
    ensures
        0 <= count_in_month(ds, ym) <= ds.len(),
    decreases ds.len(),
{
    if ds.len() > 0 {
        lemma_count_in_month_bound(ds.drop_last(), ym);
    }
}

/// Number of days (enrolment or withdrawal days of students) that fall in
/// month `ym`, by their first seven characters.
pub fn count_in_month_exec(ds: &Vec<Option<String>>, ym: &str) -> (r: i64)
    requires
        ds@.len() <= i64::MAX,
    ensures
        r == count_in_month(ds@, ym@),
{
    let mut n: i64 = 0;
    let mut i: usize = 0;
    while i < ds.len()
        invariant
            i <= ds.len(),
            ds@.len() <= i64::MAX,
            n == count_in_month(ds@.subrange(0, i as int), ym@),
        decreases ds.len() - i,
    {
        proof {
            assert(ds@.subrange(0, i + 1).drop_last() =~= ds@.subrange(0, i as int));
            lemma_count_in_month_bound(ds@.subrange(0, i as int), ym@);
        }
        match &ds[i] {
            Some(d) => {
                let len = d.as_str().unicode_len();
                let head = if len >= 7 {
                    d.as_str().substring_char(0, 7)
                } else {
                    d.as_str()
                };
                if str_eq(head, ym) {
                    n = n + 1;
                }
            },
            None => {},
        }
        i = i + 1;
    }
    assert(ds@.subrange(0, ds.len() as int) =~= ds@);
    n
}

/// The key figures of a month from its billing totals and counts; the
/// unpaid total is the billed total less the paid one.
pub fn monthly_summary(
    year_month: &str,
    bill_total: i64,
    paid_total: i64,
    bill_count: i64,
    paid_count: i64,
    enrolled_this_month: i64,
    withdrawn_this_month: i64,
    attendance_recorded_days: i64,
) -> (r: MonthlySummary)
    requires
        i64::MIN <= bill_total - paid_total <= i64::MAX,
    ensures
        r.year_month@ == year_month@,
        r.bill_total == bill_total,
        r.paid_total == paid_total,
        r.unpaid_total == bill_total - paid_total,
        r.bill_count == bill_count,
        r.paid_count == paid_count,
        r.enrolled_this_month == enrolled_this_month,
        r.withdrawn_this_month == withdrawn_this_month,
        r.attendance_recorded_days == attendance_recorded_days,
{
    MonthlySummary {
        year_month: String::from_str(year_month),
        bill_total,
        paid_total,
        unpaid_total: bill_total - paid_total,
        bill_count,
        paid_count,
        enrolled_this_month,
        withdrawn_this_month,
        attendance_recorded_days,
    }
}

} // verus!

verus! {

// ───────────────────────────── attendance progress ─────────────────────────────

/// The last day of the month written `ym`, as `chrono` computes it from
/// `ym-01`: one month later, one day back.
pub open spec fn last_day_outcome(ym: Seq<char>) -> Result<CivilDate, Seq<char>> {
    match chrono_parse_ymd(ym + "-01"@) {
        Err(e) => Err("year_month 파싱 실패: "@ + e),
        Ok(t) => match add_months(ymd(t.0, t.1, t.2), 1) {
            None => Err("월 계산 실패"@),
            Some(n) => if n.is_min() {
                Err("말일 계산 실패"@)
            } else {
                Ok(prev_day(n))
            },
        },
    }
}

/// Last day of the month written `ym` (see `last_day_outcome`).
pub fn last_day_of_month(ym: &str) -> (r: Result<CivilDate, String>)
    ensures
        match last_day_outcome(ym@) {
            Ok(d) => r == Ok::<CivilDate, String>(d) && d.wf(),
            Err(e) => r matches Err(x) && x@ == e,
        },
{
    let text = String::from_str(ym);
    let text = text.concat("-01");
    let first = match parse_civil(text.as_str()) {
        Ok(f) => f,
        Err(e) => {
            let m = String::from_str("year_month 파싱 실패: ");
            return Err(m.concat(e.as_str()));
        },
    };
    proof {
        lemma_add_months_wf(first, 1);
    }
    let next = match civil_add_months(first, 1) {
        Some(n) => n,
        None => {
            return Err(String::from_str("월 계산 실패"));
        },
    };
    match civil_pred(next) {
        Some(l) => {
            proof {
                crate::civil::lemma_prev_day(next);
            }
            Ok(l)
        },
        None => Err(String::from_str("말일 계산 실패")),
    }
}

/// The weekday `iso` is one of the class weekdays (each read as `u32`).
pub open spec fn is_class_weekday(weekdays: Seq<i64>, iso: int) -> bool {
    exists|k: int| 0 <= k < weekdays.len() && (#[trigger] weekdays[k] as u32) as int == iso
}

/// Class days among `days` (by weekday), and the texts of those without any
/// recorded attendance, in order.
pub open spec fn progress_of(days: Seq<CivilDate>, weekdays: Seq<i64>, recorded: Seq<Seq<char>>) -> (
    int,
    Seq<Seq<char>>,
)
    decreases days.len(),
{
    if days.len() == 0 {
        (0, Seq::empty())
    } else {
        let (n, miss) = progress_of(days.drop_last(), weekdays, recorded);
        let d = days.last();
        if is_class_weekday(weekdays, iso_weekday(d)) {
            if recorded.contains(date_text(d)) {
                (n + 1, miss)
            } else {
                (n + 1, miss.push(date_text(d)))
            }
        } else {
            (n, miss)
        }
    }
}

/// The earlier of two days.
pub open spec fn earlier_day(a: CivilDate, b: CivilDate) -> CivilDate {
    if date_le(a, b) { a } else { b }
}

/// The days counted for the progress of month `ym` up to `today`: from the
/// first of the month to the earlier of `today` and its last day.
pub open spec fn progress_outcome(ym: Seq<char>, today: CivilDate, weekdays: Seq<i64>, recorded: Seq<Seq<char>>) -> Result<
    (int, Seq<Seq<char>>),
    Seq<char>,
> {
    match chrono_parse_ymd(ym + "-01"@) {
        Err(e) => Err("year_month 파싱 실패: "@ + e),
        Ok(t) => match last_day_outcome(ym) {
            Err(e) => Err(e),
            Ok(end) => Ok(progress_of(span_days(ymd(t.0, t.1, t.2), earlier_day(today, end)), weekdays, recorded)),
        },
    }
}

fn class_weekday_exec(weekdays: &Vec<i64>, iso: u32) -> (r: bool)
    ensures
        r == is_class_weekday(weekdays@, iso as int),
{
    let mut i: usize = 0;
    while i < weekdays.len()
        invariant
            i <= weekdays.len(),
            forall|k: int| 0 <= k < i ==> (#[trigger] weekdays@[k] as u32) as int != iso,
        decreases weekdays.len() - i,
    {
        if weekdays[i] as u32 == iso {
            return true;
        }
        i = i + 1;
    }
    false
}

proof fn lemma_progress_bound(days: Seq<CivilDate>, weekdays: Seq<i64>, recorded: Seq<Seq<char>>)
    ensures
        0 <= progress_of(days, weekdays, recorded).1.len() <= progress_of(days, weekdays, recorded).0
            <= days.len(),
    decreases days.len(),
{
    if days.len() > 0 {
        lemma_progress_bound(days.drop_last(), weekdays, recorded);
    }
}

proof fn lemma_span_step(d: CivilDate, end: CivilDate)
    requires
        d.wf(),
        end.wf(),
        date_lt(d, end),
        !end.is_max(),
    ensures
        span_days(d, end) == seq![d] + span_days(next_day(d), end),
{
}

/// The progress of a span is the progress of its first day followed by the
/// progress of the rest.
proof fn lemma_progress_prepend(d: CivilDate, rest: Seq<CivilDate>, weekdays: Seq<i64>, recorded: Seq<Seq<char>>)
    ensures
        ({
            let (n, miss) = progress_of(rest, weekdays, recorded);
            let (n1, miss1) = progress_of(seq![d], weekdays, recorded);
            progress_of(seq![d] + rest, weekdays, recorded) == (n1 + n, miss1 + miss)
        }),
    decreases rest.len(),
{
    if rest.len() == 0 {
        assert(seq![d] + rest =~= seq![d]);
        assert(progress_of(seq![d], weekdays, recorded).1 + Seq::<Seq<char>>::empty() =~= progress_of(seq![d], weekdays, recorded).1);
    } else {
        lemma_progress_prepend(d, rest.drop_last(), weekdays, recorded);
        assert((seq![d] + rest).drop_last() =~= seq![d] + rest.drop_last());
        assert((seq![d] + rest).last() == rest.last());
        let (n0, m0) = progress_of(rest.drop_last(), weekdays, recorded);
        let (n1, m1) = progress_of(seq![d], weekdays, recorded);
        assert((m1 + m0).push(date_text(rest.last())) =~= m1 + m0.push(date_text(rest.last())));
    }
}

/// One step of the progress over a span: the first day, then the rest.
proof fn lemma_progress_step(d: CivilDate, upper: CivilDate, weekdays: Seq<i64>, recorded: Seq<Seq<char>>)
    requires
        d.wf(),
        upper.wf(),
        date_le(d, upper),
        !upper.is_max(),
    ensures
        ({
            let (n0, m0) = progress_of(span_days(next_day(d), upper), weekdays, recorded);
            let (n1, m1) = progress_of(seq![d], weekdays, recorded);
            progress_of(span_days(d, upper), weekdays, recorded) == (n1 + n0, m1 + m0)
        }),
{
    lemma_next_day(d);
    if date_lt(d, upper) {
        lemma_span_step(d, upper);
    } else {
        assert(d == upper);
        assert(span_days(d, upper) =~= seq![d]);
        assert(!date_le(next_day(d), upper));
        assert(span_days(next_day(d), upper) =~= Seq::<CivilDate>::empty());
        assert(seq![d] + Seq::<CivilDate>::empty() =~= seq![d]);
    }
    lemma_progress_prepend(d, span_days(next_day(d), upper), weekdays, recorded);
}

/// The progress of one day.
proof fn lemma_progress_one(d: CivilDate, weekdays: Seq<i64>, recorded: Seq<Seq<char>>)
    ensures
        progress_of(seq![d], weekdays, recorded) == (if is_class_weekday(weekdays, iso_weekday(d)) {
            if recorded.contains(date_text(d)) {
                (1int, Seq::<Seq<char>>::empty())
            } else {
                (1int, seq![date_text(d)])
            }
        } else {
            (0int, Seq::<Seq<char>>::empty())
        }),
{
    assert(seq![d].drop_last() =~= Seq::<CivilDate>::empty());
    assert(seq![d].last() == d);
    assert(progress_of(Seq::<CivilDate>::empty(), weekdays, recorded) == (0int, Seq::<Seq<char>>::empty()));
    assert(Seq::<Seq<char>>::empty().push(date_text(d)) =~= seq![date_text(d)]);
}

fn progress_span(first: CivilDate, upper: CivilDate, weekdays: &Vec<i64>, recorded: &Vec<String>) -> (r: (i64, Vec<String>))
    requires
        first.wf(),
        upper.wf(),
        !upper.is_max(),
    ensures
        r.0 == progress_of(span_days(first, upper), weekdays@, texts(recorded@)).0,
        texts(r.1@) == progress_of(span_days(first, upper), weekdays@, texts(recorded@)).1,
{
    let ghost rec = texts(recorded@);
    let mut expected: i64 = 0;
    let mut missing: Vec<String> = Vec::new();
    assert(texts(missing@) =~= Seq::<Seq<char>>::empty());
    if !date_le_exec(first, upper) {
        return (expected, missing);
    }
    let mut d = first;
    proof {
        lemma_next_day(upper);
    }
    while date_le_exec(d, upper)
        invariant
            d.wf(),
            upper.wf(),
            first.wf(),
            !upper.is_max(),
            date_le(d, upper) || d == next_day(upper),
            date_le(first, d),
            rec == texts(recorded@),
            progress_of(span_days(first, upper), weekdays@, rec).0 == expected + progress_of(
                span_days(d, upper),
                weekdays@,
                rec,
            ).0,
            progress_of(span_days(first, upper), weekdays@, rec).1 == texts(missing@)
                + progress_of(span_days(d, upper), weekdays@, rec).1,
            0 <= expected <= crate::civil::date_measure(d) - crate::civil::date_measure(first),
            crate::civil::date_measure(next_day(upper)) > crate::civil::date_measure(upper),
        decreases crate::civil::date_measure(next_day(upper)) - crate::civil::date_measure(d),
    {
        proof {
            lemma_measure_monotone(first, d);
            lemma_measure_monotone(d, upper);
            lemma_progress_one(d, weekdays@, rec);
            lemma_progress_step(d, upper, weekdays@, rec);
            lemma_next_day(d);
        }
        let iso = civil_weekday(d);
        let ghost before = texts(missing@);
        let ghost one = progress_of(seq![d], weekdays@, rec);
        let is_class = class_weekday_exec(weekdays, iso);
        if is_class {
            expected = expected + 1;
            let ds = civil_text(d);
            if !contains_text(recorded, ds.as_str()) {
                missing.push(ds);
                assert(texts(missing@) =~= before.push(date_text(d)));
            } else {
                assert(texts(missing@) =~= before);
            }
        }
        proof {
            assert(texts(missing@) =~= before + one.1);
            let m0 = progress_of(span_days(next_day(d), upper), weekdays@, rec).1;
            assert(before + (one.1 + m0) =~= (before + one.1) + m0);
            if date_lt(d, upper) {
                lemma_measure_monotone(next_day(d), upper);
            }
        }
        d = match civil_succ(d) {
            Some(n) => n,
            None => {
                assert(false);
                d
            },
        };
    }
    proof {
        assert(!date_le(d, upper));
        assert(span_days(d, upper) =~= Seq::<CivilDate>::empty());
        assert(texts(missing@) + Seq::<Seq<char>>::empty() =~= texts(missing@));
    }
    (expected, missing)
}

proof fn lemma_progress_bound_top(days: Seq<CivilDate>, weekdays: Seq<i64>, recorded: Seq<Seq<char>>)
    ensures
        progress_of(days, weekdays, recorded).1.len() <= progress_of(days, weekdays, recorded).0,
{
    lemma_progress_bound(days, weekdays, recorded);
}

/// How far the attendance entry of month `ym` has come by `today`: the class
/// days (by the current class weekdays) from the first of the month to the
/// earlier of `today` and its last day, and those of them without any
/// recorded attendance.
pub fn attendance_progress(ym: &str, today: CivilDate, class_weekdays: &Vec<i64>, recorded: &Vec<String>) -> (r: Result<
    AttendanceProgress,
    String,
>)
    requires
        today.wf(),
    ensures
        match progress_outcome(ym@, today, class_weekdays@, texts(recorded@)) {
            Ok((n, miss)) => r matches Ok(p) && p.year_month@ == ym@ && p.expected_days == n
                && texts(p.missing_dates@) == miss && p.recorded_days == n - miss.len(),
            Err(e) => r matches Err(x) && x@ == e,
        },
{
    let text = String::from_str(ym);
    let text = text.concat("-01");
    let first = match parse_civil(text.as_str()) {
        Ok(f) => f,
        Err(e) => {
            let m = String::from_str("year_month 파싱 실패: ");
            return Err(m.concat(e.as_str()));
        },
    };
    let month_end = last_day_of_month(ym)?;
    let upper = if date_le_exec(today, month_end) { today } else { month_end };
    proof {
        let n = add_months(first, 1).unwrap();
        lemma_add_months_wf(first, 1);
        crate::civil::lemma_prev_day(n);
        lemma_measure_monotone(upper, month_end);
        lemma_measure_monotone(month_end, n);
    }
    let (expected, missing) = progress_span(first, upper, class_weekdays, recorded);
    proof {
        lemma_progress_bound_top(span_days(first, upper), class_weekdays@, texts(recorded@));
    }
    let recorded_days = expected - missing.len() as i64;
    Ok(AttendanceProgress {
        year_month: String::from_str(ym),
        expected_days: expected,
        recorded_days,
        missing_dates: missing,
    })
}

// ───────────────────────────── alerts ─────────────────────────────

/// The month checked for a teaching period from the 25th on: the month after
/// `today` (the month of `today` when there is none), as `YYYY-MM`.
pub fn alert_next_month(today: CivilDate) -> (r: Option<String>)
    requires
        today.wf(),
    ensures
        today.day < 25 ==> r is None,
        today.day >= 25 ==> (r matches Some(m) && m@ == month_text(match add_months(today, 1) {
            Some(n) => n,
            None => today,
        })),
{
    if today.day < 25 {
        return None;
    }
    proof {
        lemma_add_months_wf(today, 1);
    }
    let n = match civil_add_months(today, 1) {
        Some(n) => n,
        None => today,
    };
    Some(civil_month_text(n))
}

pub open spec fn opt_month_view(o: Option<String>) -> Option<Seq<char>> {
    match o {
        Some(m) => Some(m@),
        None => None,
    }
}

pub open spec fn alert_view(a: DashboardAlert) -> (Seq<char>, Seq<char>, Seq<char>, i64) {
    (a.kind@, a.severity@, a.message@, a.count)
}

/// The dashboard alerts, in this order: missing attendance entries (red),
/// absences whose make-up expires this month (orange), unconfirmed bills
/// (orange), no teaching period for next month after the 25th (red), issues
/// found by the latest self-diagnosis (orange). Each appears only when it has
/// something to report.
pub open spec fn alerts_spec(
    missing: i64,
    expiring: i64,
    draft: i64,
    next_month: Option<Seq<char>>,
    next_period_count: i64,
    latest_issues: Option<i64>,
) -> Seq<(Seq<char>, Seq<char>, Seq<char>, i64)> {
    let a1: Seq<(Seq<char>, Seq<char>, Seq<char>, i64)> = if missing > 0 {
        seq![("attendance_missing"@, "red"@, "출결 미입력 일자가 "@ + int_text(missing as int) + "일 있습니다."@, missing)]
    } else {
        Seq::empty()
    };
    let a2: Seq<(Seq<char>, Seq<char>, Seq<char>, i64)> = if expiring > 0 {
        seq![("makeup_expiring"@, "orange"@, "이번 달 보강 소멸 예정 결석이 "@ + int_text(expiring as int) + "건 있습니다."@, expiring)]
    } else {
        Seq::empty()
    };
    let a3: Seq<(Seq<char>, Seq<char>, Seq<char>, i64)> = if draft > 0 {
        seq![("draft_bills"@, "orange"@, "미확정 청구가 "@ + int_text(draft as int) + "건 있습니다."@, draft)]
    } else {
        Seq::empty()
    };
    let a4: Seq<(Seq<char>, Seq<char>, Seq<char>, i64)> = match next_month {
        Some(nm) => if next_period_count == 0 {
            seq![("academic_not_set"@, "red"@, "다음 달("@ + nm + ") 교습기간이 아직 수립되지 않았습니다."@, 1i64)]
        } else {
            Seq::empty()
        },
        None => Seq::empty(),
    };
    let a5: Seq<(Seq<char>, Seq<char>, Seq<char>, i64)> = match latest_issues {
        Some(n) => if n > 0 {
            seq![("diagnosis_issues"@, "orange"@, "최근 자가 진단에서 이상 "@ + int_text(n as int) + "건이 발견되었습니다."@, n)]
        } else {
            Seq::empty()
        },
        None => Seq::empty(),
    };
    a1 + a2 + a3 + a4 + a5
}

/// Every dashboard alert has something to report (a positive count), and
/// the missing-teaching-period alert appears exactly when a next month is
/// checked and has no teaching period.
pub proof fn lemma_alerts_positive_and_period(
    missing: i64,
    expiring: i64,
    draft: i64,
    next_month: Option<Seq<char>>,
    next_period_count: i64,
    latest_issues: Option<i64>,
)
    ensures
        ({
            let s = alerts_spec(missing, expiring, draft, next_month, next_period_count, latest_issues);
            &&& forall|i: int| 0 <= i < s.len() ==> (#[trigger] s[i]).3 > 0
            &&& (exists|i: int| 0 <= i < s.len() && (#[trigger] s[i]).0 == "academic_not_set"@) <==> (
            next_month is Some && next_period_count == 0)
        }),
{
    reveal_strlit("attendance_missing");
    reveal_strlit("makeup_expiring");
    reveal_strlit("draft_bills");
    reveal_strlit("academic_not_set");
    reveal_strlit("diagnosis_issues");
    let s = alerts_spec(missing, expiring, draft, next_month, next_period_count, latest_issues);
    let a1: Seq<(Seq<char>, Seq<char>, Seq<char>, i64)> = if missing > 0 {
        seq![("attendance_missing"@, "red"@, "출결 미입력 일자가 "@ + int_text(missing as int) + "일 있습니다."@, missing)]
    } else {
        Seq::empty()
    };
    let a2: Seq<(Seq<char>, Seq<char>, Seq<char>, i64)> = if expiring > 0 {
        seq![("makeup_expiring"@, "orange"@, "이번 달 보강 소멸 예정 결석이 "@ + int_text(expiring as int) + "건 있습니다."@, expiring)]
    } else {
        Seq::empty()
    };
    let a3: Seq<(Seq<char>, Seq<char>, Seq<char>, i64)> = if draft > 0 {
        seq![("draft_bills"@, "orange"@, "미확정 청구가 "@ + int_text(draft as int) + "건 있습니다."@, draft)]
    } else {
        Seq::empty()
    };
    let a4: Seq<(Seq<char>, Seq<char>, Seq<char>, i64)> = match next_month {
        Some(nm) => if next_period_count == 0 {
            seq![("academic_not_set"@, "red"@, "다음 달("@ + nm + ") 교습기간이 아직 수립되지 않았습니다."@, 1i64)]
        } else {
            Seq::empty()
        },
        None => Seq::empty(),
    };
    let a5: Seq<(Seq<char>, Seq<char>, Seq<char>, i64)> = match latest_issues {
        Some(n) => if n > 0 {
            seq![("diagnosis_issues"@, "orange"@, "최근 자가 진단에서 이상 "@ + int_text(n as int) + "건이 발견되었습니다."@, n)]
        } else {
            Seq::empty()
        },
        None => Seq::empty(),
    };
    let ac = "academic_not_set"@;
    assert("attendance_missing"@ != ac) by {
        assert("attendance_missing"@.len() != ac.len());
    }
    assert("makeup_expiring"@ != ac) by {
        assert("makeup_expiring"@.len() != ac.len());
    }
    assert("draft_bills"@ != ac) by {
        assert("draft_bills"@.len() != ac.len());
    }
    assert("diagnosis_issues"@ != ac) by {
        assert("diagnosis_issues"@[0] != ac[0]);
    }
    let b = a1 + a2 + a3;
    assert(s == b + a4 + a5);
    assert forall|i: int| 0 <= i < b.len() implies (#[trigger] b[i]).3 > 0 && b[i].0 != ac by {
        let c = a1 + a2;
        if i < c.len() {
            assert(b[i] == c[i]);
            if i < a1.len() {
                assert(c[i] == a1[i]);
            } else {
                assert(c[i] == a2[i - a1.len()]);
            }
        } else {
            assert(b[i] == a3[i - c.len()]);
        }
    }
    assert(forall|i: int| 0 <= i < a5.len() ==> (#[trigger] a5[i]).3 > 0 && a5[i].0 != ac);
    assert forall|i: int| 0 <= i < s.len() implies (#[trigger] s[i]).3 > 0 by {
        if i < b.len() {
            assert(s[i] == b[i]);
        } else if i < b.len() + a4.len() {
            assert(s[i] == a4[i - b.len()]);
        } else {
            assert(s[i] == a5[i - b.len() - a4.len()]);
        }
    }
    if next_month is Some && next_period_count == 0 {
        assert(s[b.len() as int] == a4[0]);
        assert(s[b.len() as int].0 == "academic_not_set"@);
    } else {
        assert(a4.len() == 0);
        assert forall|i: int| 0 <= i < s.len() implies (#[trigger] s[i]).0 != "academic_not_set"@ by {
            if i < b.len() {
                assert(s[i] == b[i]);
            } else {
                assert(s[i] == a5[i - b.len()]);
            }
        }
    }
}

fn alert(kind: &str, severity: &str, message: String, count: i64) -> (r: DashboardAlert)
    ensures
        alert_view(r) == (kind@, severity@, message@, count),
{
    DashboardAlert {
        kind: String::from_str(kind),
        severity: String::from_str(severity),
        message,
        count,
    }
}

fn counted_message(head: &str, n: i64, tail: &str) -> (r: String)
    ensures
        r@ == head@ + int_text(n as int) + tail@,
{
    let m = String::from_str(head);
    let t = i64_text(n);
    let m = m.concat(t.as_str());
    m.concat(tail)
}

/// The dashboard alerts (see `alerts_spec`), given the missing attendance
/// days, the absences expiring this month, the draft bills of this month, the
/// month checked for a teaching period with the number of periods found for
/// it, and the issue count of the latest self-diagnosis.
pub fn dashboard_alerts(
    missing: i64,
    expiring: i64,
    draft: i64,
    next_month: Option<String>,
    next_period_count: i64,
    latest_issues: Option<i64>,
) -> (r: Vec<DashboardAlert>)
    ensures
        r@.map_values(|a: DashboardAlert| alert_view(a)) == alerts_spec(
            missing,
            expiring,
            draft,
            match next_month {
                Some(m) => Some(m@),
                None => None,
            },
            next_period_count,
            latest_issues,
        ),
        forall|i: int| 0 <= i < r@.len() ==> (#[trigger] r@[i]).count > 0,
        (exists|i: int| 0 <= i < r@.len() && (#[trigger] r@[i]).kind@ == "academic_not_set"@) <==> (
        next_month is Some && next_period_count == 0),
{
    let mut out: Vec<DashboardAlert> = Vec::new();
    let ghost e: Seq<(Seq<char>, Seq<char>, Seq<char>, i64)> = Seq::empty();
    if missing > 0 {
        out.push(alert("attendance_missing", "red", counted_message("출결 미입력 일자가 ", missing, "일 있습니다."), missing));
    }
    let ghost s1 = out@.map_values(|a: DashboardAlert| alert_view(a));
    if expiring > 0 {
        out.push(alert("makeup_expiring", "orange", counted_message("이번 달 보강 소멸 예정 결석이 ", expiring, "건 있습니다."), expiring));
    }
    let ghost s2 = out@.map_values(|a: DashboardAlert| alert_view(a));
    if draft > 0 {
        out.push(alert("draft_bills", "orange", counted_message("미확정 청구가 ", draft, "건 있습니다."), draft));
    }
    let ghost s3 = out@.map_values(|a: DashboardAlert| alert_view(a));
    match &next_month {
        Some(nm) => {
            if next_period_count == 0 {
                let m = String::from_str("다음 달(");
                let m = m.concat(nm.as_str());
                let m = m.concat(") 교습기간이 아직 수립되지 않았습니다.");
                out.push(alert("academic_not_set", "red", m, 1));
            }
        },
        None => {},
    }
    let ghost s4 = out@.map_values(|a: DashboardAlert| alert_view(a));
    match latest_issues {
        Some(n) => {
            if n > 0 {
                out.push(alert("diagnosis_issues", "orange", counted_message("최근 자가 진단에서 이상 ", n, "건이 발견되었습니다."), n));
            }
        },
        None => {},
    }
    let ghost spec = alerts_spec(missing, expiring, draft, match next_month {
        Some(m) => Some(m@),
        None => None,
    }, next_period_count, latest_issues);
    assert(out@.map_values(|a: DashboardAlert| alert_view(a)) =~= spec);
    proof {
        lemma_alerts_positive_and_period(missing, expiring, draft, opt_month_view(next_month), next_period_count, latest_issues);
        assert(spec == alerts_spec(missing, expiring, draft, opt_month_view(next_month), next_period_count, latest_issues));
        let ov = out@.map_values(|a: DashboardAlert| alert_view(a));
        assert(forall|i: int| 0 <= i < out@.len() ==> ov[i] == alert_view(#[trigger] out@[i]));
        assert forall|i: int| 0 <= i < out@.len() implies (#[trigger] out@[i]).count > 0 by {
            assert(ov[i] == spec[i]);
        }
        if exists|i: int| 0 <= i < out@.len() && (#[trigger] out@[i]).kind@ == "academic_not_set"@ {
            let i = choose|i: int| 0 <= i < out@.len() && (#[trigger] out@[i]).kind@ == "academic_not_set"@;
            assert(ov[i] == spec[i]);
            assert(spec[i].0 == "academic_not_set"@);
        }
        if next_month is Some && next_period_count == 0 {
            let i = choose|i: int| 0 <= i < spec.len() && (#[trigger] spec[i]).0 == "academic_not_set"@;
            assert(ov[i] == spec[i]);
            assert(out@[i].kind@ == "academic_not_set"@);
        }
    }
    out
}

} // verus!
