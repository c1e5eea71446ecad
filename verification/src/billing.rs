//! Billing rules: who is billed for a month and for how much, the mid-month
//! enrolment flag, the guards of the bill state machine, payment input
//! validation and the billing totals.

use vstd::prelude::*;
use vstd::string::*;
use crate::attendance::{validate_year_month, valid_year_month, year_month_error};
use crate::text::{i64_text, int_text, is_digit, lemma_text_trichotomy, str_eq, str_le, text_le, text_lt};

verus! {

// ───────────────────────────── shapes ─────────────────────────────

/// A bill with its student's data.
#[derive(Clone, Debug)]
pub struct Bill {
    pub id: i64,
    pub student_id: i64,
    pub student_name: String,
    pub student_serial_no: String,
    pub student_grade: i64,
    pub student_school_level: String,
    pub bill_year_month: String,
    pub weekly_hours: i64,
    pub bill_amount: i64,
    pub adjusted_amount: i64,
    pub status: String,
    pub is_mid_month: bool,
    pub mid_month_type: Option<String>,
    pub confirmed_at: Option<String>,
    pub is_paid: bool,
}

/// Counts of a bill generation run.
#[derive(Clone, Debug, PartialEq, Eq)]
pub struct GenerateBillsResult {
    pub year_month: String,
    pub generated_count: i64,
    pub skipped_count: i64,
}

/// A bill with its payment, for the payments view.
#[derive(Clone, Debug)]
pub struct PaymentViewRow {
    pub bill_id: i64,
    pub payment_id: Option<i64>,
    pub student_id: i64,
    pub student_name: String,
    pub student_serial_no: String,
    pub student_grade: i64,
    pub student_school_level: String,
    pub adjusted_amount: i64,
    pub is_mid_month: bool,
    pub mid_month_type: Option<String>,
    pub is_paid: bool,
    pub paid_date: Option<String>,
    pub payer_name: Option<String>,
    pub payment_method_id: Option<i64>,
    pub payment_method_label: Option<String>,
    pub card_company_id: Option<i64>,
    pub card_company_label: Option<String>,
}

/// A student found by the billing search, with the latest payment data.
#[derive(Clone, Debug)]
pub struct BillingSearchResult {
    pub student_id: i64,
    pub student_name: String,
    pub latest_payer_name: Option<String>,
    pub latest_payment_method_id: Option<i64>,
    pub latest_card_company_id: Option<i64>,
}

/// A payment of a bill.
#[derive(Clone, Debug)]
pub struct Payment {
    pub id: i64,
    pub bill_id: i64,
    pub is_paid: bool,
    pub paid_date: Option<String>,
    pub payer_name: Option<String>,
    pub payment_method_id: Option<i64>,
    pub payment_method_label: Option<String>,
    pub card_company_id: Option<i64>,
    pub card_company_label: Option<String>,
}

/// A payment as entered.
#[derive(Clone, Debug)]
pub struct PaymentInput {
    pub bill_id: i64,
    pub is_paid: bool,
    pub paid_date: Option<String>,
    pub payer_name: Option<String>,
    pub payment_method_id: Option<i64>,
    pub card_company_id: Option<i64>,
}

/// A bill not yet paid.
#[derive(Clone, Debug)]
pub struct UnpaidBill {
    pub bill_id: i64,
    pub student_id: i64,
    pub student_name: String,
    pub student_serial_no: String,
    pub student_grade: i64,
    pub student_school_level: String,
    pub adjusted_amount: i64,
    pub is_mid_month: bool,
    pub mid_month_type: Option<String>,
}

/// Billing and payment totals of a month.
#[derive(Clone, Debug)]
pub struct BillingSummary {
    pub year_month: String,
    pub total_billable_students: i64,
    pub bill_count: i64,
    pub total_billed: i64,
    pub total_paid: i64,
    pub total_unpaid: i64,
    pub paid_count: i64,
    pub unpaid_count: i64,
}

/// Paid totals of one payment method.
#[derive(Clone, Debug)]
pub struct PaymentMethodSummary {
    pub payment_method_id: Option<i64>,
    pub payment_method_label: String,
    pub paid_count: i64,
    pub total_paid: i64,
}

/// Billing and payment totals of a year or a month.
#[derive(Clone, Debug)]
pub struct BillingPeriodStats {
    pub period: String,
    pub bill_count: i64,
    pub total_billed: i64,
    pub paid_count: i64,
    pub total_paid: i64,
    pub total_unpaid: i64,
    pub unpaid_count: i64,
    pub by_method: Vec<PaymentMethodSummary>,
}

// ───────────────────────────── mid-month flag ─────────────────────────────

/// The mid-month flag of a student billed for the period `[start, end]`:
/// enrolled inside it (this wins), else withdrawn inside it, else none.
/// Days compare as text.
pub open spec fn mid_month_flag(
    enroll: Seq<char>,
    withdraw: Option<Seq<char>>,
    start: Seq<char>,
    end: Seq<char>,
) -> (bool, Option<Seq<char>>) {
    if text_le(start, enroll) && text_le(enroll, end) {
        (true, Some("enrolled"@))
    } else if withdraw matches Some(w) && text_le(start, w) && text_le(w, end) {
        (true, Some("withdrawn"@))
    } else {
        (false, None)
    }
}

/// The mid-month flag is set exactly when the enrolment day or the
/// withdrawal day falls within the period; an enrolment within the period is
/// reported as such, and a withdrawal within it is reported when the
/// enrolment is not.
pub proof fn lemma_mid_month_flag_days(enroll: Seq<char>, withdraw: Option<Seq<char>>, start: Seq<char>, end: Seq<char>)
    ensures
        mid_month_flag(enroll, withdraw, start, end).0 <==> (text_le(start, enroll) && text_le(enroll, end)) || (
        withdraw matches Some(w) && text_le(start, w) && text_le(w, end)),
        text_le(start, enroll) && text_le(enroll, end) ==> mid_month_flag(enroll, withdraw, start, end).1 == Some(
            "enrolled"@,
        ),
        !(text_le(start, enroll) && text_le(enroll, end)) && (withdraw matches Some(w) && text_le(start, w)
            && text_le(w, end)) ==> mid_month_flag(enroll, withdraw, start, end).1 == Some("withdrawn"@),
        !mid_month_flag(enroll, withdraw, start, end).0 ==> mid_month_flag(enroll, withdraw, start, end).1 is None,
{
}

pub open spec fn opt_view(o: Option<String>) -> Option<Seq<char>> {
    match o {
        Some(s) => Some(s@),
        None => None,
    }
}

pub open spec fn opt_str_view(o: Option<&str>) -> Option<Seq<char>> {
    match o {
        Some(s) => Some(s@),
        None => None,
    }
}

/// Mid-month enrolment flag (see `mid_month_flag`).
pub fn compute_mid_month_flag(
    enroll_date: &str,
    withdraw_date: Option<&str>,
    period_start: &str,
    period_end: &str,
) -> (r: (bool, Option<String>))
    ensures
        (r.0, opt_view(r.1)) == mid_month_flag(
            enroll_date@,
            opt_str_view(withdraw_date),
            period_start@,
            period_end@,
        ),
{
    if str_le(period_start, enroll_date) && str_le(enroll_date, period_end) {
        return (true, Some(String::from_str("enrolled")));
    }
    if let Some(wd) = withdraw_date {
        if str_le(period_start, wd) && str_le(wd, period_end) {
            return (true, Some(String::from_str("withdrawn")));
        }
    }
    (false, None)
}

// ───────────────────────────── generation ─────────────────────────────

pub open spec fn msg_billing_period_missing(ym: Seq<char>) -> Seq<char> {
    ym + " 교습기간이 등록되지 않았습니다. 학사 캘린더에서 먼저 교습기간을 등록하세요."@
}

/// The billing period of a month, given the stored teaching period of the
/// month (`None` when there is none).
pub fn check_billing_period(year_month: &str, period: Option<(String, String)>) -> (r: Result<
    (String, String),
    String,
>)
    ensures
        !valid_year_month(year_month.spec_bytes()) ==> (r matches Err(e) && e@ == year_month_error(
            year_month@,
        )),
        valid_year_month(year_month.spec_bytes()) ==> match period {
            None => r matches Err(e) && e@ == msg_billing_period_missing(year_month@),
            Some((s, e)) => r matches Ok((a, b)) && a@ == s@ && b@ == e@,
        },
{
    validate_year_month(year_month)?;
    match period {
        None => {
            let m = String::from_str(year_month);
            Err(m.concat(" 교습기간이 등록되지 않았습니다. 학사 캘린더에서 먼저 교습기간을 등록하세요."))
        },
        Some(p) => Ok(p),
    }
}

/// A current weekly schedule entry of a student: hours, first day, end day
/// (exclusive, `None` while current).
#[derive(Clone, Debug)]
pub struct BillingSchedule {
    pub duration_hours: i64,
    pub effective_from: String,
    pub effective_to: Option<String>,
}

/// A student as the billing reads it.
#[derive(Clone, Debug)]
pub struct BillingStudent {
    pub student_id: i64,
    pub enroll_date: String,
    pub withdraw_date: Option<String>,
    pub schedules: Vec<BillingSchedule>,
}

/// A student to bill for the period, with the weekly hours of the current
/// schedule in force by the period's end.
#[derive(Clone, Debug)]
pub struct BillCandidate {
    pub student_id: i64,
    pub enroll_date: String,
    pub withdraw_date: Option<String>,
    pub weekly_hours: i64,
}

/// A student is billed for `[start, end]` when enrolled by its end and not
/// withdrawn before its start.
pub open spec fn billed_in(s: BillingStudent, start: Seq<char>, end: Seq<char>) -> bool {
    text_le(s.enroll_date@, end) && (s.withdraw_date matches Some(w) ==> text_le(start, w@))
}

/// Hours of the current schedule entries (no end day) starting by `end`.
pub open spec fn weekly_hours(sch: Seq<BillingSchedule>, end: Seq<char>) -> int
    decreases sch.len(),
{
    if sch.len() == 0 {
        0
    } else {
        weekly_hours(sch.drop_last(), end) + if sch.last().effective_to is None && text_le(
            sch.last().effective_from@,
            end,
        ) {
            sch.last().duration_hours as int
        } else {
            0int
        }
    }
}

/// Every running total of the weekly hours fits in `i64`.
pub open spec fn hours_fit(sch: Seq<BillingSchedule>, end: Seq<char>) -> bool {
    forall|k: int|
        0 <= k <= sch.len() ==> i64::MIN <= #[trigger] weekly_hours(sch.subrange(0, k), end) <= i64::MAX
}

pub open spec fn msg_hours_overflow() -> Seq<char> {
    "청구 대상 원생 조회 실패: integer overflow"@
}

fn weekly_hours_exec(sch: &Vec<BillingSchedule>, end: &str) -> (r: Option<i64>)
    ensures
        r is Some <==> hours_fit(sch@, end@),
        r matches Some(h) ==> h == weekly_hours(sch@, end@),
{
    let mut total: i64 = 0;
    let mut i: usize = 0;
    while i < sch.len()
        invariant
            i <= sch.len(),
            total == weekly_hours(sch@.subrange(0, i as int), end@),
            forall|k: int|
                0 <= k <= i ==> i64::MIN <= #[trigger] weekly_hours(
                    sch@.subrange(0, i as int).subrange(0, k),
                    end@,
                ) <= i64::MAX,
        decreases sch.len() - i,
    {
        let e = &sch[i];
        let ghost pre = sch@.subrange(0, i as int);
        let ghost cur = sch@.subrange(0, i + 1);
        proof {
            assert(cur.drop_last() =~= pre);
            assert(cur.last() == *e);
        }
        if e.effective_to.is_none() && str_le(e.effective_from.as_str(), end) {
            match total.checked_add(e.duration_hours) {
                Some(v) => {
                    total = v;
                },
                None => {
                    proof {
                        assert(sch@.subrange(0, i + 1) =~= cur);
                        assert(!(i64::MIN <= weekly_hours(sch@.subrange(0, i + 1), end@) <= i64::MAX));
                    }
                    return None;
                },
            }
        }
        proof {
            assert forall|k: int| 0 <= k <= i + 1 implies i64::MIN <= #[trigger] weekly_hours(
                cur.subrange(0, k),
                end@,
            ) <= i64::MAX by {
                if k <= i {
                    assert(cur.subrange(0, k) =~= pre.subrange(0, k));
                } else {
                    assert(cur.subrange(0, k) =~= cur);
                }
            }
        }
        i = i + 1;
    }
    assert(sch@.subrange(0, sch.len() as int) =~= sch@);
    proof {
        assert forall|k: int| 0 <= k <= sch@.len() implies i64::MIN <= #[trigger] weekly_hours(
            sch@.subrange(0, k),
            end@,
        ) <= i64::MAX by {
            assert(sch@.subrange(0, sch@.len() as int).subrange(0, k) =~= sch@.subrange(0, k));
        }
    }
    Some(total)
}

pub open spec fn candidate_of(s: BillingStudent, end: Seq<char>) -> (i64, Seq<char>, Option<Seq<char>>, int) {
    (s.student_id, s.enroll_date@, opt_view(s.withdraw_date), weekly_hours(s.schedules@, end))
}

pub open spec fn candidate_view(c: BillCandidate) -> (i64, Seq<char>, Option<Seq<char>>, int) {
    (c.student_id, c.enroll_date@, opt_view(c.withdraw_date), c.weekly_hours as int)
}

/// The students billed for `[start, end]`, in the given order.
pub open spec fn billing_targets_spec(students: Seq<BillingStudent>, start: Seq<char>, end: Seq<char>) -> Seq<BillingStudent>
    decreases students.len(),
{
    if students.len() == 0 {
        Seq::empty()
    } else if billed_in(students.last(), start, end) {
        billing_targets_spec(students.drop_last(), start, end).push(students.last())
    } else {
        billing_targets_spec(students.drop_last(), start, end)
    }
}

/// Who is billed for a period `[start, end]`: each billed student is one of
/// the given students, enrolled on or before the period's last day and, if
/// withdrawn, withdrawn on or after its first day; and every such student is
/// billed.
pub proof fn lemma_billed_students_overlap_period(students: Seq<BillingStudent>, start: Seq<char>, end: Seq<char>)
    ensures
        forall|i: int|
            0 <= i < billing_targets_spec(students, start, end).len() ==> {
                let t = #[trigger] billing_targets_spec(students, start, end)[i];
                &&& students.contains(t)
                &&& text_le(t.enroll_date@, end)
                &&& (t.withdraw_date matches Some(w) ==> text_le(start, w@))
            },
        forall|j: int|
            0 <= j < students.len() && text_le(#[trigger] students[j].enroll_date@, end) && (
            students[j].withdraw_date matches Some(w) ==> text_le(start, w@)) ==> billing_targets_spec(
                students,
                start,
                end,
            ).contains(students[j]),
    decreases students.len(),
{
    if students.len() > 0 {
        let pre = students.drop_last();
        lemma_billed_students_overlap_period(pre, start, end);
        let t = billing_targets_spec(students, start, end);
        let tp = billing_targets_spec(pre, start, end);
        assert forall|i: int| 0 <= i < t.len() implies {
            let x = #[trigger] t[i];
            &&& students.contains(x)
            &&& text_le(x.enroll_date@, end)
            &&& (x.withdraw_date matches Some(w) ==> text_le(start, w@))
        } by {
            if i < tp.len() {
                assert(t[i] == tp[i]);
                let x = tp[i];
                assert(pre.contains(x));
                let k = choose|k: int| 0 <= k < pre.len() && pre[k] == x;
                assert(students[k] == pre[k]);
            } else {
                assert(t[i] == students.last());
                assert(students[students.len() - 1] == students.last());
            }
        }
        assert forall|j: int|
            0 <= j < students.len() && text_le(#[trigger] students[j].enroll_date@, end) && (
            students[j].withdraw_date matches Some(w) ==> text_le(start, w@)) implies t.contains(students[j]) by {
            if j < pre.len() {
                assert(pre[j] == students[j]);
                assert(tp.contains(pre[j]));
                let k = choose|k: int| 0 <= k < tp.len() && tp[k] == pre[j];
                assert(t[k] == tp[k]);
            } else {
                assert(students[j] == students.last());
                assert(t[t.len() - 1] == students.last());
            }
        }
    }
}

/// Weekly hours add up over a split of the schedule history.
pub proof fn lemma_weekly_hours_concat(a: Seq<BillingSchedule>, b: Seq<BillingSchedule>, end: Seq<char>)
    ensures
        weekly_hours(a + b, end) == weekly_hours(a, end) + weekly_hours(b, end),
    decreases b.len(),
{
    if b.len() > 0 {
        lemma_weekly_hours_concat(a, b.drop_last(), end);
        assert((a + b).drop_last() =~= a + b.drop_last());
        assert((a + b).last() == b.last());
    } else {
        assert(a + b =~= a);
    }
}

/// What one schedule entry, anywhere in the history, adds to the weekly
/// hours billed for a period ending on `end`: an entry that has ended
/// (`effective_to` set) adds nothing, an entry starting after `end` adds
/// nothing, and an open entry starting on or before `end` adds its hours.
pub proof fn lemma_weekly_hours_entry(
    a: Seq<BillingSchedule>,
    e: BillingSchedule,
    b: Seq<BillingSchedule>,
    end: Seq<char>,
)
    ensures
        e.effective_to is Some ==> weekly_hours(a + seq![e] + b, end) == weekly_hours(a + b, end),
        text_lt(end, e.effective_from@) ==> weekly_hours(a + seq![e] + b, end) == weekly_hours(a + b, end),
        e.effective_to is None && text_le(e.effective_from@, end) ==> weekly_hours(a + seq![e] + b, end)
            == weekly_hours(a + b, end) + e.duration_hours,
{
    lemma_weekly_hours_concat(a + seq![e], b, end);
    lemma_weekly_hours_concat(a, seq![e], end);
    lemma_weekly_hours_concat(a, b, end);
    let one = seq![e];
    assert(one.drop_last() =~= Seq::<BillingSchedule>::empty());
    assert(one.last() == e);
    assert(weekly_hours(Seq::<BillingSchedule>::empty(), end) == 0);
    assert(weekly_hours(one, end) == weekly_hours(one.drop_last(), end) + if e.effective_to is None && text_le(
        e.effective_from@,
        end,
    ) {
        e.duration_hours as int
    } else {
        0int
    });
    lemma_text_trichotomy(end, e.effective_from@);
}

/// Every billed student's weekly hours fit in `i64` at every step.
pub open spec fn targets_fit(students: Seq<BillingStudent>, start: Seq<char>, end: Seq<char>) -> bool {
    forall|i: int|
        0 <= i < billing_targets_spec(students, start, end).len() ==> hours_fit(
            (#[trigger] billing_targets_spec(students, start, end)[i]).schedules@,
            end,
        )
}

/// The students to bill for the period `[start, end]` with their weekly
/// hours (see `billed_in` and `weekly_hours`), in the given order.
pub fn billing_targets(students: &Vec<BillingStudent>, period_start: &str, period_end: &str) -> (r:
    Result<Vec<BillCandidate>, String>)
    ensures
        targets_fit(students@, period_start@, period_end@) ==> (r matches Ok(v) && v@.map_values(
            |c: BillCandidate| candidate_view(c),
        ) == billing_targets_spec(students@, period_start@, period_end@).map_values(
            |s: BillingStudent| candidate_of(s, period_end@),
        )),
        !targets_fit(students@, period_start@, period_end@) ==> (r matches Err(e) && e@
            == msg_hours_overflow()),
{
    let mut out: Vec<BillCandidate> = Vec::new();
    let mut i: usize = 0;
    while i < students.len()
        invariant
            i <= students.len(),
            out@.map_values(|c: BillCandidate| candidate_view(c)) == billing_targets_spec(
                students@.subrange(0, i as int),
                period_start@,
                period_end@,
            ).map_values(|s: BillingStudent| candidate_of(s, period_end@)),
            targets_fit(students@.subrange(0, i as int), period_start@, period_end@),
        decreases students.len() - i,
    {
        let s = &students[i];
        let ghost pre = students@.subrange(0, i as int);
        let ghost cur = students@.subrange(0, i + 1);
        proof {
            assert(cur.drop_last() =~= pre);
            assert(cur.last() == *s);
        }
        let in_period = str_le(s.enroll_date.as_str(), period_end) && match &s.withdraw_date {
            Some(w) => str_le(period_start, w.as_str()),
            None => true,
        };
        if in_period {
            let hours = match weekly_hours_exec(&s.schedules, period_end) {
                Some(h) => h,
                None => {
                    proof {
                        if targets_fit(students@, period_start@, period_end@) {
                            lemma_targets_prefix(students@, period_start@, period_end@, i + 1);
                            let t = billing_targets_spec(cur, period_start@, period_end@);
                            assert(t[t.len() - 1] == *s);
                            assert(hours_fit(t[t.len() - 1].schedules@, period_end@));
                        }
                    }
                    return Err(String::from_str("청구 대상 원생 조회 실패: integer overflow"));
                },
            };
            let ghost before = out@;
            let c = BillCandidate {
                student_id: s.student_id,
                enroll_date: s.enroll_date.clone(),
                withdraw_date: s.withdraw_date.clone(),
                weekly_hours: hours,
            };
            out.push(c);
            proof {
                let tp = billing_targets_spec(pre, period_start@, period_end@);
                assert(billing_targets_spec(cur, period_start@, period_end@) == tp.push(*s));
                assert(out@.map_values(|c: BillCandidate| candidate_view(c)) =~= before.map_values(
                    |c: BillCandidate| candidate_view(c),
                ).push(candidate_view(c)));
                assert(tp.push(*s).map_values(|x: BillingStudent| candidate_of(x, period_end@))
                    =~= tp.map_values(|x: BillingStudent| candidate_of(x, period_end@)).push(
                    candidate_of(*s, period_end@),
                ));
                assert forall|k: int| 0 <= k < tp.push(*s).len() implies hours_fit(
                    (#[trigger] tp.push(*s)[k]).schedules@,
                    period_end@,
                ) by {
                    if k < tp.len() {
                        assert(tp.push(*s)[k] == tp[k]);
                    }
                }
            }
        }
        i = i + 1;
    }
    assert(students@.subrange(0, students.len() as int) =~= students@);
    Ok(out)
}

proof fn lemma_targets_prefix(students: Seq<BillingStudent>, start: Seq<char>, end: Seq<char>, k: int)
    requires
        0 <= k <= students.len(),
        targets_fit(students, start, end),
    ensures
        targets_fit(students.subrange(0, k), start, end),
    decreases students.len() - k,
{
    if k < students.len() {
        lemma_targets_prefix(students, start, end, k + 1);
        let cur = students.subrange(0, k + 1);
        let pre = students.subrange(0, k);
        assert(cur.drop_last() =~= pre);
        if billed_in(cur.last(), start, end) {
            let tp = billing_targets_spec(pre, start, end);
            assert forall|i: int| 0 <= i < tp.len() implies hours_fit(
                (#[trigger] tp[i]).schedules@,
                end,
            ) by {
                assert(billing_targets_spec(cur, start, end)[i] == tp[i]);
            }
        }
    } else {
        assert(students.subrange(0, k) =~= students);
    }
}

/// The amount of the standard fee for `hours`: the last entry with those
/// weekly hours (a later entry replaces an earlier one).
pub open spec fn fee_for(fees: Seq<(i64, i64)>, hours: i64) -> Option<i64>
    decreases fees.len(),
{
    if fees.len() == 0 {
        None
    } else if fees.last().0 == hours {
        Some(fees.last().1)
    } else {
        fee_for(fees.drop_last(), hours)
    }
}

/// The fee table lookup, stated by the entries: there is a fee for `hours`
/// exactly when some entry has those weekly hours, and then it is the amount
/// of the last such entry (no later entry has those hours).
pub proof fn lemma_fee_for_last_entry(fees: Seq<(i64, i64)>, hours: i64)
    ensures
        fee_for(fees, hours) is None <==> forall|i: int| 0 <= i < fees.len() ==> (#[trigger] fees[i]).0 != hours,
        fee_for(fees, hours) matches Some(a) ==> exists|i: int|
            0 <= i < fees.len() && (#[trigger] fees[i]) == (hours, a) && forall|j: int|
                i < j < fees.len() ==> (#[trigger] fees[j]).0 != hours,
    decreases fees.len(),
{
    if fees.len() > 0 {
        let pre = fees.drop_last();
        lemma_fee_for_last_entry(pre, hours);
        let n = fees.len() - 1;
        assert(fees[n] == fees.last());
        if fees.last().0 != hours {
            assert forall|i: int| 0 <= i < pre.len() implies pre[i] == fees[i] by {}
            if fee_for(pre, hours) is None {
                assert forall|i: int| 0 <= i < fees.len() implies (#[trigger] fees[i]).0 != hours by {
                    if i < n {
                        assert(fees[i] == pre[i]);
                    }
                }
            } else {
                let a = fee_for(pre, hours)->0;
                let i = choose|i: int|
                    0 <= i < pre.len() && (#[trigger] pre[i]) == (hours, a) && forall|j: int|
                        i < j < pre.len() ==> (#[trigger] pre[j]).0 != hours;
                assert(fees[i] == pre[i]);
                assert forall|j: int| i < j < fees.len() implies (#[trigger] fees[j]).0 != hours by {
                    if j < n {
                        assert(fees[j] == pre[j]);
                    }
                }
            }
        }
    }
}

fn fee_lookup(fees: &Vec<(i64, i64)>, hours: i64) -> (r: Option<i64>)
    ensures
        r == fee_for(fees@, hours),
{
    let mut i: usize = fees.len();
    assert(fees@.subrange(0, fees@.len() as int) =~= fees@);
    while i > 0
        invariant
            i <= fees.len(),
            fee_for(fees@, hours) == fee_for(fees@.subrange(0, i as int), hours),
        decreases i,
    {
        let f = fees[i - 1];
        proof {
            assert(fees@.subrange(0, i as int).drop_last() =~= fees@.subrange(0, i - 1));
            assert(fees@.subrange(0, i as int).last() == f);
        }
        if f.0 == hours {
            return Some(f.1);
        }
        i = i - 1;
    }
    None
}

/// A bill to create.
#[derive(Clone, Debug)]
pub struct BillDraft {
    pub student_id: i64,
    pub weekly_hours: i64,
    pub bill_amount: i64,
    pub adjusted_amount: i64,
    pub is_mid_month: bool,
    pub mid_month_type: Option<String>,
}

pub open spec fn draft_view(d: BillDraft) -> (i64, i64, i64, i64, bool, Option<Seq<char>>) {
    (d.student_id, d.weekly_hours, d.bill_amount, d.adjusted_amount, d.is_mid_month, opt_view(
        d.mid_month_type,
    ))
}

/// The bills of the candidates: none for a student without weekly hours or
/// without a standard fee for them; otherwise the fee, adjusted amount equal
/// to it, and the mid-month flag.
pub open spec fn drafts_spec(
    cands: Seq<BillCandidate>,
    fees: Seq<(i64, i64)>,
    start: Seq<char>,
    end: Seq<char>,
) -> Seq<(i64, i64, i64, i64, bool, Option<Seq<char>>)>
    decreases cands.len(),
{
    if cands.len() == 0 {
        Seq::empty()
    } else {
        let prev = drafts_spec(cands.drop_last(), fees, start, end);
        let c = cands.last();
        if c.weekly_hours <= 0 {
            prev
        } else {
            match fee_for(fees, c.weekly_hours) {
                None => prev,
                Some(a) => {
                    let f = mid_month_flag(c.enroll_date@, opt_view(c.withdraw_date), start, end);
                    prev.push((c.student_id, c.weekly_hours, a, a, f.0, f.1))
                },
            }
        }
    }
}

/// The bills to create for a month, and the number of candidates passed
/// over (no weekly hours or no standard fee).
pub fn plan_bills(
    cands: &Vec<BillCandidate>,
    fees: &Vec<(i64, i64)>,
    period_start: &str,
    period_end: &str,
) -> (r: (Vec<BillDraft>, i64))
    requires
        cands@.len() <= i64::MAX,
    ensures
        r.0@.map_values(|d: BillDraft| draft_view(d)) == drafts_spec(
            cands@,
            fees@,
            period_start@,
            period_end@,
        ),
        r.0@.len() + r.1 == cands@.len(),
{
    let mut out: Vec<BillDraft> = Vec::new();
    let mut skipped: i64 = 0;
    let mut i: usize = 0;
    while i < cands.len()
        invariant
            i <= cands.len(),
            cands@.len() <= i64::MAX,
            out@.map_values(|d: BillDraft| draft_view(d)) == drafts_spec(
                cands@.subrange(0, i as int),
                fees@,
                period_start@,
                period_end@,
            ),
            out@.len() + skipped == i,
        decreases cands.len() - i,
    {
        let c = &cands[i];
        proof {
            assert(cands@.subrange(0, i + 1).drop_last() =~= cands@.subrange(0, i as int));
            assert(cands@.subrange(0, i + 1).last() == *c);
        }
        if c.weekly_hours <= 0 {
            skipped = skipped + 1;
        } else {
            match fee_lookup(fees, c.weekly_hours) {
                None => {
                    skipped = skipped + 1;
                },
                Some(a) => {
                    let wd = match &c.withdraw_date {
                        Some(w) => Some(w.as_str()),
                        None => None,
                    };
                    let (is_mid, mtype) = compute_mid_month_flag(
                        c.enroll_date.as_str(),
                        wd,
                        period_start,
                        period_end,
                    );
                    let ghost before = out@;
                    let d = BillDraft {
                        student_id: c.student_id,
                        weekly_hours: c.weekly_hours,
                        bill_amount: a,
                        adjusted_amount: a,
                        is_mid_month: is_mid,
                        mid_month_type: mtype,
                    };
                    out.push(d);
                    proof {
                        assert(opt_str_view(wd) == opt_view(c.withdraw_date));
                        assert(out@.map_values(|d: BillDraft| draft_view(d)) =~= before.map_values(
                            |d: BillDraft| draft_view(d),
                        ).push(draft_view(d)));
                    }
                },
            }
        }
        i = i + 1;
    }
    assert(cands@.subrange(0, cands.len() as int) =~= cands@);
    (out, skipped)
}

/// Number of `true` flags.
pub open spec fn count_true(flags: Seq<bool>) -> int
    decreases flags.len(),
{
    if flags.len() == 0 {
        0
    } else {
        count_true(flags.drop_last()) + if flags.last() { 1int } else { 0int }
    }
}

/// Counts of a generation run: bills inserted (`inserted[i]` tells whether
/// the `i`-th draft was new), and candidates passed over plus drafts that
/// already had a bill.
pub fn bills_result(year_month: &str, passed_over: i64, inserted: &Vec<bool>) -> (r: GenerateBillsResult)
    requires
        0 <= passed_over,
        passed_over + inserted@.len() <= i64::MAX,
    ensures
        r.year_month@ == year_month@,
        r.generated_count == count_true(inserted@),
        r.skipped_count == passed_over + inserted@.len() - count_true(inserted@),
{
    let mut generated: i64 = 0;
    let mut skipped: i64 = passed_over;
    let mut i: usize = 0;
    while i < inserted.len()
        invariant
            i <= inserted.len(),
            0 <= passed_over,
            passed_over + inserted@.len() <= i64::MAX,
            generated == count_true(inserted@.subrange(0, i as int)),
            skipped == passed_over + i - generated,
            0 <= generated <= i,
        decreases inserted.len() - i,
    {
        proof {
            assert(inserted@.subrange(0, i + 1).drop_last() =~= inserted@.subrange(0, i as int));
        }
        if inserted[i] {
            generated = generated + 1;
        } else {
            skipped = skipped + 1;
        }
        i = i + 1;
    }
    assert(inserted@.subrange(0, inserted.len() as int) =~= inserted@);
    GenerateBillsResult {
        year_month: String::from_str(year_month),
        generated_count: generated,
        skipped_count: skipped,
    }
}

/// Number of candidates with weekly hours.
pub open spec fn billable_spec(cands: Seq<BillCandidate>) -> int
    decreases cands.len(),
{
    if cands.len() == 0 {
        0
    } else {
        billable_spec(cands.drop_last()) + if cands.last().weekly_hours > 0 { 1int } else { 0int }
    }
}

/// Number of students who take classes in the billing period: the billing
/// targets with weekly hours.
pub fn billable_students(cands: &Vec<BillCandidate>) -> (r: i64)
    requires
        cands@.len() <= i64::MAX,
    ensures
        r == billable_spec(cands@),
{
    let mut n: i64 = 0;
    let mut i: usize = 0;
    while i < cands.len()
        invariant
            i <= cands.len(),
            cands@.len() <= i64::MAX,
            n == billable_spec(cands@.subrange(0, i as int)),
            0 <= n <= i,
        decreases cands.len() - i,
    {
        proof {
            assert(cands@.subrange(0, i + 1).drop_last() =~= cands@.subrange(0, i as int));
        }
        if cands[i].weekly_hours > 0 {
            n = n + 1;
        }
        i = i + 1;
    }
    assert(cands@.subrange(0, cands.len() as int) =~= cands@);
    n
}

/// The generation never bills more students than the summary counts as
/// billable, and bills every billable student that has a standard fee: the
/// two use one target period and one rule.
pub proof fn lemma_generation_matches_billable(
    cands: Seq<BillCandidate>,
    fees: Seq<(i64, i64)>,
    start: Seq<char>,
    end: Seq<char>,
)
    ensures
        drafts_spec(cands, fees, start, end).len() <= billable_spec(cands),
        (forall|i: int| 0 <= i < cands.len() && (#[trigger] cands[i]).weekly_hours > 0 ==> fee_for(
            fees,
            cands[i].weekly_hours,
        ) is Some) ==> drafts_spec(cands, fees, start, end).len() == billable_spec(cands),
    decreases cands.len(),
{
    if cands.len() > 0 {
        lemma_generation_matches_billable(cands.drop_last(), fees, start, end);
        if forall|i: int| 0 <= i < cands.len() && (#[trigger] cands[i]).weekly_hours > 0 ==> fee_for(
            fees,
            cands[i].weekly_hours,
        ) is Some {
            assert forall|i: int| 0 <= i < cands.drop_last().len() && (#[trigger] cands.drop_last()[i]).weekly_hours > 0 implies fee_for(
                fees,
                cands.drop_last()[i].weekly_hours,
            ) is Some by {
                assert(cands.drop_last()[i] == cands[i]);
            }
            assert(cands[cands.len() - 1] == cands.last());
        }
    }
}

} // verus!

verus! {

// ───────────────────────────── guards ─────────────────────────────

pub open spec fn msg_bill_missing(id: int) -> Seq<char> {
    "청구를 찾을 수 없습니다 (id="@ + int_text(id) + ")."@
}

pub open spec fn msg_negative_amount() -> Seq<char> {
    "조정 금액은 0 이상이어야 합니다."@
}

pub open spec fn msg_paid_update() -> Seq<char> {
    "수납완료된 청구는 수정할 수 없습니다."@
}

pub open spec fn msg_paid_delete() -> Seq<char> {
    "수납완료된 청구는 삭제할 수 없습니다. 먼저 수납을 해제하세요."@
}

pub open spec fn msg_confirm_not_draft(status: Seq<char>) -> Seq<char> {
    "확정은 미확정(draft) 상태에서만 가능합니다 (현재: "@ + status + ")."@
}

/// The message for a missing bill.
pub fn bill_missing_message(id: i64) -> (r: String)
    ensures
        r@ == msg_bill_missing(id as int),
{
    let m = String::from_str("청구를 찾을 수 없습니다 (id=");
    let t = i64_text(id);
    let m = m.concat(t.as_str());
    m.concat(").")
}

/// Checks before a bill's amount changes, given the stored payment flag of
/// the bill (`None` when there is no such bill; `Some(None)` when it has no
/// payment): amounts are not negative, and paid bills keep their amount.
pub fn check_bill_update(id: i64, adjusted_amount: i64, lookup: Option<Option<i64>>) -> (r: Result<
    (),
    String,
>)
    ensures
        adjusted_amount < 0 ==> (r matches Err(e) && e@ == msg_negative_amount()),
        adjusted_amount >= 0 && lookup is None ==> (r matches Err(e) && e@ == msg_bill_missing(
            id as int,
        )),
        adjusted_amount >= 0 ==> (lookup matches Some(p) ==> if p == Some(1i64) {
            r matches Err(e) && e@ == msg_paid_update()
        } else {
            r is Ok
        }),
{
    if adjusted_amount < 0 {
        return Err(String::from_str("조정 금액은 0 이상이어야 합니다."));
    }
    match lookup {
        None => Err(bill_missing_message(id)),
        Some(p) => {
            if p == Some(1i64) {
                Err(String::from_str("수납완료된 청구는 수정할 수 없습니다."))
            } else {
                Ok(())
            }
        },
    }
}

/// Checks before a bill is deleted, given whether it exists and its payment
/// flag: a paid bill stays.
pub fn check_bill_delete(id: i64, lookup: Option<Option<i64>>) -> (r: Result<(), String>)
    ensures
        lookup is None ==> (r matches Err(e) && e@ == msg_bill_missing(id as int)),
        lookup matches Some(p) ==> if p == Some(1i64) {
            r matches Err(e) && e@ == msg_paid_delete()
        } else {
            r is Ok
        },
{
    match lookup {
        None => Err(bill_missing_message(id)),
        Some(p) => {
            if p == Some(1i64) {
                Err(String::from_str("수납완료된 청구는 삭제할 수 없습니다. 먼저 수납을 해제하세요."))
            } else {
                Ok(())
            }
        },
    }
}

/// Checks before a bill is confirmed, given its stored status: only a draft
/// is confirmed.
pub fn check_bill_confirm(id: i64, status: Option<&str>) -> (r: Result<(), String>)
    ensures
        status is None ==> (r matches Err(e) && e@ == msg_bill_missing(id as int)),
        status matches Some(s) ==> if s@ != "draft"@ {
            r matches Err(e) && e@ == msg_confirm_not_draft(s@)
        } else {
            r is Ok
        },
{
    match status {
        None => Err(bill_missing_message(id)),
        Some(s) => {
            if !str_eq(s, "draft") {
                let m = String::from_str("확정은 미확정(draft) 상태에서만 가능합니다 (현재: ");
                let m = m.concat(s);
                Err(m.concat(")."))
            } else {
                Ok(())
            }
        },
    }
}

pub open spec fn msg_paid_needs_date() -> Seq<char> {
    "입금 완료 상태에는 입금일이 필요합니다."@
}

pub open spec fn msg_paid_needs_method() -> Seq<char> {
    "입금 완료 상태에는 결제수단이 필요합니다."@
}

pub open spec fn msg_card_needs_company() -> Seq<char> {
    "카드 계열 결제수단은 카드사를 함께 선택해야 합니다."@
}

pub open spec fn msg_method_missing(id: int) -> Seq<char> {
    "결제수단을 찾을 수 없습니다 (id="@ + int_text(id) + ")."@
}

/// The checks of a payment input, in order: a paid entry has a day and a
/// method; a method must exist, and a card method needs a card company.
/// `method_is_card` is the stored card flag of the input's method (`None`
/// when there is no such method); it is read only when a method is given.
pub open spec fn payment_input_outcome(input: PaymentInput, method_is_card: Option<i64>) -> Result<
    (),
    Seq<char>,
> {
    if input.is_paid && input.paid_date is None {
        Err(msg_paid_needs_date())
    } else if input.is_paid && input.payment_method_id is None {
        Err(msg_paid_needs_method())
    } else {
        match input.payment_method_id {
            None => Ok(()),
            Some(pm) => match method_is_card {
                None => Err(msg_method_missing(pm as int)),
                Some(c) => if c == 1 && input.card_company_id is None {
                    Err(msg_card_needs_company())
                } else {
                    Ok(())
                },
            },
        }
    }
}

/// Validates a payment input (see `payment_input_outcome`).
pub fn check_payment_input(input: &PaymentInput, method_is_card: Option<i64>) -> (r: Result<
    (),
    String,
>)
    ensures
        match payment_input_outcome(*input, method_is_card) {
            Ok(()) => r is Ok,
            Err(e) => r matches Err(x) && x@ == e,
        },
{
    if input.is_paid && input.paid_date.is_none() {
        return Err(String::from_str("입금 완료 상태에는 입금일이 필요합니다."));
    }
    if input.is_paid && input.payment_method_id.is_none() {
        return Err(String::from_str("입금 완료 상태에는 결제수단이 필요합니다."));
    }
    match input.payment_method_id {
        None => Ok(()),
        Some(pm) => match method_is_card {
            None => {
                let m = String::from_str("결제수단을 찾을 수 없습니다 (id=");
                let t = i64_text(pm);
                let m = m.concat(t.as_str());
                Err(m.concat(")."))
            },
            Some(c) => {
                if c == 1 && input.card_company_id.is_none() {
                    Err(String::from_str("카드 계열 결제수단은 카드사를 함께 선택해야 합니다."))
                } else {
                    Ok(())
                }
            },
        },
    }
}

/// A paid entry always carries its day and its method.
pub proof fn lemma_paid_inputs_are_complete(input: PaymentInput, method_is_card: Option<i64>)
    requires
        payment_input_outcome(input, method_is_card) is Ok,
        input.is_paid,
    ensures
        input.paid_date is Some,
        input.payment_method_id is Some,
{
}

// ───────────────────────────── totals ─────────────────────────────

/// A bill of the month with the payment flag of its payment (`None` when it
/// has none).
#[derive(Clone, Copy, Debug)]
pub struct BillPaymentRow {
    pub adjusted_amount: i64,
    pub is_paid: Option<i64>,
}

/// Bill count, billed total, paid total and paid count.
#[derive(Clone, Copy, Debug)]
pub struct BillTotals {
    pub bill_count: i64,
    pub total_billed: i64,
    pub total_paid: i64,
    pub paid_count: i64,
}

pub open spec fn row_paid(r: BillPaymentRow) -> bool {
    r.is_paid == Some(1i64)
}

pub open spec fn billed_sum(rows: Seq<BillPaymentRow>) -> int
    decreases rows.len(),
{
    if rows.len() == 0 {
        0
    } else {
        billed_sum(rows.drop_last()) + rows.last().adjusted_amount as int
    }
}

pub open spec fn paid_sum(rows: Seq<BillPaymentRow>) -> int
    decreases rows.len(),
{
    if rows.len() == 0 {
        0
    } else {
        paid_sum(rows.drop_last()) + if row_paid(rows.last()) {
            rows.last().adjusted_amount as int
        } else {
            0int
        }
    }
}

pub open spec fn paid_count_spec(rows: Seq<BillPaymentRow>) -> int
    decreases rows.len(),
{
    if rows.len() == 0 {
        0
    } else {
        paid_count_spec(rows.drop_last()) + if row_paid(rows.last()) { 1int } else { 0int }
    }
}

/// Every running total fits in `i64`.
pub open spec fn totals_fit(rows: Seq<BillPaymentRow>) -> bool {
    forall|k: int|
        0 <= k <= rows.len() ==> i64::MIN <= #[trigger] billed_sum(rows.subrange(0, k)) <= i64::MAX
            && i64::MIN <= paid_sum(rows.subrange(0, k)) <= i64::MAX
}

proof fn lemma_paid_count_bound(rows: Seq<BillPaymentRow>)
    ensures
        0 <= paid_count_spec(rows) <= rows.len(),
    decreases rows.len(),
{
    if rows.len() > 0 {
        lemma_paid_count_bound(rows.drop_last());
    }
}

/// The totals of the bills of a period; `None` when a running total leaves
/// `i64` (SQLite's `SUM` reports an overflow).
pub fn bill_totals(rows: &Vec<BillPaymentRow>) -> (r: Option<BillTotals>)
    requires
        rows@.len() <= i64::MAX,
    ensures
        r is Some <==> totals_fit(rows@),
        r matches Some(t) ==> t.bill_count == rows@.len() && t.total_billed == billed_sum(rows@)
            && t.total_paid == paid_sum(rows@) && t.paid_count == paid_count_spec(rows@),
{
    let mut billed: i64 = 0;
    let mut paid: i64 = 0;
    let mut count: i64 = 0;
    let mut i: usize = 0;
    while i < rows.len()
        invariant
            i <= rows.len(),
            rows@.len() <= i64::MAX,
            billed == billed_sum(rows@.subrange(0, i as int)),
            paid == paid_sum(rows@.subrange(0, i as int)),
            count == paid_count_spec(rows@.subrange(0, i as int)),
            totals_fit(rows@.subrange(0, i as int)),
        decreases rows.len() - i,
    {
        let r = rows[i];
        let ghost pre = rows@.subrange(0, i as int);
        let ghost cur = rows@.subrange(0, i + 1);
        proof {
            assert(cur.drop_last() =~= pre);
            assert(cur.last() == r);
            lemma_paid_count_bound(pre);
        }
        let nb = billed.checked_add(r.adjusted_amount);
        let is_paid = r.is_paid == Some(1i64);
        let np = if is_paid {
            paid.checked_add(r.adjusted_amount)
        } else {
            Some(paid)
        };
        if nb.is_none() || np.is_none() {
            proof {
                assert(rows@.subrange(0, i + 1) =~= cur);
                assert(!(i64::MIN <= billed_sum(rows@.subrange(0, i + 1)) <= i64::MAX && i64::MIN
                    <= paid_sum(rows@.subrange(0, i + 1)) <= i64::MAX));
            }
            return None;
        }
        billed = nb.unwrap();
        paid = np.unwrap();
        if is_paid {
            count = count + 1;
        }
        proof {
            assert forall|k: int| 0 <= k <= i + 1 implies i64::MIN <= #[trigger] billed_sum(
                cur.subrange(0, k),
            ) <= i64::MAX && i64::MIN <= paid_sum(cur.subrange(0, k)) <= i64::MAX by {
                if k <= i {
                    assert(cur.subrange(0, k) =~= pre.subrange(0, k));
                } else {
                    assert(cur.subrange(0, k) =~= cur);
                }
            }
        }
        i = i + 1;
    }
    assert(rows@.subrange(0, rows.len() as int) =~= rows@);
    Some(BillTotals { bill_count: rows.len() as i64, total_billed: billed, total_paid: paid, paid_count: count })
}

/// The billing summary of a month from its totals and its number of
/// billable students; the unpaid figures are the billed ones less the paid.
pub fn billing_summary(year_month: &str, total_billable_students: i64, t: BillTotals) -> (r: BillingSummary)
    requires
        i64::MIN <= t.total_billed - t.total_paid <= i64::MAX,
        i64::MIN <= t.bill_count - t.paid_count <= i64::MAX,
    ensures
        r.year_month@ == year_month@,
        r.total_billable_students == total_billable_students,
        r.bill_count == t.bill_count,
        r.total_billed == t.total_billed,
        r.total_paid == t.total_paid,
        r.total_unpaid == t.total_billed - t.total_paid,
        r.paid_count == t.paid_count,
        r.unpaid_count == t.bill_count - t.paid_count,
{
    BillingSummary {
        year_month: String::from_str(year_month),
        total_billable_students,
        bill_count: t.bill_count,
        total_billed: t.total_billed,
        total_paid: t.total_paid,
        total_unpaid: t.total_billed - t.total_paid,
        paid_count: t.paid_count,
        unpaid_count: t.bill_count - t.paid_count,
    }
}

/// The statistics of a year or a month from its totals and its per-method
/// paid totals.
pub fn period_stats(period: &str, t: BillTotals, by_method: Vec<PaymentMethodSummary>) -> (r: BillingPeriodStats)
    requires
        i64::MIN <= t.total_billed - t.total_paid <= i64::MAX,
        i64::MIN <= t.bill_count - t.paid_count <= i64::MAX,
    ensures
        r.period@ == period@,
        r.bill_count == t.bill_count,
        r.total_billed == t.total_billed,
        r.paid_count == t.paid_count,
        r.total_paid == t.total_paid,
        r.total_unpaid == t.total_billed - t.total_paid,
        r.unpaid_count == t.bill_count - t.paid_count,
        r.by_method@ == by_method@,
{
    BillingPeriodStats {
        period: String::from_str(period),
        bill_count: t.bill_count,
        total_billed: t.total_billed,
        paid_count: t.paid_count,
        total_paid: t.total_paid,
        total_unpaid: t.total_billed - t.total_paid,
        unpaid_count: t.bill_count - t.paid_count,
        by_method,
    }
}

/// Bills with non-negative amounts give a paid total within the billed
/// total, so the unpaid total is never negative.
pub proof fn lemma_unpaid_not_negative(rows: Seq<BillPaymentRow>)
    requires
        forall|i: int| 0 <= i < rows.len() ==> (#[trigger] rows[i]).adjusted_amount >= 0,
    ensures
        0 <= paid_sum(rows) <= billed_sum(rows),
        0 <= paid_count_spec(rows) <= rows.len(),
    decreases rows.len(),
{
    lemma_paid_count_bound(rows);
    if rows.len() > 0 {
        assert forall|i: int| 0 <= i < rows.drop_last().len() implies (#[trigger] rows.drop_last()[i]).adjusted_amount >= 0 by {
            assert(rows.drop_last()[i] == rows[i]);
        }
        assert(rows[rows.len() - 1] == rows.last());
        lemma_unpaid_not_negative(rows.drop_last());
    }
}

// ───────────────────────────── periods and search ─────────────────────────────

/// The `LIKE` pattern of a period: four ASCII digits (a year) match all its
/// months, a valid `YYYY-MM` matches itself.
pub open spec fn period_pattern(period: &str) -> Result<Seq<char>, Seq<char>> {
    let b = period.spec_bytes();
    if b.len() == 4 && (forall|i: int| 0 <= i < 4 ==> 48 <= #[trigger] b[i] <= 57) {
        Ok(period@ + "-%"@)
    } else if valid_year_month(b) {
        Ok(period@)
    } else {
        Err(year_month_error(period@))
    }
}

/// The `LIKE` pattern of a period (see `period_pattern`).
pub fn period_like_pattern(period: &str) -> (r: Result<String, String>)
    ensures
        match period_pattern(period) {
            Ok(p) => r matches Ok(x) && x@ == p,
            Err(e) => r matches Err(x) && x@ == e,
        },
{
    let b = period.as_bytes();
    if b.len() == 4 {
        let mut all = true;
        let mut i: usize = 0;
        while i < 4
            invariant
                b@ == period.spec_bytes(),
                b@.len() == 4,
                i <= 4,
                all == (forall|k: int| 0 <= k < i ==> 48 <= #[trigger] b@[k] <= 57),
            decreases 4 - i,
        {
            if b[i] < 48u8 || b[i] > 57u8 {
                all = false;
            }
            i = i + 1;
        }
        if all {
            let p = String::from_str(period);
            return Ok(p.concat("-%"));
        }
    }
    validate_year_month(period)?;
    Ok(String::from_str(period))
}

/// The Unicode `White_Space` characters (what `str::trim` removes).
pub open spec fn is_white_space(c: char) -> bool {
    let n = c as int;
    (0x9 <= n <= 0xD) || n == 0x20 || n == 0x85 || n == 0xA0 || n == 0x1680 || (0x2000 <= n
        <= 0x200A) || n == 0x2028 || n == 0x2029 || n == 0x202F || n == 0x205F || n == 0x3000
}

fn is_white_space_exec(c: char) -> (r: bool)
    ensures
        r == is_white_space(c),
{
    let n = c as u32;
    (0x9 <= n && n <= 0xD) || n == 0x20 || n == 0x85 || n == 0xA0 || n == 0x1680 || (0x2000 <= n
        && n <= 0x200A) || n == 0x2028 || n == 0x2029 || n == 0x202F || n == 0x205F || n == 0x3000
}

/// `s` without its leading and trailing white space: the text between the
/// first and the last characters that are no white space.
pub open spec fn trimmed(s: Seq<char>, from: int, to: int) -> bool {
    &&& 0 <= from <= to <= s.len()
    &&& forall|i: int| 0 <= i < from ==> is_white_space(#[trigger] s[i])
    &&& forall|i: int| to <= i < s.len() ==> is_white_space(#[trigger] s[i])
    &&& from < to ==> !is_white_space(s[from]) && !is_white_space(s[to - 1])
    &&& from == to ==> forall|i: int| 0 <= i < s.len() ==> is_white_space(#[trigger] s[i])
}

/// The billing search text: the query without surrounding white space, or
/// `None` when nothing is left.
pub fn search_query(query: &str) -> (r: Option<String>)
    ensures
        exists|from: int, to: int| #[trigger] trimmed(query@, from, to) && match r {
            None => from == to,
            Some(q) => from < to && q@ == query@.subrange(from, to),
        },
{
    let n = query.unicode_len();
    let mut from: usize = 0;
    while from < n && is_white_space_exec(query.get_char(from))
        invariant
            n == query@.len(),
            from <= n,
            forall|i: int| 0 <= i < from ==> is_white_space(#[trigger] query@[i]),
        decreases n - from,
    {
        from = from + 1;
    }
    if from == n {
        assert(trimmed(query@, from as int, from as int));
        return None;
    }
    let mut to: usize = n;
    while to > from && is_white_space_exec(query.get_char(to - 1))
        invariant
            n == query@.len(),
            from < n,
            from <= to <= n,
            !is_white_space(query@[from as int]),
            forall|i: int| to <= i < n ==> is_white_space(#[trigger] query@[i]),
        decreases to,
    {
        to = to - 1;
    }
    assert(trimmed(query@, from as int, to as int));
    Some(String::from_str(query.substring_char(from, to)))
}

} // verus!
