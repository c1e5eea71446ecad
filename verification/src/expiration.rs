//! Make-up expiry: the report of absences whose make-up deadline passed,
//! what a withdrawing student still owes, the withdrawal choices, and the
//! audit details these write.

use vstd::prelude::*;
use vstd::string::*;
use crate::civil::{CivilDate, civil_text, date_text};
use crate::text::{int_text, i64_text, str_eq, str_le, text_le};

verus! {

/// An absence that expired.
#[derive(Clone, Debug, PartialEq, Eq)]
pub struct ExpiredAbsenceDetail {
    pub student_id: i64,
    pub student_name: String,
    pub event_date: String,
    pub makeup_deadline: String,
}

/// What an expiry run changed.
#[derive(Clone, Debug, PartialEq, Eq)]
pub struct ExpirationReport {
    pub transitioned_count: usize,
    pub details: Vec<ExpiredAbsenceDetail>,
}

/// An absence a withdrawing student has not made up.
#[derive(Clone, Debug, PartialEq, Eq)]
pub struct PendingAbsenceForWithdrawal {
    pub id: i64,
    pub event_date: String,
    pub class_minutes: i64,
    pub makeup_deadline: Option<String>,
}

/// What a withdrawing student still owes.
#[derive(Clone, Debug, PartialEq, Eq)]
pub struct WithdrawalPendingMakeup {
    pub student_id: i64,
    pub remaining_minutes: i64,
    pub absences: Vec<PendingAbsenceForWithdrawal>,
}

/// How the owed make-up of a withdrawing student ends: expired at once, or
/// expired with a note that it is made up elsewhere.
#[derive(Clone, Debug, PartialEq, Eq)]
pub enum WithdrawalChoice {
    ImmediateExpire,
    ExternalExpire { memo: String },
}

/// Whether an absence's make-up deadline has passed as of `cutoff`: it is an
/// absence not matched to a make-up class, with a deadline month whose study
/// period is registered (`period_end`, that period's last day) and ended on
/// or before `cutoff`. Without a registered period the deadline is not fixed
/// yet and the absence waits.
pub open spec fn expires(status: Seq<char>, matched: bool, deadline: Option<Seq<char>>, period_end: Option<Seq<char>>, cutoff: Seq<char>) -> bool {
    &&& status == "absent"@
    &&& !matched
    &&& deadline is Some
    &&& period_end matches Some(e) && text_le(e, cutoff)
}

/// Decides whether an absence expires (see `expires`).
pub fn absence_expires(status: &str, matched: bool, deadline: Option<&str>, period_end: Option<&str>, cutoff: &str) -> (r: bool)
    ensures
        r == expires(
            status@,
            matched,
            match deadline {
                Some(d) => Some(d@),
                None => None,
            },
            match period_end {
                Some(e) => Some(e@),
                None => None,
            },
            cutoff@,
        ),
{
    if !str_eq(status, "absent") || matched || deadline.is_none() {
        return false;
    }
    match period_end {
        Some(e) => str_le(e, cutoff),
        None => false,
    }
}

/// Expiry never touches a class already made up or already expired, nor an
/// absence whose deadline month has no registered study period.
pub proof fn lemma_expiry_spares_settled_rows(
    status: Seq<char>,
    matched: bool,
    deadline: Option<Seq<char>>,
    period_end: Option<Seq<char>>,
    cutoff: Seq<char>,
)
    ensures
        matched ==> !expires(status, matched, deadline, period_end, cutoff),
        status == "makeup_done"@ || status == "makeup_expired"@ ==> !expires(status, matched, deadline, period_end, cutoff),
        period_end is None ==> !expires(status, matched, deadline, period_end, cutoff),
{
    reveal_strlit("absent");
    reveal_strlit("makeup_done");
    reveal_strlit("makeup_expired");
    assert("absent"@.len() != "makeup_done"@.len());
    assert("absent"@.len() != "makeup_expired"@.len());
}

/// The report of an expiry run: how many absences expired, and which.
pub fn expiration_report(details: Vec<ExpiredAbsenceDetail>) -> (r: ExpirationReport)
    ensures
        r.transitioned_count == details.len(),
        r.details@ == details@,
{
    ExpirationReport { transitioned_count: details.len(), details }
}

/// The date up to which deadlines have passed: the given one, or today.
pub fn expiry_cutoff(as_of: Option<CivilDate>, today: CivilDate) -> (r: String)
    requires
        as_of matches Some(d) ==> d.wf(),
        today.wf(),
    ensures
        r@ == date_text(
            match as_of {
                Some(d) => d,
                None => today,
            },
        ),
{
    let d = match as_of {
        Some(d) => d,
        None => today,
    };
    civil_text(d)
}

/// Total minutes of the absences.
pub open spec fn minutes_total(a: Seq<PendingAbsenceForWithdrawal>) -> int
    decreases a.len(),
{
    if a.len() == 0 {
        0
    } else {
        minutes_total(a.drop_last()) + a.last().class_minutes
    }
}

/// Every running total of the minutes fits in an `i64`.
pub open spec fn minutes_fit(a: Seq<PendingAbsenceForWithdrawal>) -> bool {
    forall|k: int| 0 <= k <= a.len() ==> i64::MIN <= #[trigger] minutes_total(a.subrange(0, k)) <= i64::MAX
}

/// What a withdrawing student owes: the absences, oldest first as given, and
/// their total minutes.
pub fn pending_makeup(student_id: i64, absences: Vec<PendingAbsenceForWithdrawal>) -> (r: WithdrawalPendingMakeup)
    requires
        minutes_fit(absences@),
    ensures
        r.student_id == student_id,
        r.absences@ == absences@,
        r.remaining_minutes == minutes_total(absences@),
{
    let mut total: i64 = 0;
    let mut i: usize = 0;
    while i < absences.len()
        invariant
            i <= absences.len(),
            minutes_fit(absences@),
            total == minutes_total(absences@.subrange(0, i as int)),
        decreases absences.len() - i,
    {
        proof {
            let s = absences@.subrange(0, i as int + 1);
            assert(s.drop_last() =~= absences@.subrange(0, i as int));
            assert(minutes_total(absences@.subrange(0, i as int + 1)) <= i64::MAX);
            assert(minutes_total(absences@.subrange(0, i as int + 1)) >= i64::MIN);
        }
        total = total + absences[i].class_minutes;
        i = i + 1;
    }
    proof {
        assert(absences@.subrange(0, absences.len() as int) =~= absences@);
    }
    WithdrawalPendingMakeup { student_id, remaining_minutes: total, absences }
}

/// The note written on the owed absences: only an external expiry has one.
pub fn withdrawal_memo(choice: &WithdrawalChoice) -> (r: Option<&String>)
    ensures
        match choice {
            WithdrawalChoice::ImmediateExpire => r is None,
            WithdrawalChoice::ExternalExpire { memo } => r == Some(memo),
        },
{
    match choice {
        WithdrawalChoice::ImmediateExpire => None,
        WithdrawalChoice::ExternalExpire { memo } => Some(memo),
    }
}

/// The refusal when the withdrawing student does not exist.
pub fn student_not_found(student_id: i64) -> (r: String)
    ensures
        r@ == "원생을 찾을 수 없습니다 (id="@ + int_text(student_id as int) + ")."@,
{
    let n = i64_text(student_id);
    String::from_str("원생을 찾을 수 없습니다 (id=").concat(n.as_str()).concat(").")
}

/// The audit details of an expired absence:
/// `{"eventDate":"…","makeupDeadline":"…"}`.
pub fn expiry_audit_details(event_date: &str, makeup_deadline: &str) -> (r: String)
    ensures
        r@ == "{\"eventDate\":\""@ + event_date@ + "\",\"makeupDeadline\":\""@ + makeup_deadline@ + "\"}"@,
{
    String::from_str("{\"eventDate\":\"").concat(event_date).concat("\",\"makeupDeadline\":\"").concat(makeup_deadline).concat(
        "\"}",
    )
}

/// The audit details of an absence expired by a withdrawal:
/// `{"attendanceId":…,"trigger":"withdrawal"}`.
pub fn withdrawal_audit_details(attendance_id: i64) -> (r: String)
    ensures
        r@ == "{\"attendanceId\":"@ + int_text(attendance_id as int) + ",\"trigger\":\"withdrawal\"}"@,
{
    let n = i64_text(attendance_id);
    String::from_str("{\"attendanceId\":").concat(n.as_str()).concat(",\"trigger\":\"withdrawal\"}")
}

} // verus!
