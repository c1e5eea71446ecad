//! Data self-diagnosis: the issues each of the seven checks reports, how a
//! run is summarised, and how stored runs are reconciled with a new one
//! (resolved issues leave, remaining ones take the current wording).

use vstd::prelude::*;
use vstd::string::*;
use crate::error::AppError;
use crate::text::{int_text, i64_text};

verus! {

/// The number of checks a diagnosis runs.
pub const TOTAL_CHECKS: i64 = 7;

/// One problem a check found.
#[derive(Clone, Debug, PartialEq, Eq)]
pub struct DiagnosisIssue {
    pub check_id: String,
    pub severity: String,
    pub message: String,
    pub target_table: Option<String>,
    pub target_id: Option<i64>,
}

/// The summary of one run.
pub struct DiagnosisResult {
    pub run_date: String,
    pub run_type: String,
    pub total_checks: i64,
    pub issues_found: i64,
    pub issues: Vec<DiagnosisIssue>,
}

/// A stored run.
pub struct DiagnosisHistoryRow {
    pub id: i64,
    pub run_date: String,
    pub run_type: String,
    pub total_checks: i64,
    pub issues_found: i64,
    pub issues: Vec<DiagnosisIssue>,
    pub created_at: String,
}

pub open spec fn opt_view(o: Option<String>) -> Option<Seq<char>> {
    match o {
        Some(s) => Some(s@),
        None => None,
    }
}

impl DiagnosisIssue {
    /// The issue's check, severity, message, table and row, as plain values.
    pub open spec fn view(&self) -> (Seq<char>, Seq<char>, Seq<char>, Option<Seq<char>>, Option<i64>) {
        (self.check_id@, self.severity@, self.message@, opt_view(self.target_table), self.target_id)
    }

    /// What identifies an issue across runs: its check, table and row, not
    /// its wording.
    pub open spec fn identity(&self) -> (Seq<char>, Option<Seq<char>>, Option<i64>) {
        (self.check_id@, opt_view(self.target_table), self.target_id)
    }
}

fn issue(check_id: &str, severity: &str, message: String, table: &str, id: i64) -> (r: DiagnosisIssue)
    ensures
        r@ == (check_id@, severity@, message@, Some(table@), Some(id)),
{
    DiagnosisIssue {
        check_id: String::from_str(check_id),
        severity: String::from_str(severity),
        message,
        target_table: Some(String::from_str(table)),
        target_id: Some(id),
    }
}

/// `{name} 원생의 {what}{tail}` with `what` in the middle.
fn sentence(name: &str, mid: &str, what: &str, tail: &str) -> (r: String)
    ensures
        r@ == name@ + mid@ + what@ + tail@,
{
    String::from_str(name).concat(mid).concat(what).concat(tail)
}

/// Check 1: a student has more make-up minutes attended than absences that
/// call for make-up (`net` is the difference, owed minus attended). Only a
/// negative balance is an issue.
pub fn negative_makeup_issue(student_id: i64, name: &str, net: i64) -> (r: Option<DiagnosisIssue>)
    requires
        net > i64::MIN,
    ensures
        net >= 0 ==> r is None,
        net < 0 ==> (r matches Some(i) && i@ == ("negative_makeup_minutes"@, "error"@, name@
            + " 원생의 보강필요시간이 음수입니다 ("@ + int_text(-net) + "분 초과 보강). 출결/보강 기록을 확인해주세요."@,
            Some("students"@), Some(student_id))),
{
    if net >= 0 {
        return None;
    }
    let over = i64_text(-net);
    let m = sentence(name, " 원생의 보강필요시간이 음수입니다 (", over.as_str(), "분 초과 보강). 출결/보강 기록을 확인해주세요.");
    Some(issue("negative_makeup_minutes", "error", m, "students", student_id))
}

/// Check 2: an enrolled student with a current schedule has no regular
/// attendance in the month.
pub fn missing_attendance_issue(student_id: i64, name: &str, year_month: &str) -> (r: DiagnosisIssue)
    ensures
        r@ == ("missing_attendance"@, "warning"@, name@ + " 원생의 "@ + year_month@ + " 정규 출결이 생성되지 않았습니다."@,
            Some("regular_attendances"@), Some(student_id)),
{
    let m = sentence(name, " 원생의 ", year_month, " 정규 출결이 생성되지 않았습니다.");
    issue("missing_attendance", "warning", m, "regular_attendances", student_id)
}

/// Check 3: an enrolled student has no bill for the month.
pub fn missing_billing_issue(student_id: i64, name: &str, year_month: &str) -> (r: DiagnosisIssue)
    ensures
        r@ == ("missing_billing"@, "warning"@, name@ + " 원생의 "@ + year_month@ + " 청구가 생성되지 않았습니다."@,
            Some("bills"@), Some(student_id)),
{
    let m = sentence(name, " 원생의 ", year_month, " 청구가 생성되지 않았습니다.");
    issue("missing_billing", "warning", m, "bills", student_id)
}

/// Check 4: a regular attendance of the month falls on a weekday that no
/// current schedule of the student has.
pub fn schedule_mismatch_issue(attendance_id: i64, name: &str, event_date: &str) -> (r: DiagnosisIssue)
    ensures
        r@ == ("schedule_attendance_mismatch"@, "warning"@, name@ + " 원생의 "@ + event_date@
            + " 정규 출결이 현행 수업 스케줄 요일과 일치하지 않습니다."@, Some("regular_attendances"@), Some(attendance_id)),
{
    let m = sentence(name, " 원생의 ", event_date, " 정규 출결이 현행 수업 스케줄 요일과 일치하지 않습니다.");
    issue("schedule_attendance_mismatch", "warning", m, "regular_attendances", attendance_id)
}

/// Check 5: an absence has no make-up deadline.
pub fn absent_without_deadline_issue(attendance_id: i64, name: &str, event_date: &str) -> (r: DiagnosisIssue)
    ensures
        r@ == ("absent_without_deadline"@, "error"@, name@ + " 원생의 "@ + event_date@
            + " 결석에 보강 소멸기한이 설정되지 않았습니다."@, Some("regular_attendances"@), Some(attendance_id)),
{
    let m = sentence(name, " 원생의 ", event_date, " 결석에 보강 소멸기한이 설정되지 않았습니다.");
    issue("absent_without_deadline", "error", m, "regular_attendances", attendance_id)
}

/// Check 6: a make-up class that no absence refers to.
pub fn orphan_makeup_issue(makeup_id: i64, name: &str, event_date: &str) -> (r: DiagnosisIssue)
    ensures
        r@ == ("orphan_makeup"@, "warning"@, name@ + " 원생의 "@ + event_date@
            + " 보강 기록이 어떤 결석과도 연결되지 않았습니다 (고아 보강)."@, Some("makeup_attendances"@), Some(makeup_id)),
{
    let m = sentence(name, " 원생의 ", event_date, " 보강 기록이 어떤 결석과도 연결되지 않았습니다 (고아 보강).");
    issue("orphan_makeup", "warning", m, "makeup_attendances", makeup_id)
}

/// Check 7: a paid payment without a payment method (`method_id` absent),
/// or a card payment without a card company.
pub fn payment_integrity_issue(payment_id: i64, name: &str, year_month: &str, method_id: Option<i64>) -> (r:
    DiagnosisIssue)
    ensures
        r@ == ("payment_integrity"@, "error"@, name@ + " 원생 "@ + year_month@ + " 수납 정합성 오류 — "@ + (if method_id is None {
            "결제수단 누락"@
        } else {
            "카드 결제인데 카드사 누락"@
        }) + "."@, Some("payments"@), Some(payment_id)),
{
    let detail = match method_id {
        None => "결제수단 누락",
        Some(_) => "카드 결제인데 카드사 누락",
    };
    let m = String::from_str(name).concat(" 원생 ").concat(year_month).concat(" 수납 정합성 오류 — ").concat(detail).concat(
        ".",
    );
    issue("payment_integrity", "error", m, "payments", payment_id)
}

/// The identity of an issue (see `identity`).
pub fn issue_identity(i: &DiagnosisIssue) -> (r: (String, Option<String>, Option<i64>))
    ensures
        (r.0@, opt_view(r.1), r.2) == i.identity(),
{
    (i.check_id.clone(), i.target_table.clone(), i.target_id)
}

fn same_opt_text(a: &Option<String>, b: &Option<String>) -> (r: bool)
    ensures
        r == (opt_view(*a) == opt_view(*b)),
{
    match (a, b) {
        (Some(x), Some(y)) => x.eq(y),
        (None, None) => true,
        _ => false,
    }
}

fn same_identity(a: &DiagnosisIssue, b: &DiagnosisIssue) -> (r: bool)
    ensures
        r == (a.identity() == b.identity()),
{
    a.check_id == b.check_id && same_opt_text(&a.target_table, &b.target_table) && a.target_id == b.target_id
}

/// The last current issue with the identity of `i`, if any.
pub open spec fn current_match(current: Seq<DiagnosisIssue>, i: DiagnosisIssue) -> Option<DiagnosisIssue>
    decreases current.len(),
{
    if current.len() == 0 {
        None
    } else if current.last().identity() == i.identity() {
        Some(current.last())
    } else {
        current_match(current.drop_last(), i)
    }
}

/// The stored issues still found, in their stored order, each in its current
/// wording.
pub open spec fn still_found(stored: Seq<DiagnosisIssue>, current: Seq<DiagnosisIssue>) -> Seq<DiagnosisIssue>
    decreases stored.len(),
{
    if stored.len() == 0 {
        Seq::empty()
    } else {
        let rest = still_found(stored.drop_last(), current);
        match current_match(current, stored.last()) {
            Some(c) => rest.push(c),
            None => rest,
        }
    }
}

fn find_current(current: &Vec<DiagnosisIssue>, i: &DiagnosisIssue) -> (r: Option<usize>)
    ensures
        match current_match(current@, *i) {
            Some(c) => r matches Some(k) && k < current.len() && current@[k as int] == c,
            None => r is None,
        },
{
    let mut k: usize = current.len();
    proof {
        assert(current@.subrange(0, k as int) =~= current@);
    }
    while k > 0
        invariant
            k <= current.len(),
            current_match(current@, *i) == current_match(current@.subrange(0, k as int), *i),
        decreases k,
    {
        let ghost pre = current@.subrange(0, k as int);
        proof {
            assert(pre.drop_last() =~= current@.subrange(0, k - 1));
            assert(pre.last() == current@[k - 1]);
        }
        if same_identity(&current[k - 1], i) {
            return Some(k - 1);
        }
        k = k - 1;
    }
    proof {
        assert(current@.subrange(0, 0) =~= Seq::<DiagnosisIssue>::empty());
    }
    None
}

fn copy_issue(i: &DiagnosisIssue) -> (r: DiagnosisIssue)
    ensures
        r == *i,
{
    DiagnosisIssue {
        check_id: i.check_id.clone(),
        severity: i.severity.clone(),
        message: i.message.clone(),
        target_table: i.target_table.clone(),
        target_id: i.target_id,
    }
}

/// What to do with a stored run after a new one: keep it as it is, delete
/// it, or replace its issues.
pub enum HistoryAction {
    Keep,
    Delete,
    Replace(Vec<DiagnosisIssue>),
}

/// Whether some kept issue's message differs from the stored one at the same
/// position (over the positions both have).
pub open spec fn wording_changed(kept: Seq<DiagnosisIssue>, stored: Seq<DiagnosisIssue>) -> bool {
    exists|k: int| 0 <= k < kept.len() && k < stored.len() && #[trigger] kept[k].message@ != stored[k].message@
}

/// The action for a stored run: a run that had issues and none of them is
/// still found is deleted; one that lost some issues or whose remaining
/// issues changed wording gets the remaining ones; any other stays.
pub open spec fn reconcile_action(stored: Seq<DiagnosisIssue>, current: Seq<DiagnosisIssue>) -> int {
    let kept = still_found(stored, current);
    if stored.len() > 0 && kept.len() == 0 {
        1
    } else if kept.len() != stored.len() || wording_changed(kept, stored) {
        2
    } else {
        0
    }
}

proof fn lemma_still_found_len(stored: Seq<DiagnosisIssue>, current: Seq<DiagnosisIssue>)
    ensures
        still_found(stored, current).len() <= stored.len(),
    decreases stored.len(),
{
    if stored.len() > 0 {
        lemma_still_found_len(stored.drop_last(), current);
    }
}

/// Reconciles a stored run's issues with the issues found now (see
/// `reconcile_action`).
pub fn reconcile_history(stored: &Vec<DiagnosisIssue>, current: &Vec<DiagnosisIssue>) -> (r: HistoryAction)
    ensures
        reconcile_action(stored@, current@) == 0 ==> r is Keep,
        reconcile_action(stored@, current@) == 1 ==> r is Delete,
        reconcile_action(stored@, current@) == 2 ==> (r matches HistoryAction::Replace(k) && k@ == still_found(
            stored@,
            current@,
        )),
{
    let mut kept: Vec<DiagnosisIssue> = Vec::new();
    let mut i: usize = 0;
    while i < stored.len()
        invariant
            i <= stored.len(),
            kept@ == still_found(stored@.subrange(0, i as int), current@),
        decreases stored.len() - i,
    {
        proof {
            let s = stored@.subrange(0, i as int + 1);
            assert(s.drop_last() =~= stored@.subrange(0, i as int));
            assert(s.last() == stored@[i as int]);
        }
        match find_current(current, &stored[i]) {
            Some(k) => {
                kept.push(copy_issue(&current[k]));
            },
            None => {},
        }
        i = i + 1;
    }
    proof {
        assert(stored@.subrange(0, stored.len() as int) =~= stored@);
        lemma_still_found_len(stored@, current@);
    }
    if stored.len() > 0 && kept.len() == 0 {
        return HistoryAction::Delete;
    }
    let mut changed = kept.len() != stored.len();
    let mut j: usize = 0;
    while j < kept.len() && !changed
        invariant
            kept.len() <= stored.len(),
            j <= kept.len(),
            changed ==> (kept.len() != stored.len() || wording_changed(kept@, stored@)),
            !changed ==> kept.len() == stored.len() && forall|k: int| 0 <= k < j ==> #[trigger] kept@[k].message@
                == stored@[k].message@,
        decreases kept.len() - j,
    {
        if kept[j].message != stored[j].message {
            changed = true;
        }
        j = j + 1;
    }
    if changed {
        HistoryAction::Replace(kept)
    } else {
        HistoryAction::Keep
    }
}

/// A stored run is reconciled with itself: when the issues found now are
/// exactly its issues, each with a different identity, it is kept as it is.
pub proof fn lemma_reconcile_unchanged_keeps(stored: Seq<DiagnosisIssue>)
    requires
        forall|a: int, b: int| 0 <= a < b < stored.len() ==> #[trigger] stored[a].identity() != #[trigger] stored[b].identity(),
    ensures
        reconcile_action(stored, stored) == 0,
{
    assert forall|k: int| 0 <= k < stored.len() implies current_match(stored, stored[k]) == Some(stored[k]) by {
        lemma_match_unique(stored, k);
    }
    lemma_still_found_all(stored, stored);
    assert(still_found(stored, stored) =~= stored);
}

proof fn lemma_match_unique(s: Seq<DiagnosisIssue>, k: int)
    requires
        0 <= k < s.len(),
        forall|a: int, b: int| 0 <= a < b < s.len() ==> #[trigger] s[a].identity() != #[trigger] s[b].identity(),
    ensures
        current_match(s, s[k]) == Some(s[k]),
    decreases s.len(),
{
    if k < s.len() - 1 {
        assert(s.last() == s[s.len() - 1]);
        assert(s[k].identity() != s[s.len() - 1].identity());
        let p = s.drop_last();
        assert(p[k] == s[k]);
        assert forall|a: int, b: int| 0 <= a < b < p.len() implies #[trigger] p[a].identity() != #[trigger] p[b].identity() by {
            assert(p[a] == s[a] && p[b] == s[b]);
        }
        lemma_match_unique(p, k);
    }
}

proof fn lemma_still_found_all(stored: Seq<DiagnosisIssue>, current: Seq<DiagnosisIssue>)
    requires
        forall|k: int| 0 <= k < stored.len() ==> current_match(current, #[trigger] stored[k]) == Some(stored[k]),
    ensures
        still_found(stored, current) =~= stored,
    decreases stored.len(),
{
    if stored.len() > 0 {
        let p = stored.drop_last();
        assert forall|k: int| 0 <= k < p.len() implies current_match(current, #[trigger] p[k]) == Some(p[k]) by {
            assert(p[k] == stored[k]);
        }
        lemma_still_found_all(p, current);
        assert(stored.last() == stored[stored.len() - 1]);
    }
}

/// Reconciling is idempotent: a run already reconciled with the issues found
/// now is kept as it is when reconciled with them again.
pub proof fn lemma_reconcile_idempotent(stored: Seq<DiagnosisIssue>, current: Seq<DiagnosisIssue>)
    ensures
        reconcile_action(still_found(stored, current), current) == 0,
{
    let kept = still_found(stored, current);
    lemma_still_found_matches(stored, current);
    lemma_still_found_all(kept, current);
    assert(still_found(kept, current) =~= kept);
    assert(!wording_changed(kept, kept));
}

/// Each issue kept is its own last match among the current issues.
proof fn lemma_still_found_matches(stored: Seq<DiagnosisIssue>, current: Seq<DiagnosisIssue>)
    ensures
        forall|k: int|
            0 <= k < still_found(stored, current).len() ==> current_match(current, #[trigger] still_found(stored, current)[k])
                == Some(still_found(stored, current)[k]),
    decreases stored.len(),
{
    if stored.len() > 0 {
        let rest = still_found(stored.drop_last(), current);
        lemma_still_found_matches(stored.drop_last(), current);
        let all = still_found(stored, current);
        match current_match(current, stored.last()) {
            Some(c) => {
                lemma_match_self(current, stored.last());
                assert forall|k: int| 0 <= k < all.len() implies current_match(current, #[trigger] all[k]) == Some(all[k]) by {
                    if k < rest.len() {
                        assert(all[k] == rest[k]);
                    } else {
                        assert(all[k] == c);
                    }
                }
            },
            None => {
                assert(all == rest);
            },
        }
    }
}

/// The match found for an issue matches itself.
proof fn lemma_match_self(current: Seq<DiagnosisIssue>, i: DiagnosisIssue)
    ensures
        current_match(current, i) matches Some(c) ==> current_match(current, c) == Some(c),
    decreases current.len(),
{
    if current.len() > 0 {
        if current.last().identity() != i.identity() {
            lemma_match_self(current.drop_last(), i);
            if current_match(current.drop_last(), i) is Some {
                let c = current_match(current.drop_last(), i)->0;
                lemma_match_identity(current.drop_last(), i);
                assert(c.identity() == i.identity());
            }
        }
    }
}

/// A match has the identity looked for.
proof fn lemma_match_identity(current: Seq<DiagnosisIssue>, i: DiagnosisIssue)
    ensures
        current_match(current, i) matches Some(c) ==> c.identity() == i.identity(),
    decreases current.len(),
{
    if current.len() > 0 && current.last().identity() != i.identity() {
        lemma_match_identity(current.drop_last(), i);
    }
}

/// Every issue a reconciled run keeps is one of the issues found now.
pub proof fn lemma_kept_issues_are_current(stored: Seq<DiagnosisIssue>, current: Seq<DiagnosisIssue>)
    ensures
        forall|k: int| 0 <= k < still_found(stored, current).len() ==> current.contains(
            #[trigger] still_found(stored, current)[k],
        ),
    decreases stored.len(),
{
    if stored.len() > 0 {
        let rest = still_found(stored.drop_last(), current);
        lemma_kept_issues_are_current(stored.drop_last(), current);
        lemma_match_in(current, stored.last());
        let all = still_found(stored, current);
        assert forall|k: int| 0 <= k < all.len() implies current.contains(#[trigger] all[k]) by {
            if k < rest.len() {
                assert(all[k] == rest[k]);
            }
        }
    }
}

proof fn lemma_match_in(current: Seq<DiagnosisIssue>, i: DiagnosisIssue)
    ensures
        current_match(current, i) matches Some(c) ==> current.contains(c),
    decreases current.len(),
{
    if current.len() > 0 {
        if current.last().identity() == i.identity() {
            assert(current[current.len() - 1] == current.last());
        } else {
            lemma_match_in(current.drop_last(), i);
            if current_match(current.drop_last(), i) is Some {
                let c = current_match(current.drop_last(), i)->0;
                let j = choose|j: int| 0 <= j < current.drop_last().len() && current.drop_last()[j] == c;
                assert(current[j] == c);
            }
        }
    }
}

/// Whether a run repeats the newest stored one (`latest`: its issue count
/// and stored details), so that it is not stored again. With no stored run
/// it never does.
pub fn same_as_latest(latest: Option<(i64, &str)>, issues_found: i64, details: &str) -> (r: bool)
    ensures
        r == match latest {
            Some((n, d)) => n == issues_found && d@ == details@,
            None => false,
        },
{
    match latest {
        Some((n, d)) => {
            if n != issues_found {
                return false;
            }
            String::from_str(d) == String::from_str(details)
        },
        None => false,
    }
}

pub open spec fn msg_bad_run_type() -> Seq<char> {
    "진단 유형이 올바르지 않습니다."@
}

/// A run is either automatic (`auto`) or manual (`manual`); anything else
/// is refused.
pub fn check_run_type(run_type: &str) -> (r: Result<(), AppError>)
    ensures
        run_type@ == "auto"@ || run_type@ == "manual"@ ==> r is Ok,
        !(run_type@ == "auto"@ || run_type@ == "manual"@) ==> (r matches Err(e) && e is UserFacing && e.message_view()
            == msg_bad_run_type()),
{
    proof {
        reveal_strlit("auto");
        reveal_strlit("manual");
    }
    let n = run_type.unicode_len();
    let auto = n == 4 && run_type.get_char(0) == 'a' && run_type.get_char(1) == 'u' && run_type.get_char(2) == 't'
        && run_type.get_char(3) == 'o';
    let manual = n == 6 && run_type.get_char(0) == 'm' && run_type.get_char(1) == 'a' && run_type.get_char(2) == 'n'
        && run_type.get_char(3) == 'u' && run_type.get_char(4) == 'a' && run_type.get_char(5) == 'l';
    proof {
        if auto {
            assert(run_type@ =~= "auto"@);
        }
        if manual {
            assert(run_type@ =~= "manual"@);
        }
    }
    if auto || manual {
        Ok(())
    } else {
        Err(AppError::UserFacing(String::from_str("진단 유형이 올바르지 않습니다.")))
    }
}

/// How many stored runs a history listing returns: `limit` kept within 1 to 120.
pub fn history_limit(limit: i64) -> (r: i64)
    ensures
        r == if limit < 1 { 1 } else if limit > 120 { 120 } else { limit },
{
    if limit < 1 {
        1
    } else if limit > 120 {
        120
    } else {
        limit
    }
}

/// An automatic run is needed when none was stored this month (`done` is the
/// query's 0 or 1).
pub fn auto_needed(done: i64) -> (r: bool)
    ensures
        r == (done == 0),
{
    done == 0
}

/// The summary of a run of all checks over `issues`.
pub fn diagnosis_result(run_date: &str, run_type: &str, issues: Vec<DiagnosisIssue>) -> (r: DiagnosisResult)
    requires
        issues.len() <= i64::MAX,
    ensures
        r.run_date@ == run_date@,
        r.run_type@ == run_type@,
        r.total_checks == TOTAL_CHECKS,
        r.issues_found == issues.len(),
        r.issues@ == issues@,
{
    let n = issues.len() as i64;
    DiagnosisResult {
        run_date: String::from_str(run_date),
        run_type: String::from_str(run_type),
        total_checks: TOTAL_CHECKS,
        issues_found: n,
        issues,
    }
}

} // verus!
