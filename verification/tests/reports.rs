use smarthb::calendar::{deadline_imminence, group_calendar, CalendarSession, DatedSession};
use smarthb::civil::CivilDate;
use smarthb::diagnosis::{
    absent_without_deadline_issue, auto_needed, check_run_type, diagnosis_result, history_limit,
    issue_identity, missing_attendance_issue, missing_billing_issue, negative_makeup_issue, orphan_makeup_issue,
    payment_integrity_issue, reconcile_history, same_as_latest, schedule_mismatch_issue, DiagnosisIssue,
    HistoryAction, TOTAL_CHECKS,
};
use smarthb::expiration::{
    absence_expires, expiration_report, expiry_audit_details, expiry_cutoff, pending_makeup, student_not_found,
    withdrawal_audit_details, withdrawal_memo, ExpiredAbsenceDetail, PendingAbsenceForWithdrawal,
    WithdrawalChoice,
};
use smarthb::generation::generate_result;

fn d(y: i32, m: u32, day: u32) -> CivilDate {
    CivilDate { year: y, month: m, day }
}

fn session(id: i64, name: &str, start: Option<&str>, minutes: i64) -> CalendarSession {
    CalendarSession { student_id: id, student_name: name.to_string(), start_time: start.map(|s| s.to_string()), class_minutes: minutes }
}

fn dated(date: &str, s: CalendarSession) -> DatedSession {
    DatedSession { event_date: date.to_string(), session: s }
}

#[test]
fn calendar_groups_regular_and_makeup_by_day() {
    let regular = vec![dated("2026-06-01", session(1, "원생A", Some("16:00"), 60))];
    let makeup = vec![dated("2026-06-13", session(1, "원생A", None, 60))];
    let result = group_calendar("2026-06", regular, makeup);
    assert_eq!(result.year_month, "2026-06");
    assert_eq!(result.days.len(), 2);
    let day1 = &result.days[0];
    assert_eq!(day1.event_date, "2026-06-01");
    assert_eq!(day1.regular_sessions.len(), 1);
    assert_eq!(day1.regular_sessions[0].student_name, "원생A");
    assert_eq!(day1.regular_sessions[0].start_time.as_deref(), Some("16:00"));
    assert_eq!(day1.regular_sessions[0].class_minutes, 60);
    assert!(day1.makeup_sessions.is_empty());
    let day2 = &result.days[1];
    assert_eq!(day2.event_date, "2026-06-13");
    assert!(day2.regular_sessions.is_empty());
    assert_eq!(day2.makeup_sessions.len(), 1);
    assert!(day2.makeup_sessions[0].start_time.is_none());
}

#[test]
fn calendar_orders_days_and_keeps_order_within_a_day() {
    let regular = vec![
        dated("2026-06-10", session(1, "가", Some("15:00"), 60)),
        dated("2026-06-02", session(2, "나", Some("16:00"), 90)),
        dated("2026-06-10", session(3, "다", Some("17:00"), 120)),
    ];
    let makeup = vec![dated("2026-06-02", session(4, "라", None, 30)), dated("2026-06-05", session(5, "마", None, 60))];
    let r = group_calendar("2026-06", regular, makeup);
    let dates: Vec<&str> = r.days.iter().map(|x| x.event_date.as_str()).collect();
    assert_eq!(dates, vec!["2026-06-02", "2026-06-05", "2026-06-10"]);
    let ids: Vec<i64> = r.days[2].regular_sessions.iter().map(|s| s.student_id).collect();
    assert_eq!(ids, vec![1, 3]);
    assert_eq!(r.days[0].makeup_sessions[0].student_id, 4);
    assert!(group_calendar("2026-07", Vec::new(), Vec::new()).days.is_empty());
}

#[test]
fn imminence_of_make_up_deadlines() {
    let today = d(2026, 6, 25);
    assert_eq!(deadline_imminence(false, Some("2026-06-30"), today), Ok(false));
    assert_eq!(deadline_imminence(true, None, today), Ok(false));
    assert_eq!(deadline_imminence(true, Some("2026-06-30"), today), Ok(true));
    assert_eq!(deadline_imminence(true, Some("2026-07-02"), today), Ok(true));
    assert_eq!(deadline_imminence(true, Some("2026-07-03"), today), Ok(false));
    assert_eq!(deadline_imminence(true, Some("2026-06-24"), today), Ok(false));
    assert_eq!(deadline_imminence(true, Some("2026-06-25"), today), Ok(true));
    let e = deadline_imminence(true, Some("2026/06/30"), today).unwrap_err();
    assert!(e.starts_with("교습기간 종료일 파싱 실패: "));
}

#[test]
fn diagnosis_issue_messages() {
    assert!(negative_makeup_issue(1, "김학생", 0).is_none());
    let i = negative_makeup_issue(7, "김학생", -30).unwrap();
    assert_eq!(i.check_id, "negative_makeup_minutes");
    assert_eq!(i.severity, "error");
    assert_eq!(i.message, "김학생 원생의 보강필요시간이 음수입니다 (30분 초과 보강). 출결/보강 기록을 확인해주세요.");
    assert_eq!(i.target_table.as_deref(), Some("students"));
    assert_eq!(i.target_id, Some(7));
    let i = missing_attendance_issue(2, "가", "2026-06");
    assert_eq!(i.message, "가 원생의 2026-06 정규 출결이 생성되지 않았습니다.");
    assert_eq!(i.check_id, "missing_attendance");
    let i = missing_billing_issue(2, "가", "2026-06");
    assert_eq!(i.message, "가 원생의 2026-06 청구가 생성되지 않았습니다.");
    assert_eq!(i.target_table.as_deref(), Some("bills"));
    let i = schedule_mismatch_issue(9, "가", "2026-06-03");
    assert_eq!(i.check_id, "schedule_attendance_mismatch");
    let i = absent_without_deadline_issue(9, "가", "2026-06-03");
    assert_eq!(i.message, "가 원생의 2026-06-03 결석에 보강 소멸기한이 설정되지 않았습니다.");
    let i = orphan_makeup_issue(4, "가", "2026-06-05");
    assert_eq!(i.target_table.as_deref(), Some("makeup_attendances"));
    let i = payment_integrity_issue(5, "가", "2026-06", None);
    assert_eq!(i.message, "가 원생 2026-06 수납 정합성 오류 — 결제수단 누락.");
    let i = payment_integrity_issue(5, "가", "2026-06", Some(2));
    assert_eq!(i.message, "가 원생 2026-06 수납 정합성 오류 — 카드 결제인데 카드사 누락.");
}

fn issue(check: &str, id: i64, msg: &str) -> DiagnosisIssue {
    DiagnosisIssue { check_id: check.into(), severity: "warning".into(), message: msg.into(), target_table: Some("bills".into()), target_id: Some(id) }
}

#[test]
fn reconcile_drops_resolved_and_rewords_remaining() {
    let stored = vec![issue("a", 1, "old"), issue("b", 2, "x")];
    let current = vec![issue("a", 1, "new")];
    match reconcile_history(&stored, &current) {
        HistoryAction::Replace(k) => {
            assert_eq!(k.len(), 1);
            assert_eq!(k[0].message, "new");
        }
        _ => panic!("expected a replacement"),
    }
    assert!(matches!(reconcile_history(&stored, &Vec::new()), HistoryAction::Delete));
    assert!(matches!(reconcile_history(&stored, &stored.clone()), HistoryAction::Keep));
    assert!(matches!(reconcile_history(&Vec::new(), &current), HistoryAction::Keep), "a clean run stays");
    let (c, t, id) = issue_identity(&stored[0]);
    assert_eq!((c.as_str(), t.as_deref(), id), ("a", Some("bills"), Some(1)));
}

#[test]
fn reconcile_uses_the_last_current_issue_with_an_identity() {
    let stored = vec![issue("a", 1, "old")];
    let current = vec![issue("a", 1, "first"), issue("a", 1, "second")];
    match reconcile_history(&stored, &current) {
        HistoryAction::Replace(k) => assert_eq!(k[0].message, "second"),
        _ => panic!("expected a replacement"),
    }
}

#[test]
fn diagnosis_run_rules() {
    assert!(check_run_type("auto").is_ok());
    assert!(check_run_type("manual").is_ok());
    assert_eq!(check_run_type("Auto").unwrap_err().user_message(), "진단 유형이 올바르지 않습니다.");
    assert_eq!(history_limit(0), 1);
    assert_eq!(history_limit(500), 120);
    assert_eq!(history_limit(12), 12);
    assert!(auto_needed(0));
    assert!(!auto_needed(1));
    assert!(same_as_latest(Some((2, "[x]")), 2, "[x]"));
    assert!(!same_as_latest(Some((2, "[x]")), 1, "[x]"));
    assert!(!same_as_latest(Some((2, "[x]")), 2, "[y]"));
    assert!(!same_as_latest(None, 0, "[]"));
    let r = diagnosis_result("2026-06-01", "auto", vec![issue("a", 1, "m")]);
    assert_eq!(r.total_checks, TOTAL_CHECKS);
    assert_eq!(r.issues_found, 1);
    assert_eq!(r.run_type, "auto");
}

#[test]
fn expiration_helpers() {
    let detail = ExpiredAbsenceDetail { student_id: 1, student_name: "S001".into(), event_date: "2026-05-15".into(), makeup_deadline: "2026-06".into() };
    let rep = expiration_report(vec![detail]);
    assert_eq!(rep.transitioned_count, 1);
    assert_eq!(expiry_cutoff(Some(d(2026, 7, 1)), d(2026, 1, 1)), "2026-07-01");
    assert_eq!(expiry_cutoff(None, d(2026, 1, 1)), "2026-01-01");
    let absences = vec![
        PendingAbsenceForWithdrawal { id: 1, event_date: "2026-05-01".into(), class_minutes: 60, makeup_deadline: Some("2026-06".into()) },
        PendingAbsenceForWithdrawal { id: 2, event_date: "2026-05-08".into(), class_minutes: 90, makeup_deadline: None },
    ];
    let p = pending_makeup(3, absences);
    assert_eq!(p.remaining_minutes, 150);
    assert_eq!(p.absences.len(), 2);
    assert_eq!(withdrawal_memo(&WithdrawalChoice::ImmediateExpire), None);
    let memo = "외부 보강".to_string();
    assert_eq!(withdrawal_memo(&WithdrawalChoice::ExternalExpire { memo: memo.clone() }), Some(&memo));
    assert_eq!(student_not_found(12), "원생을 찾을 수 없습니다 (id=12).");
    assert_eq!(expiry_audit_details("2026-05-15", "2026-06"), r#"{"eventDate":"2026-05-15","makeupDeadline":"2026-06"}"#);
    assert_eq!(withdrawal_audit_details(42), r#"{"attendanceId":42,"trigger":"withdrawal"}"#);
}

#[test]
fn generation_result_is_fail_soft_on_expiry() {
    let r = generate_result("2026-06", 2, 17, Err("db busy".into()));
    assert_eq!(r.student_count, 2);
    assert_eq!(r.attendance_count, 17);
    assert_eq!(r.expiration_report.transitioned_count, 0);
    let r = generate_result("2026-06", 0, 0, Ok(expiration_report(Vec::new())));
    assert_eq!(r.year_month, "2026-06");
}

#[test]
fn reconcile_twice_changes_nothing() {
    let stored = vec![issue("a", 1, "old"), issue("b", 2, "x"), issue("c", 3, "y")];
    let current = vec![issue("c", 3, "y2"), issue("a", 1, "new")];
    let kept = match reconcile_history(&stored, &current) {
        HistoryAction::Replace(k) => k,
        _ => panic!("expected a replacement"),
    };
    let messages: Vec<&str> = kept.iter().map(|i| i.message.as_str()).collect();
    assert_eq!(messages, vec!["new", "y2"], "stored order, current wording");
    assert!(matches!(reconcile_history(&kept, &current), HistoryAction::Keep));
}

#[test]
fn expiry_rule_follows_the_deadline_period() {
    assert!(absence_expires("absent", false, Some("2026-06"), Some("2026-06-30"), "2026-07-01"), "period ended");
    assert!(absence_expires("absent", false, Some("2026-06"), Some("2026-06-30"), "2026-06-30"), "ends on the cutoff");
    assert!(!absence_expires("absent", false, Some("2026-06"), Some("2026-06-30"), "2026-06-15"), "deadline not reached");
    assert!(!absence_expires("makeup_done", false, Some("2026-06"), Some("2026-06-30"), "2026-07-01"));
    assert!(!absence_expires("makeup_expired", false, Some("2026-06"), Some("2026-06-30"), "2026-07-01"));
    assert!(!absence_expires("absent", true, Some("2026-06"), Some("2026-06-30"), "2026-07-01"), "matched to a make-up");
    assert!(!absence_expires("absent", false, Some("2026-06"), None, "2027-01-01"), "period not registered");
    assert!(!absence_expires("absent", false, None, Some("2026-06-30"), "2027-01-01"), "no deadline");
}
