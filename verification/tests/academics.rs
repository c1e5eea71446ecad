use smarthb::academic::{
    cascade_delete_decision, cascade_delete_guard, cascade_delete_preview, check_code_update, check_event_delete,
    check_event_update, check_period_consistency, check_period_overlap, check_placement_constraints,
    check_study_period_delete, check_study_period_update, duplicate_code_message, is_operating_day, iso_dow_of,
    placement_needs_operating_day, try_assessment_dates, ExistingEvent,
};
use smarthb::billing::{
    bill_missing_message, bill_totals, billable_students, billing_summary, billing_targets, bills_result,
    check_bill_confirm, check_bill_delete, check_bill_update, check_billing_period, check_payment_input,
    period_like_pattern, period_stats, plan_bills, search_query, BillPaymentRow, BillingSchedule, BillingStudent,
    PaymentInput,
};
use smarthb::civil::CivilDate;
use smarthb::dashboard::{
    attendance_progress, alert_next_month, count_in_month_exec, dashboard_alerts, gender_distribution,
    grade_distribution, last_day_of_month, monthly_summary, quarterly_enrollments, recent_quarters, today_slots,
};

fn d(y: i32, m: u32, day: u32) -> CivilDate {
    CivilDate { year: y, month: m, day }
}

fn ev(name: &str, dup: i64, regular: i64, mk: i64) -> ExistingEvent {
    ExistingEvent { is_duplicate_blocked: dup, code_name: name.into(), allows_regular_class: regular, allows_makeup_class: mk }
}

#[test]
fn placement_rules_in_order() {
    assert_eq!(
        check_placement_constraints("보강데이", false, &Vec::new(), true, 0, 1).unwrap_err(),
        "보강데이는 수업이 있는 일자에는 배치할 수 없습니다. 휴원일/방학/공휴일 등 수업 없는 일자에만 가능합니다."
    );
    assert!(check_placement_constraints("보강데이", false, &vec![ev("휴원일", 0, 0, 0)], true, 0, 1).is_ok());
    assert_eq!(
        check_placement_constraints("공휴수업일", false, &Vec::new(), false, 0, 1).unwrap_err(),
        "공휴수업일은 공휴일이 지정된 날에만 배치할 수 있습니다."
    );
    assert!(check_placement_constraints("공휴수업일", false, &vec![ev("공휴일", 1, 0, 0)], false, 0, 1).is_ok());
    assert_eq!(
        check_placement_constraints("공휴수업일", false, &vec![ev("공휴일", 1, 0, 0), ev("방학", 0, 0, 0)], false, 0, 1).unwrap_err(),
        "공휴수업일은 공휴일 외 다른 일정과 중복될 수 없습니다."
    );
    assert_eq!(
        check_placement_constraints("휴원일", true, &vec![ev("시험", 0, 1, 1)], false, 0, 1).unwrap_err(),
        "중복불가 코드는 다른 일정이 있는 날짜에 배치할 수 없습니다."
    );
    assert_eq!(
        check_placement_constraints("시험", false, &vec![ev("휴원일", 1, 0, 0)], false, 0, 1).unwrap_err(),
        "해당 일자에 중복불가 일정이 있어 배치할 수 없습니다."
    );
    assert_eq!(check_placement_constraints("시험", false, &Vec::new(), false, 1, 1).unwrap_err(), "동일 일자에 같은 코드의 일정이 이미 존재합니다.");
    assert_eq!(check_placement_constraints("시험", false, &Vec::new(), false, 0, 0).unwrap_err(), "학사 일정은 확정된 교습기간 내 일자에만 배치할 수 있습니다.");
    assert!(placement_needs_operating_day("보강데이"));
    assert!(!placement_needs_operating_day("휴원일"));
}

#[test]
fn operating_days_and_weekdays() {
    let hours = vec![(6, false, false), (1, true, true), (2, true, false)];
    assert!(is_operating_day(&hours, 1));
    assert!(!is_operating_day(&hours, 2));
    assert!(!is_operating_day(&hours, 6));
    assert!(is_operating_day(&hours, 3), "no row means open");
    assert_eq!(iso_dow_of("2026-06-01"), 1);
    assert_eq!(iso_dow_of("2026-06-07"), 7);
}

#[test]
fn event_and_code_guards() {
    assert_eq!(check_period_consistency(true, None).unwrap_err(), "기간성 코드는 종료 일자(period_end_date) 가 필요합니다.");
    assert_eq!(check_period_consistency(false, Some("2026-06-30")).unwrap_err(), "단일 일자 코드는 종료 일자를 지정할 수 없습니다.");
    assert!(check_period_consistency(true, Some("2026-06-30")).is_ok());
    assert_eq!(check_event_update(None, "2026-06").unwrap_err(), "해당 학사 일정을 찾을 수 없습니다.");
    assert_eq!(check_event_update(Some("2026-05-31"), "2026-06").unwrap_err(), "지난 달의 학사 일정은 수정할 수 없습니다.");
    assert!(check_event_update(Some("2026-06-01"), "2026-06").is_ok());
    assert_eq!(check_event_delete(Some(("2026-07-01", 1, "공휴일", 1)), "2026-06").unwrap_err(), "시드된 공휴일은 삭제할 수 없습니다.");
    assert_eq!(check_event_delete(Some(("2026-05-01", 0, "시험", 0)), "2026-06").unwrap_err(), "지난 달의 학사 일정은 삭제할 수 없습니다.");
    assert!(check_event_delete(Some(("2026-07-01", 0, "시험", 0)), "2026-06").is_ok());
    assert_eq!(check_code_update(None).unwrap_err(), "해당 학사 일정 코드를 찾을 수 없습니다.");
    assert_eq!(check_code_update(Some(1)).unwrap_err(), "시스템 예약 코드의 속성은 수정할 수 없습니다.");
    assert!(check_code_update(Some(0)).is_ok());
    assert_eq!(duplicate_code_message("시험"), "이미 존재하는 코드명입니다: 시험");
}

#[test]
fn study_period_guards() {
    let periods = vec![(1, "2026-06-01".to_string(), "2026-06-30".to_string())];
    assert_eq!(check_period_overlap(&periods, "2026-06-15", "2026-07-15", None).unwrap_err(), "다른 교습기간과 일자가 중첩됩니다.");
    assert!(check_period_overlap(&periods, "2026-06-15", "2026-07-15", Some(1)).is_ok());
    assert!(check_period_overlap(&periods, "2026-07-01", "2026-07-31", None).is_ok());
    assert_eq!(check_study_period_update(None, "2026-06").unwrap_err(), "해당 교습기간을 찾을 수 없습니다.");
    assert_eq!(check_study_period_update(Some(("2026-06", 1)), "2026-06").unwrap_err(), "마감된 교습기간은 수정할 수 없습니다.");
    assert_eq!(check_study_period_update(Some(("2026-05", 0)), "2026-06").unwrap_err(), "지난 달의 교습기간은 수정할 수 없습니다.");
    assert!(check_study_period_update(Some(("2026-06", 0)), "2026-06").is_ok());
    assert_eq!(check_study_period_delete(Some((1, 0))).unwrap_err(), "확정 또는 마감된 교습기간은 삭제할 수 없습니다.");
    assert!(check_study_period_delete(Some((0, 0))).is_ok());
    assert_eq!(cascade_delete_guard(0, "2026-06", "2026-06"), (false, Some("미확정 교습기간은 일반 삭제 IPC 를 사용하세요.".to_string())));
    assert_eq!(cascade_delete_guard(1, "2026-05", "2026-06"), (false, Some("지난 달의 교습기간은 삭제할 수 없습니다.".to_string())));
    assert_eq!(cascade_delete_guard(1, "2026-06", "2026-06"), (true, None));
    assert_eq!(cascade_delete_decision(false, None).unwrap_err(), "삭제할 수 없습니다.");
    let events = vec![("2026-06-03".to_string(), "공휴일".to_string()), ("2026-06-10".to_string(), "시험".to_string()), ("2026-07-01".to_string(), "시험".to_string())];
    let p = cascade_delete_preview(&events, "2026-06-01", "2026-06-30", true, None);
    assert_eq!((p.affected_count, p.holiday_count), (1, 1));
}

#[test]
fn assessment_dates_fall_on_second_and_fourth_week() {
    let dates = try_assessment_dates("2026-06").unwrap().unwrap();
    assert_eq!(dates[0], d(2026, 6, 8));
    assert_eq!(dates[4], d(2026, 6, 12));
    assert_eq!(dates[5], d(2026, 6, 22));
    assert_eq!(dates[9], d(2026, 6, 26));
    assert!(try_assessment_dates("2026-13").unwrap().is_err());
}

fn student(id: i64, enroll: &str, withdraw: Option<&str>, hours: &[i64]) -> BillingStudent {
    BillingStudent {
        student_id: id,
        enroll_date: enroll.into(),
        withdraw_date: withdraw.map(|s| s.to_string()),
        schedules: hours.iter().map(|h| BillingSchedule { duration_hours: *h, effective_from: "2026-01-01".into(), effective_to: None }).collect(),
    }
}

#[test]
fn bill_generation_prices_by_weekly_hours() {
    assert_eq!(check_billing_period("2026-06", None).unwrap_err(), "2026-06 교습기간이 등록되지 않았습니다. 학사 캘린더에서 먼저 교습기간을 등록하세요.");
    let students = vec![
        student(1, "2026-01-01", None, &[1, 2]),
        student(2, "2026-06-10", None, &[4]),
        student(3, "2026-01-01", Some("2026-05-20"), &[3]),
        student(4, "2026-01-01", None, &[]),
        student(5, "2026-01-01", None, &[6]),
    ];
    let cands = billing_targets(&students, "2026-06-01", "2026-06-30").unwrap();
    assert_eq!(cands.len(), 4, "the student who left in May is not billed");
    let fees = vec![(3, 200000), (4, 250000), (3, 210000)];
    let (drafts, skipped) = plan_bills(&cands, &fees, "2026-06-01", "2026-06-30");
    assert_eq!(drafts.len() as i64 + skipped, cands.len() as i64);
    assert_eq!(drafts.len(), 2, "no hours and no fee are skipped");
    assert_eq!(drafts[0].bill_amount, 210000, "the last fee row for an hour count wins");
    assert!(!drafts[0].is_mid_month);
    assert_eq!(drafts[1].mid_month_type.as_deref(), Some("enrolled"));
    assert_eq!(billable_students(&cands), 3);
    let r = bills_result("2026-06", 1, &vec![true, false]);
    assert_eq!((r.generated_count, r.skipped_count), (1, 2));
}

#[test]
fn bill_guards_and_payments() {
    assert_eq!(bill_missing_message(7), "청구를 찾을 수 없습니다 (id=7).");
    assert_eq!(check_bill_update(7, -1, Some(None)).unwrap_err(), "조정 금액은 0 이상이어야 합니다.");
    assert_eq!(check_bill_update(7, 10, None).unwrap_err(), "청구를 찾을 수 없습니다 (id=7).");
    assert_eq!(check_bill_update(7, 10, Some(Some(1))).unwrap_err(), "수납완료된 청구는 수정할 수 없습니다.");
    assert!(check_bill_update(7, 10, Some(Some(0))).is_ok());
    assert_eq!(check_bill_delete(7, Some(Some(1))).unwrap_err(), "수납완료된 청구는 삭제할 수 없습니다. 먼저 수납을 해제하세요.");
    assert!(check_bill_delete(7, Some(None)).is_ok());
    assert_eq!(check_bill_confirm(7, Some("confirmed")).unwrap_err(), "확정은 미확정(draft) 상태에서만 가능합니다 (현재: confirmed).");
    assert!(check_bill_confirm(7, Some("draft")).is_ok());
    let paid = |date: Option<&str>, method: Option<i64>, card: Option<i64>| PaymentInput {
        bill_id: 1,
        is_paid: true,
        paid_date: date.map(|s| s.to_string()),
        payer_name: None,
        payment_method_id: method,
        card_company_id: card,
    };
    assert_eq!(check_payment_input(&paid(None, Some(1), None), Some(0)).unwrap_err(), "입금 완료 상태에는 입금일이 필요합니다.");
    assert_eq!(check_payment_input(&paid(Some("2026-06-01"), None, None), None).unwrap_err(), "입금 완료 상태에는 결제수단이 필요합니다.");
    assert_eq!(check_payment_input(&paid(Some("2026-06-01"), Some(3), None), None).unwrap_err(), "결제수단을 찾을 수 없습니다 (id=3).");
    assert_eq!(check_payment_input(&paid(Some("2026-06-01"), Some(3), None), Some(1)).unwrap_err(), "카드 계열 결제수단은 카드사를 함께 선택해야 합니다.");
    assert!(check_payment_input(&paid(Some("2026-06-01"), Some(3), Some(2)), Some(1)).is_ok());
}

#[test]
fn totals_summaries_and_patterns() {
    let rows = vec![
        BillPaymentRow { adjusted_amount: 100, is_paid: Some(1) },
        BillPaymentRow { adjusted_amount: 50, is_paid: Some(0) },
        BillPaymentRow { adjusted_amount: 30, is_paid: None },
    ];
    let t = bill_totals(&rows).unwrap();
    assert_eq!((t.bill_count, t.total_billed, t.total_paid, t.paid_count), (3, 180, 100, 1));
    let s = billing_summary("2026-06", 4, t);
    assert_eq!((s.total_unpaid, s.unpaid_count), (80, 2));
    let t = bill_totals(&rows).unwrap();
    let p = period_stats("2026", t, Vec::new());
    assert_eq!(p.total_unpaid, 80);
    assert!(bill_totals(&vec![BillPaymentRow { adjusted_amount: i64::MAX, is_paid: None }, BillPaymentRow { adjusted_amount: 1, is_paid: None }]).is_none());
    assert_eq!(period_like_pattern("2026").unwrap(), "2026-%");
    assert_eq!(period_like_pattern("2026-06").unwrap(), "2026-06");
    assert!(period_like_pattern("26-6").is_err());
    assert_eq!(search_query("  김학생 ").as_deref(), Some("김학생"));
    assert_eq!(search_query("   "), None);
}

#[test]
fn dashboard_figures() {
    let g = gender_distribution(&vec![("male".to_string(), 3), ("female".to_string(), 2)]);
    assert_eq!((g[0].label.as_str(), g[0].count, g[1].label.as_str()), ("남", 3, "여"));
    let gr = grade_distribution(&vec![("elementary".to_string(), 3, 1), ("middle".to_string(), 1, 2)]);
    assert_eq!((gr[0].label.as_str(), gr[1].label.as_str()), ("초3", "중1"));
    let qs = recent_quarters(d(2026, 6, 4));
    let enroll = vec![Some("2026-06-02".to_string()), Some("2026-04-10".to_string()), None];
    let withdraw = vec![Some("2026-03-15".to_string())];
    let q = quarterly_enrollments(&qs, &enroll, &withdraw);
    assert_eq!(q[3].label, "2026 2분기");
    assert_eq!(q[3].enrolled, 1);
    assert_eq!(q[2].enrolled, 1);
    assert_eq!(q[2].withdrawn, 1);
    let slots = today_slots(&vec![("15:00".into(), "가".into()), ("15:00".into(), "나".into()), ("16:00".into(), "다".into())]);
    assert_eq!(slots.len(), 2);
    assert_eq!(slots[0].students, vec!["가", "나"]);
    assert_eq!(count_in_month_exec(&enroll, "2026-06"), 1);
    let m = monthly_summary("2026-06", 500, 200, 5, 2, 1, 0, 12);
    assert_eq!(m.unpaid_total, 300);
    assert_eq!(last_day_of_month("2024-02").unwrap(), d(2024, 2, 29));
    assert!(last_day_of_month("2024-13").is_err());
    let p = attendance_progress("2026-06", d(2026, 6, 10), &vec![1, 3], &vec!["2026-06-01".to_string()]).unwrap();
    assert_eq!(p.expected_days, 4, "Mondays and Wednesdays up to the 10th");
    assert_eq!(p.recorded_days, 1);
    assert_eq!(p.missing_dates, vec!["2026-06-03", "2026-06-08", "2026-06-10"]);
    assert_eq!(alert_next_month(d(2026, 6, 24)), None);
    assert_eq!(alert_next_month(d(2026, 12, 25)).as_deref(), Some("2027-01"));
    let alerts = dashboard_alerts(2, 0, 1, Some("2026-07".to_string()), 0, Some(3));
    let kinds: Vec<&str> = alerts.iter().map(|a| a.kind.as_str()).collect();
    assert_eq!(kinds, vec!["attendance_missing", "draft_bills", "academic_not_set", "diagnosis_issues"]);
    assert_eq!(alerts[0].message, "출결 미입력 일자가 2일 있습니다.");
    assert_eq!(alerts[2].message, "다음 달(2026-07) 교습기간이 아직 수립되지 않았습니다.");
}

#[test]
fn year_month_of_is_none_when_byte_7_splits_a_character() {
    assert_eq!(smarthb::academic::year_month_of("2099-0가"), None);
    assert_eq!(
        check_event_update(Some("2099-0가"), "2099-01").unwrap_err(),
        "기존 일자 형식 오류"
    );
}

#[test]
fn dashboard_alerts_report_only_positive_counts() {
    let none = dashboard_alerts(0, -1, 0, Some("2026-07".to_string()), 2, Some(0));
    assert!(none.is_empty());
    let period = dashboard_alerts(0, 0, 0, Some("2026-07".to_string()), 0, None);
    assert_eq!(period.len(), 1);
    assert_eq!(period[0].kind, "academic_not_set");
    assert_eq!(period[0].count, 1);
    let all = dashboard_alerts(1, 2, 3, None, 0, Some(4));
    assert!(all.iter().all(|a| a.count > 0));
    assert!(all.iter().all(|a| a.kind != "academic_not_set"));
}
