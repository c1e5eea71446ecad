use smarthb::attendance::ScheduleSlice;
use smarthb::civil::CivilDate;
use smarthb::generation::{day_sync_action, DaySyncAction};
use smarthb::generation::{check_generation_period, plan_generation, regular_classes_off, sync_dates, GenerationStudent};
use smarthb::grid::{
    build_day_schedules, compute_summary, earliest_pending_absence, grid_student, parse_day_events,
    pending_absences, AttendanceRecord, DayEventRow, GridStudentRow, MakeupRecord,
};

fn d(y: i32, m: u32, day: u32) -> CivilDate {
    CivilDate { year: y, month: m, day }
}

fn row(date: &str, status: &str, minutes: i64, matched: Option<i64>, deadline: Option<&str>) -> AttendanceRecord {
    AttendanceRecord {
        event_date: date.to_string(),
        year_month: date[..7].to_string(),
        status: status.to_string(),
        class_minutes: minutes,
        makeup_attendance_id: matched,
        makeup_deadline: deadline.map(|s| s.to_string()),
    }
}

fn makeup(ym: &str, status: &str, minutes: i64) -> MakeupRecord {
    MakeupRecord { year_month: ym.to_string(), status: status.to_string(), class_minutes: minutes }
}

fn event(start: &str, end: &str, name: &str, regular: i64, mk: i64) -> DayEventRow {
    DayEventRow { event_date: start.into(), end_date: end.into(), code_name: name.into(), allows_regular_class: regular, allows_makeup_class: mk }
}

#[test]
fn summary_counts_and_owed_minutes() {
    let rows = vec![
        row("2026-06-01", "present", 60, None, None),
        row("2026-06-08", "absent", 60, None, Some("2026-07")),
        row("2026-06-15", "absent", 90, Some(3), Some("2026-07")),
        row("2026-05-25", "absent", 30, None, Some("2026-05")),
        row("2026-05-18", "absent", 45, None, Some("2026-06")),
    ];
    let makeups = vec![makeup("2026-06", "makeup_attended", 60), makeup("2026-06", "makeup_scheduled", 60), makeup("2026-05", "makeup_attended", 30)];
    let s = compute_summary(7, "2026-06", &rows, false, &makeups).unwrap();
    assert_eq!(s.present_count, 1);
    assert_eq!(s.absent_count, 2);
    assert_eq!(s.makeup_needed_minutes, 105, "60 owed this month + 45 with a deadline not yet passed");
    assert_eq!(s.makeup_completed_minutes, 60);
    let w = compute_summary(7, "2026-06", &rows, true, &makeups).unwrap();
    assert_eq!(w.makeup_needed_minutes, 0, "a withdrawn student owes nothing");
    let pending = pending_absences(&rows, "2026-06", false);
    let total: i64 = pending.iter().map(|p| p.class_minutes).sum();
    assert_eq!(total, s.makeup_needed_minutes, "the owed minutes are the listed absences");
    assert!(pending_absences(&rows, "2026-06", true).is_empty());
    assert_eq!(earliest_pending_absence(&rows, "2026-06").as_deref(), Some("2026-05-18"));
    assert_eq!(earliest_pending_absence(&rows[..1].to_vec(), "2026-06"), None);
}

#[test]
fn summary_reports_overflow() {
    let rows = vec![row("2026-06-01", "absent", i64::MAX, None, None), row("2026-06-02", "absent", 1, None, None)];
    assert_eq!(compute_summary(1, "2026-06", &rows, false, &Vec::new()).unwrap_err(), "보강필요시간 조회 실패: integer overflow");
    let mk = vec![makeup("2026-06", "makeup_attended", i64::MAX), makeup("2026-06", "makeup_attended", 1)];
    assert_eq!(compute_summary(1, "2026-06", &Vec::new(), false, &mk).unwrap_err(), "보강완료 조회 실패: integer overflow");
}

#[test]
fn day_schedules_fold_events_per_day() {
    let rows = vec![event("2026-06-03", "2026-06-04", "휴원일", 0, 0), event("2026-06-04", "2026-06-04", "보강데이", 0, 1)];
    let days = build_day_schedules("2026-06", &rows).unwrap();
    assert_eq!(days.len(), 2);
    assert_eq!(days[0].event_date, "2026-06-03");
    assert!(days[0].is_block && days[0].regular_blocked && !days[0].allows_makeup);
    assert_eq!(days[0].label, "휴원일");
    assert!(days[1].allows_makeup);
    assert_eq!(days[1].label, "보강데이");
    assert!(parse_day_events(&vec![event("x", "2026-06-04", "a", 1, 1)]).is_err());
}

#[test]
fn grid_row_carries_summary_and_pending() {
    let student = GridStudentRow { student_id: 4, name: "가".into(), serial_no: "S4".into(), school_level: "elementary".into(), grade: 3, enroll_date: "2026-01-01".into(), withdraw_date: None };
    let rows = vec![row("2026-06-08", "absent", 60, None, Some("2026-07"))];
    let g = grid_student(student, "2026-06", vec![1], Vec::new(), Vec::new(), &rows, &Vec::new()).unwrap();
    assert_eq!(g.summary.makeup_needed_minutes, 60);
    assert_eq!(g.pending_absences.len(), 1);
    assert_eq!(g.earliest_pending_absence_date.as_deref(), Some("2026-06-08"));
    assert_eq!(g.schedule_days, vec![1]);
}

#[test]
fn generation_period_checks() {
    assert_eq!(
        check_generation_period("2026-06", None).unwrap_err(),
        "2026-06 교습기간이 설정되지 않았습니다. 학사 캘린더에서 먼저 교습기간을 설정하세요."
    );
    assert_eq!(
        check_generation_period("2026-06", Some(("2026-06-01".into(), "2026-06-30".into(), 0))).unwrap_err(),
        "2026-06 교습기간이 아직 확정되지 않았습니다. 교습기간을 확정한 후 다시 시도하세요."
    );
    assert_eq!(
        check_generation_period("2026-06", Some(("2026-06-01".into(), "2026-06-30".into(), 1))).unwrap(),
        ("2026-06-01".to_string(), "2026-06-30".to_string())
    );
    assert!(check_generation_period("26-06", None).is_err());
}

#[test]
fn generation_plans_each_student() {
    let students = vec![
        GenerationStudent { id: 1, enroll_date: "2026-01-01".into(), withdraw_date: None, slices: vec![ScheduleSlice { day_of_week: 5, minutes: 120, effective_from: "2026-01-01".into(), effective_to: None }] },
        GenerationStudent { id: 2, enroll_date: "2026-01-01".into(), withdraw_date: None, slices: Vec::new() },
    ];
    let plans = plan_generation(&students, d(2026, 6, 1), d(2026, 6, 30), &vec!["2026-06-12".to_string()]).unwrap();
    let p1 = plans.iter().find(|p| p.student_id == 1).unwrap();
    let days: Vec<&str> = p1.attendances.iter().map(|a| a.event_date.as_str()).collect();
    assert_eq!(days, vec!["2026-06-05", "2026-06-19", "2026-06-26"]);
    assert!(plans.iter().all(|p| p.student_id != 2 || p.attendances.is_empty()));
}

#[test]
fn sync_dates_and_regular_class_rule() {
    assert_eq!(sync_dates("2026-06-29", Some("2026-07-01")).unwrap(), vec!["2026-06-29", "2026-06-30", "2026-07-01"]);
    assert_eq!(sync_dates("2026-06-29", None).unwrap(), vec!["2026-06-29"]);
    assert!(sync_dates("bad", None).is_err());
    assert!(regular_classes_off(1, 0));
    assert!(!regular_classes_off(1, 1));
    assert!(!regular_classes_off(0, 0));
}

#[test]
fn grid_pending_absences_come_by_day() {
    let student = GridStudentRow { student_id: 5, name: "나".into(), serial_no: "S5".into(), school_level: "middle".into(), grade: 1, enroll_date: "2026-01-01".into(), withdraw_date: None };
    let rows = vec![
        row("2026-05-11", "absent", 45, None, Some("2026-06")),
        row("2026-06-01", "present", 60, None, None),
        row("2026-06-08", "absent", 60, None, None),
        row("2026-06-15", "absent", 30, None, Some("2026-07")),
    ];
    let g = grid_student(student, "2026-06", vec![1], Vec::new(), Vec::new(), &rows, &Vec::new()).unwrap();
    let days: Vec<&str> = g.pending_absences.iter().map(|p| p.event_date.as_str()).collect();
    assert_eq!(days, vec!["2026-05-11", "2026-06-08", "2026-06-15"]);
    assert_eq!(g.summary.makeup_needed_minutes, 135);
}

#[test]
fn day_schedules_come_in_rising_day_order() {
    let rows = vec![
        event("2026-06-20", "2026-06-21", "행사", 1, 1),
        event("2026-06-03", "2026-06-04", "휴원일", 0, 0),
        event("2026-06-10", "2026-06-10", "보강데이", 0, 1),
    ];
    let days = build_day_schedules("2026-06", &rows).unwrap();
    let dates: Vec<&str> = days.iter().map(|d| d.event_date.as_str()).collect();
    assert_eq!(dates, vec!["2026-06-03", "2026-06-04", "2026-06-10", "2026-06-20", "2026-06-21"]);
}

#[test]
fn day_sync_action_per_day() {
    assert!(matches!(day_sync_action("2026-06-03", 1, 0, true).unwrap(), DaySyncAction::DeletePresent));
    assert!(matches!(day_sync_action("2026-06-03", 1, 1, false).unwrap(), DaySyncAction::Keep));
    match day_sync_action("2026-06-03", 1, 1, true).unwrap() {
        DaySyncAction::CreateRows { event_date, year_month, weekday } => {
            assert_eq!(event_date, "2026-06-03");
            assert_eq!(year_month, "2026-06");
            assert_eq!(weekday, 3, "2026-06-03 is a Wednesday");
        }
        other => panic!("unexpected {:?}", other),
    }
    assert!(day_sync_action("2026-13-03", 0, 0, true).is_err());
    assert!(matches!(day_sync_action("not a date", 0, 0, false).unwrap(), DaySyncAction::Keep));
}
