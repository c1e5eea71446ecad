use smarthb::attendance::{
    contains_text, expand_date_ranges, minutes_for_date, next_month_str, parse_date, plan_attendances,
    validate_year_month, weekly_minutes_on, year_month_numbers, ym_to_range, ScheduleSlice,
};
use smarthb::changes::{
    check_move_request, check_move_source, check_schedule_change, finish_move, format_md, latest_period_end,
    month_prefix, parse_periods, plan_regeneration, plan_toggle, tally_generation, weekday_ko,
    weekly_minutes_around,
};
use smarthb::civil::CivilDate;

fn d(y: i32, m: u32, day: u32) -> CivilDate {
    CivilDate { year: y, month: m, day }
}

fn slice(dow: i64, minutes: i64, from: &str, to: Option<&str>) -> ScheduleSlice {
    ScheduleSlice { day_of_week: dow, minutes, effective_from: from.to_string(), effective_to: to.map(|s| s.to_string()) }
}

#[test]
fn year_month_validation_messages() {
    assert!(validate_year_month("2026-06").is_ok());
    assert_eq!(validate_year_month("2026-6").unwrap_err(), "year_month 는 YYYY-MM 형식이어야 합니다.");
    assert_eq!(validate_year_month("2026-1a").unwrap_err(), "year_month 에 숫자가 아닌 문자가 포함되어 있습니다.");
    assert_eq!(validate_year_month("2026-13").unwrap_err(), "year_month 의 월은 01~12 사이여야 합니다 (입력: 2026-13).");
    assert_eq!(year_month_numbers("2026-06"), (2026, 6));
}

#[test]
fn next_month_and_range() {
    assert_eq!(next_month_str("2026-12").unwrap(), "2027-01");
    assert_eq!(next_month_str("2026-06").unwrap(), "2026-07");
    assert!(next_month_str("2026-00").is_err());
    assert_eq!(ym_to_range("2024-02").unwrap(), ("2024-02-01".to_string(), "2024-02-29".to_string()));
    assert_eq!(ym_to_range("2026-04").unwrap(), ("2026-04-01".to_string(), "2026-04-30".to_string()));
}

#[test]
fn schedule_history_gives_minutes_per_day() {
    let slices = vec![slice(1, 120, "2026-01-01", Some("2026-06-15")), slice(1, 90, "2026-06-15", None), slice(3, 60, "2026-01-01", None)];
    assert_eq!(minutes_for_date(&slices, d(2026, 6, 8)), Some(120), "Monday before the change");
    assert_eq!(minutes_for_date(&slices, d(2026, 6, 15)), Some(90), "the change day itself");
    assert_eq!(minutes_for_date(&slices, d(2026, 6, 10)), Some(60), "Wednesday");
    assert_eq!(minutes_for_date(&slices, d(2026, 6, 9)), None, "Tuesday");
    assert_eq!(minutes_for_date(&slices, d(2025, 12, 29)), None, "before the history");
    assert_eq!(weekly_minutes_on(&slices, d(2026, 6, 1)), 180);
    assert_eq!(weekly_minutes_on(&slices, d(2026, 6, 20)), 150);
    assert_eq!(weekly_minutes_around(&slices, d(2026, 6, 15)), (180, 150));
}

#[test]
fn planning_respects_enrolment_and_off_days() {
    let slices = vec![slice(1, 60, "2026-01-01", None)];
    let off = vec!["2026-06-08".to_string()];
    let plan = plan_attendances(&slices, d(2026, 6, 2), Some(d(2026, 6, 25)), d(2026, 6, 1), d(2026, 6, 30), &off).unwrap();
    let days: Vec<&str> = plan.iter().map(|p| p.event_date.as_str()).collect();
    assert_eq!(days, vec!["2026-06-15", "2026-06-22"]);
    assert!(plan.iter().all(|p| p.class_minutes == 60));
    assert!(plan_attendances(&Vec::new(), d(2026, 1, 1), None, d(2026, 6, 1), d(2026, 6, 30), &off).unwrap().is_empty());
    assert!(contains_text(&off, "2026-06-08"));
    assert!(!contains_text(&off, "2026-06-09"));
}

#[test]
fn date_parsing_and_range_expansion() {
    assert_eq!(parse_date("2026-02-28").unwrap(), d(2026, 2, 28));
    assert!(parse_date("2026-02-30").unwrap_err().starts_with("날짜 파싱 실패 (2026-02-30): "));
    let v = expand_date_ranges(&vec![("2026-06-29".to_string(), "2026-07-01".to_string()), ("2026-08-05".to_string(), "2026-08-05".to_string())]).unwrap();
    assert_eq!(v, vec!["2026-06-29", "2026-06-30", "2026-07-01", "2026-08-05"]);
    assert!(expand_date_ranges(&vec![("x".to_string(), "2026-01-01".to_string())]).is_err());
}

#[test]
fn toggle_round_trip_and_blocked_rows() {
    let c = plan_toggle(5, "absent", Some(("present".to_string(), "2026-12".to_string()))).unwrap();
    assert_eq!(c.new_makeup_deadline.as_deref(), Some("2027-01"));
    assert!(!c.clears_memo);
    let c = plan_toggle(5, "present", Some(("absent".to_string(), "2026-12".to_string()))).unwrap();
    assert_eq!(c.new_makeup_deadline, None);
    assert!(c.clears_memo);
    assert_eq!(
        plan_toggle(5, "absent", Some(("makeup_done".to_string(), "2026-12".to_string()))).unwrap_err(),
        "이 출결은 보강이 매칭되어 있어 직접 토글할 수 없습니다. 보강 매칭을 먼저 해제하세요."
    );
    assert!(plan_toggle(5, "present", Some(("makeup_expired".to_string(), "2026-12".to_string()))).is_err());
    assert_eq!(plan_toggle(5, "absent", Some(("absent".to_string(), "2026-12".to_string()))).unwrap_err(), "이미 'absent' 상태입니다.");
    assert_eq!(plan_toggle(9, "absent", None).unwrap_err(), "출결 레코드를 찾을 수 없습니다 (id=9).");
    assert_eq!(plan_toggle(9, "late", None).unwrap_err(), "토글 가능한 상태는 'present' 또는 'absent' 입니다 (요청: late).");
}

#[test]
fn move_checks_in_order() {
    let m = check_move_request("2026-06-01", "2026-06-03", "9:30").unwrap();
    assert_eq!(m.from, d(2026, 6, 1));
    assert_eq!(m.start_time, "09:30:00");
    assert_eq!(check_move_request("2026-06-01", "2026-06-01", "16:00").unwrap_err(), "출발일과 도착일이 같습니다.");
    assert!(check_move_request("2026-06-30", "2026-07-01", "16:00").unwrap_err().starts_with("수업일 이동은 같은 달"));
    assert_eq!(check_move_source("2026-06-01", d(2026, 6, 3), None).unwrap_err(), "2026-06-01 에 옮길 수업이 없습니다.");
    assert!(check_move_source("2026-06-01", d(2026, 6, 3), Some((3, "absent".to_string()))).is_err());
    assert_eq!(check_move_source("2026-06-01", d(2026, 6, 6), Some((3, "present".to_string()))).unwrap_err(), "6/6 은(는) 주말이라 정규수업을 옮길 수 없습니다.");
    assert_eq!(check_move_source("2026-06-01", d(2026, 6, 3), Some((3, "present".to_string()))), Ok(3));
    let done = finish_move(3, "2026-06-01", "2026-06-03", d(2026, 6, 1), d(2026, 6, 3), &Vec::new(), false).unwrap();
    assert_eq!(done.note, "6/1(월)→6/3(수) 이동");
    assert_eq!(finish_move(3, "2026-06-01", "2026-06-03", d(2026, 6, 1), d(2026, 6, 3), &Vec::new(), true).unwrap_err(), "6/3 에 이미 수업이 있어 옮길 수 없습니다.");
    assert!(finish_move(3, "2026-06-01", "2026-06-03", d(2026, 6, 1), d(2026, 6, 3), &vec!["2026-06-03".to_string()], false).is_err());
    assert_eq!(format_md(d(2026, 12, 25)), "12/25");
    assert_eq!(weekday_ko(d(2026, 6, 7)), "일");
}

#[test]
fn schedule_change_checks_and_regeneration() {
    assert_eq!(check_schedule_change("2026-06-01", None).unwrap_err(), "원생을 찾을 수 없습니다.");
    assert_eq!(
        check_schedule_change("2026-01-01", Some(("2026-03-02".to_string(), None))).unwrap_err(),
        "변경일은 입교일(2026-03-02) 이후여야 합니다."
    );
    let c = check_schedule_change("2026-06-15", Some(("2026-03-02".to_string(), Some("2026-12-31".to_string())))).unwrap();
    assert_eq!(c.withdraw, Some(d(2026, 12, 31)));
    let periods = parse_periods(&vec![("2026-06-01".to_string(), "2026-06-30".to_string()), ("2026-07-01".to_string(), "2026-07-31".to_string())]).unwrap();
    assert_eq!(latest_period_end(&periods), Some(d(2026, 7, 31)));
    assert_eq!(latest_period_end(&Vec::new()), None);
    let slices = vec![slice(2, 60, "2026-06-15", None)];
    let plan = plan_regeneration(&slices, d(2026, 3, 2), None, d(2026, 6, 15), &periods, &Vec::new()).unwrap();
    assert_eq!(plan.len(), 7, "Tuesdays from 6/16 to 7/28");
    assert_eq!(plan[0].event_date, "2026-06-16");
    assert_eq!(month_prefix("2026-06-16"), "2026-06");
    assert_eq!(tally_generation(&vec![0, 3, 0, 2]), (2, 5));
}

#[test]
fn next_month_pads_small_years_and_rolls_past_9999() {
    assert_eq!(next_month_str("0009-12").unwrap(), "0010-01");
    assert_eq!(next_month_str("9999-12").unwrap(), "10000-01");
}
