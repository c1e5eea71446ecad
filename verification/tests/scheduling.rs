use chrono::{Datelike, NaiveDate};
use smarthb::academic::{try_assessment_dates, year_month_of};
use smarthb::billing::compute_mid_month_flag;
use smarthb::changes::normalize_time;
use smarthb::civil::CivilDate;
use smarthb::dashboard::{quarter_label, quarter_start, recent_quarters};

fn d(y: i32, m: u32, day: u32) -> CivilDate {
    CivilDate { year: y, month: m, day }
}

fn naive(c: CivilDate) -> NaiveDate {
    NaiveDate::from_ymd_opt(c.year, c.month, c.day).unwrap()
}

#[test]
fn year_month_of_extracts_valid_prefix() {
    assert_eq!(year_month_of("2099-03-15"), Some("2099-03".to_string()));
}

#[test]
fn year_month_of_rejects_invalid_format() {
    assert_eq!(year_month_of("20990315"), None);
    assert_eq!(year_month_of("2099"), None);
}

#[test]
fn assessment_dates_returns_two_groups_of_five_weekdays() {
    let dates: Vec<NaiveDate> = try_assessment_dates("2099-03").unwrap().unwrap().into_iter().map(naive).collect();
    assert_eq!(dates.len(), 10, "2주차5 + 4주차5 = 10건");
    let in_week = (dates[4] - dates[0]).num_days();
    assert_eq!(in_week, 4, "같은 주 월·금 차이 4일");
    let between_weeks = (dates[5] - dates[0]).num_days();
    assert_eq!(between_weeks, 14, "2주차 월요일 ↔ 4주차 월요일 14일");
    for x in &dates {
        assert!(x.weekday().num_days_from_monday() < 5, "{} 가 평일이어야 함", x);
    }
}

#[test]
fn normalize_time_formats_and_validates() {
    assert_eq!(normalize_time("16:00").unwrap(), "16:00:00");
    assert_eq!(normalize_time("9:5").unwrap(), "09:05:00");
    assert_eq!(normalize_time("16:00:00").unwrap(), "16:00:00");
    assert!(normalize_time("25:00").is_err());
    assert!(normalize_time("16:75").is_err());
    assert!(normalize_time("abc").is_err());
    assert!(normalize_time("16").is_err());
}

#[test]
fn mid_month_flag_detects_enrolled() {
    let (flag, t) = compute_mid_month_flag("2026-05-15", None, "2026-05-01", "2026-05-31");
    assert!(flag);
    assert_eq!(t.as_deref(), Some("enrolled"));
}

#[test]
fn mid_month_flag_detects_withdrawn() {
    let (flag, t) = compute_mid_month_flag("2026-04-01", Some("2026-05-20"), "2026-05-01", "2026-05-31");
    assert!(flag);
    assert_eq!(t.as_deref(), Some("withdrawn"));
}

#[test]
fn mid_month_flag_false_for_full_month_active() {
    let (flag, t) = compute_mid_month_flag("2026-01-01", None, "2026-05-01", "2026-05-31");
    assert!(!flag);
    assert!(t.is_none());
}

#[test]
fn mid_month_flag_enroll_priority_over_withdraw() {
    let (flag, t) = compute_mid_month_flag("2026-05-05", Some("2026-05-25"), "2026-05-01", "2026-05-31");
    assert!(flag);
    assert_eq!(t.as_deref(), Some("enrolled"));
}

#[test]
fn quarter_helpers_map_academic_quarters() {
    let day = d(2026, 6, 4);
    assert_eq!(quarter_start(day), d(2026, 6, 1));
    assert_eq!(quarter_label(quarter_start(day)), "2026 2분기");
    let jan = d(2026, 1, 15);
    assert_eq!(quarter_start(jan), d(2025, 12, 1));
    assert_eq!(quarter_label(quarter_start(jan)), "2025 4분기");
    let qs = recent_quarters(day);
    assert_eq!(qs.len(), 4);
    assert_eq!(qs[3].0, "2026 2분기");
}

#[test]
fn normalize_time_checks_the_seconds_field() {
    assert_eq!(normalize_time("16:00:59").unwrap(), "16:00:00");
    assert!(normalize_time("16:00:ab").is_err());
    assert!(normalize_time("16:00:60").is_err());
    assert!(normalize_time("16:00:").is_err());
}
