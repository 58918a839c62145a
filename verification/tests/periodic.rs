//! Days, formats and paths of periodic notes.

use overfry::json;
use overfry::periodic::{
    chrono_format_of, default_format, format_date_momentjs, join_note_path, momentjs_to_chrono, quarter_from_month,
    read_settings, requested_date, try_format_date_momentjs, Date,
};

fn day(year: i32, month: u32, day: u32) -> Date {
    Date { year, month, day }
}

#[test]
fn momentjs_to_chrono_basic() {
    assert_eq!(momentjs_to_chrono("YYYY-MM-DD"), "%Y-%m-%d");
    assert_eq!(momentjs_to_chrono("YYYY-[W]WW"), "%Y-[W]%W");
    assert_eq!(momentjs_to_chrono("YYYY-MM"), "%Y-%m");
    assert_eq!(momentjs_to_chrono("YYYY"), "%Y");
}

#[test]
fn format_date_daily() {
    assert_eq!(format_date_momentjs(day(2025, 3, 15), "YYYY-MM-DD"), "2025-03-15");
}

#[test]
fn format_date_monthly() {
    assert_eq!(format_date_momentjs(day(2025, 3, 15), "YYYY-MM"), "2025-03");
}

#[test]
fn format_date_yearly() {
    assert_eq!(format_date_momentjs(day(2025, 3, 15), "YYYY"), "2025");
}

#[test]
fn format_date_quarterly_q1() {
    assert_eq!(format_date_momentjs(day(2025, 1, 15), "YYYY-[Q]Q"), "2025-1");
}

#[test]
fn format_date_quarterly_q4() {
    assert_eq!(format_date_momentjs(day(2025, 12, 1), "YYYY-[Q]Q"), "2025-4");
}

#[test]
fn quarter_computation() {
    assert_eq!(quarter_from_month(1), 1);
    assert_eq!(quarter_from_month(3), 1);
    assert_eq!(quarter_from_month(4), 2);
    assert_eq!(quarter_from_month(6), 2);
    assert_eq!(quarter_from_month(7), 3);
    assert_eq!(quarter_from_month(9), 3);
    assert_eq!(quarter_from_month(10), 4);
    assert_eq!(quarter_from_month(12), 4);
}

#[test]
fn default_formats_correct() {
    assert_eq!(default_format("daily"), "YYYY-MM-DD");
    assert_eq!(default_format("weekly"), "YYYY-[W]WW");
    assert_eq!(default_format("monthly"), "YYYY-MM");
    assert_eq!(default_format("quarterly"), "YYYY-[Q]Q");
    assert_eq!(default_format("yearly"), "YYYY");
}

#[test]
fn unknown_periods_are_daily() {
    assert_eq!(default_format("hourly"), "YYYY-MM-DD");
}

#[test]
fn days_are_parsed() {
    assert_eq!(requested_date(Some("2025-03-15".to_string())).unwrap(), day(2025, 3, 15));
}

#[test]
fn texts_that_are_no_days_are_refused() {
    let e = requested_date(Some("2025-02-30".to_string())).unwrap_err();
    assert!(e.message().contains("date"));
    assert!(requested_date(Some("yesterday".to_string())).is_err());
}

#[test]
fn without_a_day_it_is_today() {
    let d = requested_date(None).unwrap();
    assert!(1 <= d.month && d.month <= 12);
    assert!(1 <= d.day && d.day <= 31);
}

#[test]
fn days_that_do_not_exist_have_no_text() {
    assert_eq!(try_format_date_momentjs(day(2025, 2, 30), "YYYY"), None);
    assert_eq!(try_format_date_momentjs(day(2025, 2, 3), "YYYY/MM"), Some("2025/02".to_string()));
}

#[test]
fn formats_that_ask_for_a_time_of_day_have_no_text() {
    assert_eq!(try_format_date_momentjs(day(2025, 2, 3), "%H"), None);
}

#[test]
fn chrono_formats_hold_the_quarter() {
    assert_eq!(chrono_format_of(5, "YYYY-MM"), "%Y-%m");
    assert!(chrono_format_of(5, "YYYY-[Q]Q").contains('2'));
}

#[test]
fn settings_of_a_period() {
    let cfg = json::parse(b"{\"folder\":\"Daily\",\"format\":\"YYYY\"}").unwrap();
    assert_eq!(read_settings(&cfg, "daily"), ("Daily".to_string(), "YYYY".to_string()));
    let empty = json::parse(b"{}").unwrap();
    assert_eq!(read_settings(&empty, "weekly"), ("".to_string(), "YYYY-[W]WW".to_string()));
}

#[test]
fn paths_of_notes() {
    assert_eq!(join_note_path("Daily", "2025"), "Daily/2025.md");
    assert_eq!(join_note_path("", "2025"), "2025.md");
}
