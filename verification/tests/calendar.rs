use nota::calendar::{format_date, format_stamp, parse_date, CalendarDate, Moment};
use nota::number::{integer_text, number_text, parse_i64};

fn day(year: i32, month: u32, day: u32) -> CalendarDate {
    CalendarDate::from_ymd_opt(year, month, day).expect("日付")
}

#[test]
fn days_that_do_not_exist_are_refused() {
    assert!(CalendarDate::from_ymd_opt(2026, 2, 29).is_none());
    assert!(CalendarDate::from_ymd_opt(2024, 2, 29).is_some());
    assert!(CalendarDate::from_ymd_opt(2026, 13, 1).is_none());
    assert!(CalendarDate::from_ymd_opt(2026, 4, 31).is_none());
}

#[test]
fn weekdays_are_counted_from_sunday() {
    assert_eq!(day(2026, 8, 23).num_days_from_sunday(), 0);
    assert_eq!(day(2026, 8, 25).num_days_from_sunday(), 2);
    assert_eq!(day(1970, 1, 1).num_days_from_sunday(), 4);
    assert_eq!(day(2000, 2, 29).num_days_from_sunday(), 2);
}

#[test]
fn dates_are_written_and_read() {
    assert_eq!(format_date(&day(2026, 8, 5)), "2026-08-05");
    assert_eq!(parse_date("2026-08-05"), Some(day(2026, 8, 5)));
    assert_eq!(parse_date("2026-02-30"), None);
    assert_eq!(parse_date("そのうち"), None);
    let m = Moment {
        date: day(2026, 8, 5),
        hour: 9,
        minute: 7,
        ms: 1,
    };
    assert_eq!(format_stamp(&m), "2026-08-05 09:07");
}

#[test]
fn numbers_are_written_and_read() {
    assert_eq!(number_text(0), "0");
    assert_eq!(number_text(u64::MAX), "18446744073709551615");
    assert_eq!(integer_text(i64::MIN), "-9223372036854775808");
    assert_eq!(parse_i64("-9223372036854775808"), Some(i64::MIN));
    assert_eq!(parse_i64("+7"), Some(7));
    assert_eq!(parse_i64("9223372036854775808"), None);
    assert_eq!(parse_i64(""), None);
    assert_eq!(parse_i64("1 "), None);
}
