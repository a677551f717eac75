use chrono::{Datelike, Days, NaiveDate};
use lib_frankfurter::{CalendarDate, Error, ValidDate};

fn ymd(year: i32, month: u32, day: u32) -> CalendarDate {
    CalendarDate { year, month, day }
}

fn from_chrono(d: NaiveDate) -> CalendarDate {
    ymd(d.year(), d.month(), d.day())
}

pub const INVALID_DATES: [&str; 11] = [
    "date",
    "1st of January, 2000",
    "1999/12/29",
    "20240201",
    "0000-01-01",
    "0001-10-10",
    "1900-10-10",
    "1000-09-22",
    "3005-01-01",
    "2024-35-01",
    "2024-01-70",
];

#[test]
fn test_date_validity_checked_on_creation() {
    assert!(ValidDate::from_date(ymd(2000, 1, 1)).is_ok());
    assert!(ValidDate::from_date(ymd(0, 1, 1)).is_err());

    assert!(ValidDate::parse("2000-01-01").is_ok());
    assert!(ValidDate::parse("0000-01-01").is_err());
    assert!(ValidDate::parse("abc").is_err());
}

#[test]
fn test_is_valid_date() {
    let min = ValidDate::min();
    let max = ValidDate::max();
    assert!(ValidDate::from_date(min.date()).is_ok());
    assert!(ValidDate::from_date(max.date()).is_ok());

    let lt_min = NaiveDate::from_ymd_opt(1999, 1, 4).unwrap().checked_sub_days(Days::new(1)).unwrap();
    assert!(ValidDate::from_date(from_chrono(lt_min)).is_err());

    let today = max.date();
    let gt_max = NaiveDate::from_ymd_opt(today.year, today.month, today.day)
        .unwrap()
        .checked_add_days(Days::new(1))
        .unwrap();
    assert!(ValidDate::from_date(from_chrono(gt_max)).is_err());

    for (y, m, d) in [(0, 1, 1), (3005, 1, 1), (1999, 1, 1)] {
        assert!(ValidDate::from_date(ymd(y, m, d)).is_err());
    }
}

#[test]
fn test_fail_invalid_date() {
    for date in INVALID_DATES {
        assert!(matches!(ValidDate::parse(date), Err(Error::InvalidDate(_))));
    }
}

#[test]
fn window_is_inclusive_as_of_a_fixed_today() {
    let today = ymd(2024, 8, 20);
    assert_eq!(ValidDate::from_date_as_of(ymd(1999, 1, 4), today).unwrap(), ValidDate::min());
    assert!(ValidDate::from_date_as_of(ymd(1999, 1, 3), today).is_err());
    assert_eq!(
        ValidDate::from_date_as_of(ymd(2024, 8, 20), today).unwrap().date(),
        ymd(2024, 8, 20)
    );
    assert!(matches!(
        ValidDate::from_date_as_of(ymd(2024, 8, 21), today),
        Err(Error::InvalidDate(s)) if s == "2024-08-21"
    ));
    assert!(ValidDate::from_date_as_of(ymd(2023, 2, 29), today).is_err());
    assert!(ValidDate::from_date_as_of(ymd(2024, 2, 29), today).is_ok());
    assert!(ValidDate::from_date_as_of(ymd(2024, 4, 31), today).is_err());
    assert!(ValidDate::from_date_as_of(ymd(2024, 13, 1), today).is_err());
    assert!(ValidDate::from_date_as_of(ymd(2024, 1, 0), today).is_err());
}

#[test]
fn parse_reads_unpadded_dates_and_keeps_the_input_in_errors() {
    let today = ymd(2024, 8, 20);
    assert_eq!(ValidDate::parse_as_of("2000-7-2", today).unwrap().date(), ymd(2000, 7, 2));
    assert!(matches!(
        ValidDate::parse_as_of("2024-35-01", today),
        Err(Error::InvalidDate(s)) if s == "2024-35-01"
    ));
    assert!(matches!(
        ValidDate::parse_as_of("2025-01-01", today),
        Err(Error::InvalidDate(s)) if s == "2025-01-01"
    ));
    assert!(matches!(
        ValidDate::parse("1999-1-3"),
        Err(Error::InvalidDate(s)) if s == "1999-01-03"
    ));
}

#[test]
fn dates_print_as_iso() {
    assert_eq!(ValidDate::min().to_iso_string(), "1999-01-04");
    assert_eq!(ValidDate::default().to_iso_string(), "1999-01-04");
    assert_eq!(ymd(2020, 8, 9).to_iso_string(), "2020-08-09");
    assert_eq!(ymd(10000, 12, 31).to_iso_string(), "+10000-12-31");
    assert_eq!(ymd(-1, 1, 1).to_iso_string(), "-0001-01-01");
    assert_eq!(ymd(5, 1, 1).to_iso_string(), "0005-01-01");
    let today = ValidDate::max().date();
    let text = NaiveDate::from_ymd_opt(today.year, today.month, today.day).unwrap().to_string();
    assert_eq!(ValidDate::max().to_iso_string(), text);
}

#[test]
fn weekdays_count_from_monday() {
    let today = ymd(2024, 8, 20);
    let day = |s: &str| ValidDate::parse_as_of(s, today).unwrap().weekday();
    assert_eq!(day("2024-08-02"), 4);
    assert_eq!(day("2024-08-03"), 5);
    assert_eq!(day("2024-08-04"), 6);
    assert_eq!(day("2024-08-05"), 0);
    assert_eq!(day("1999-01-04"), 0);
    assert_eq!(day("2000-02-29"), 1);
}

#[test]
fn dates_order_by_calendar() {
    assert!(ymd(2024, 1, 31).is_on_or_before(&ymd(2024, 2, 1)));
    assert!(ymd(2023, 12, 31).is_on_or_before(&ymd(2024, 1, 1)));
    assert!(ymd(2024, 1, 1).is_on_or_before(&ymd(2024, 1, 1)));
    assert!(!ymd(2024, 1, 2).is_on_or_before(&ymd(2024, 1, 1)));
    assert!(ymd(2024, 2, 29).is_valid_date());
    assert!(!ymd(1900, 2, 29).is_valid_date());
}
