use chrono::{Datelike, NaiveDate};
use take_a_break::calendar::{
    add_days, add_minutes, is_before, minutes_between, Date, DateTime, Time, MAX_DAYS_FROM_CE,
    MIN_DAYS_FROM_CE,
};

fn at(days: i32, secs: u32, frac: u32) -> DateTime {
    DateTime { date: Date { days_from_ce: days }, time: Time { secs, frac } }
}

#[test]
fn date_range_matches_chrono() {
    assert_eq!(NaiveDate::MIN.num_days_from_ce(), MIN_DAYS_FROM_CE);
    assert_eq!(NaiveDate::MAX.num_days_from_ce(), MAX_DAYS_FROM_CE);
}

#[test]
fn add_minutes_carries_into_the_next_day() {
    let r = add_minutes(at(100, 86_100, 0), 5).unwrap();
    assert_eq!(r, at(101, 0, 0));
    let r = add_minutes(at(100, 600, 7), -20).unwrap();
    assert_eq!(r, at(99, 86_400 - 600, 7));
    assert_eq!(add_minutes(at(100, 600, 0), 0).unwrap(), at(100, 600, 0));
}

#[test]
fn add_minutes_leaves_a_leap_second() {
    // 23:59:60.5, shown as second 86399 with a fraction past one second.
    let leap = at(100, 86_399, 1_500_000_000);
    assert_eq!(add_minutes(leap, 1).unwrap(), at(101, 59, 500_000_000));
    assert_eq!(add_minutes(leap, -1).unwrap(), at(100, 86_400 - 60, 500_000_000));
    assert_eq!(add_minutes(leap, 0).unwrap(), leap);
}

#[test]
fn add_minutes_out_of_range_is_none() {
    assert_eq!(add_minutes(at(MAX_DAYS_FROM_CE, 86_399, 0), 1), None);
    assert_eq!(add_minutes(at(MIN_DAYS_FROM_CE, 0, 0), -1), None);
    assert_eq!(add_minutes(at(0, 0, 0), i64::MAX), None);
}

#[test]
fn add_days_moves_the_day_number() {
    assert_eq!(add_days(Date { days_from_ce: 10 }, 6), Some(Date { days_from_ce: 16 }));
    assert_eq!(add_days(Date { days_from_ce: MAX_DAYS_FROM_CE }, 1), None);
}

#[test]
fn minutes_between_truncates_towards_zero() {
    assert_eq!(minutes_between(at(1, 3600, 0), at(1, 0, 0)), 60);
    assert_eq!(minutes_between(at(1, 119, 999_999_999), at(1, 0, 0)), 1);
    assert_eq!(minutes_between(at(1, 0, 0), at(1, 119, 0)), -1);
    assert_eq!(minutes_between(at(2, 0, 0), at(1, 0, 0)), 1440);
    // From inside a leap second to just after midnight: under a minute.
    assert_eq!(minutes_between(at(2, 0, 0), at(1, 86_399, 1_500_000_000)), 0);
}

#[test]
fn order_is_by_date_then_time() {
    assert!(is_before(&at(1, 86_399, 0), &at(2, 0, 0)));
    assert!(is_before(&at(1, 5, 0), &at(1, 5, 1)));
    assert!(!is_before(&at(1, 5, 1), &at(1, 5, 1)));
    assert!(!is_before(&at(2, 0, 0), &at(1, 86_399, 0)));
}
