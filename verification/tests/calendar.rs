use cronjob::calendar::days_in_month;
use cronjob::calendar::is_leap_year;
use cronjob::Timestamp;

fn at(year: i32, month: u32, day: u32, hour: u32, minute: u32, second: u32) -> Timestamp {
    Timestamp::new(year, month, day, hour, minute, second).unwrap()
}

#[test]
fn leap_years_follow_the_gregorian_rule() {
    assert!(is_leap_year(2024));
    assert!(!is_leap_year(2023));
    assert!(!is_leap_year(1900));
    assert!(is_leap_year(2000));
    assert!(!is_leap_year(2100));
    assert!(is_leap_year(0));
    assert!(is_leap_year(-4));
    assert!(!is_leap_year(-100));
    assert!(is_leap_year(-400));
}

#[test]
fn month_lengths() {
    let common = [31, 28, 31, 30, 31, 30, 31, 31, 30, 31, 30, 31];
    for (i, days) in common.iter().enumerate() {
        assert_eq!(days_in_month(i as u32 + 1, 2023), *days);
    }
    assert_eq!(days_in_month(2, 2024), 29);
    assert_eq!(days_in_month(2, 1900), 28);
    assert_eq!(days_in_month(2, 2000), 29);
}

#[test]
fn timestamp_accepts_days_of_the_calendar_only() {
    assert!(Timestamp::new(2024, 2, 29, 0, 0, 0).is_some());
    assert!(Timestamp::new(2023, 2, 29, 0, 0, 0).is_none());
    assert!(Timestamp::new(2023, 4, 31, 0, 0, 0).is_none());
    assert!(Timestamp::new(2023, 4, 30, 23, 59, 59).is_some());
    assert!(Timestamp::new(2023, 0, 1, 0, 0, 0).is_none());
    assert!(Timestamp::new(2023, 13, 1, 0, 0, 0).is_none());
    assert!(Timestamp::new(2023, 1, 0, 0, 0, 0).is_none());
    assert!(Timestamp::new(2023, 1, 32, 0, 0, 0).is_none());
    assert!(Timestamp::new(2023, 1, 1, 24, 0, 0).is_none());
    assert!(Timestamp::new(2023, 1, 1, 0, 60, 0).is_none());
    assert!(Timestamp::new(2023, 1, 1, 0, 0, 60).is_none());
    assert!(Timestamp::new(i32::MIN, 1, 1, 0, 0, 0).is_some());
    assert!(Timestamp::new(i32::MAX, 12, 31, 23, 59, 59).is_some());
}

#[test]
fn timestamp_keeps_its_fields() {
    let t = at(2024, 7, 9, 17, 39, 2);
    assert_eq!(t.year(), 2024);
    assert_eq!(t.month(), 7);
    assert_eq!(t.day(), 9);
    assert_eq!(t.hour(), 17);
    assert_eq!(t.minute(), 39);
    assert_eq!(t.second(), 2);
}

#[test]
fn timestamps_are_ordered_field_by_field() {
    let base = at(2024, 6, 15, 12, 30, 30);
    let later = [
        at(2025, 1, 1, 0, 0, 0),
        at(2024, 7, 1, 0, 0, 0),
        at(2024, 6, 16, 0, 0, 0),
        at(2024, 6, 15, 13, 0, 0),
        at(2024, 6, 15, 12, 31, 0),
        at(2024, 6, 15, 12, 30, 31),
    ];
    for t in later.iter() {
        assert!(base.is_before(t));
        assert!(!t.is_before(&base));
        assert!(base < *t);
    }
    assert!(!base.is_before(&base));
    assert_eq!(base, at(2024, 6, 15, 12, 30, 30));
}
