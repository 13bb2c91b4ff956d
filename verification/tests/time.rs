use chrono::{DateTime, NaiveDate};
use review_stats::time::{Date, Timestamp, MAX_SECONDS, MIN_SECONDS};

fn day_of(secs: i64) -> i32 {
    Timestamp::from_secs(secs).unwrap().date().epoch_day
}

#[test]
fn the_epoch_is_day_zero() {
    assert_eq!(day_of(0), 0);
    assert_eq!(day_of(86_399), 0);
    assert_eq!(day_of(86_400), 1);
}

#[test]
fn instants_before_the_epoch_round_down() {
    assert_eq!(day_of(-1), -1);
    assert_eq!(day_of(-86_400), -1);
    assert_eq!(day_of(-86_401), -2);
}

#[test]
fn a_known_instant_has_its_known_day() {
    // 2015-05-15 00:00:00 UTC
    assert_eq!(day_of(1_431_648_000), 16_570);
    // 2023-11-14 22:13:20 UTC
    assert_eq!(day_of(1_700_000_000), 19_675);
}

#[test]
fn the_day_agrees_with_the_calendar() {
    let leap_day = NaiveDate::from_ymd_opt(2024, 2, 29).unwrap();
    let late = leap_day.and_hms_opt(23, 59, 59).unwrap().and_utc().timestamp();
    let early = leap_day.and_hms_opt(0, 0, 0).unwrap().and_utc().timestamp();
    assert_eq!(day_of(late), leap_day.to_epoch_days());
    assert_eq!(day_of(early), leap_day.to_epoch_days());
    assert_eq!(day_of(late + 1), leap_day.to_epoch_days() + 1);
}

#[test]
fn seconds_are_kept() {
    assert_eq!(Timestamp::from_secs(1_700_000_000).unwrap().secs(), 1_700_000_000);
    assert_eq!(Timestamp::from_secs(-5).unwrap().secs(), -5);
}

#[test]
fn the_range_is_that_of_the_calendar() {
    assert!(Timestamp::from_secs(MIN_SECONDS).is_some());
    assert!(Timestamp::from_secs(MAX_SECONDS).is_some());
    assert!(Timestamp::from_secs(MIN_SECONDS - 1).is_none());
    assert!(Timestamp::from_secs(MAX_SECONDS + 1).is_none());
    assert!(Timestamp::from_secs(i64::MIN).is_none());
    assert!(Timestamp::from_secs(i64::MAX).is_none());
    assert!(DateTime::from_timestamp(MIN_SECONDS, 0).is_some());
    assert!(DateTime::from_timestamp(MAX_SECONDS, 0).is_some());
    assert!(DateTime::from_timestamp(MIN_SECONDS - 1, 0).is_none());
    assert!(DateTime::from_timestamp(MAX_SECONDS + 1, 0).is_none());
}

#[test]
fn the_ends_of_the_range_have_days() {
    assert_eq!(day_of(MIN_SECONDS), -96_465_292);
    assert_eq!(day_of(MAX_SECONDS), 95_026_236);
    assert_eq!(day_of(MIN_SECONDS), NaiveDate::MIN.to_epoch_days());
    assert_eq!(day_of(MAX_SECONDS), NaiveDate::MAX.to_epoch_days());
}

#[test]
fn dates_are_ordered_by_their_day() {
    let earlier = Date::from_epoch_days(19_000);
    let later = Date::from_epoch_days(19_001);
    assert!(later.is_after(&earlier));
    assert!(!earlier.is_after(&later));
    assert!(!earlier.is_after(&earlier));
    assert!(Date::from_epoch_days(0).is_after(&Date::from_epoch_days(-1)));
}
