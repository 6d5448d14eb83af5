use indistocks::day::{DatePattern, Day, MAX_EPOCH_DAY, MIN_EPOCH_DAY, SECONDS_PER_DAY};

fn day(n: i32) -> Day {
    Day::from_epoch_days(n).unwrap()
}

#[test]
fn calendar_bounds_are_those_of_the_date_type() {
    assert_eq!(chrono::NaiveDate::MIN.to_epoch_days(), MIN_EPOCH_DAY);
    assert_eq!(chrono::NaiveDate::MAX.to_epoch_days(), MAX_EPOCH_DAY);
    assert!(Day::from_epoch_days(MIN_EPOCH_DAY).is_some());
    assert!(Day::from_epoch_days(MAX_EPOCH_DAY).is_some());
    assert!(Day::from_epoch_days(MIN_EPOCH_DAY - 1).is_none());
    assert!(Day::from_epoch_days(MAX_EPOCH_DAY + 1).is_none());
    assert!(Day::from_epoch_days(i32::MAX).is_none());
    assert!(Day::from_epoch_days(i32::MIN).is_none());
}

#[test]
fn days_are_written_after_each_pattern() {
    let d = day(19_753);
    assert_eq!(d.format(DatePattern::Compact), "20240131");
    assert_eq!(d.format(DatePattern::Iso), "2024-01-31");
    assert_eq!(d.format(DatePattern::DayFirst), "31-01-2024");
    assert_eq!(d.format(DatePattern::Year), "2024");
    assert_eq!(d.format(DatePattern::Month), "01");
    assert_eq!(day(0).format(DatePattern::Iso), "1970-01-01");
    assert_eq!(day(-1).format(DatePattern::Compact), "19691231");
    assert_eq!(day(13_036).format(DatePattern::Iso), "2005-09-10");
}

#[test]
fn the_first_and_last_day_can_be_written() {
    assert_eq!(day(MIN_EPOCH_DAY).format(DatePattern::Iso), "-262143-01-01");
    assert_eq!(day(MAX_EPOCH_DAY).format(DatePattern::Iso), "+262142-12-31");
}

#[test]
fn timestamps_are_midnights() {
    assert_eq!(SECONDS_PER_DAY, 86_400);
    assert_eq!(day(0).timestamp(), 0);
    assert_eq!(day(1).timestamp(), 86_400);
    assert_eq!(day(-1).timestamp(), -86_400);
    assert_eq!(day(19_753).timestamp(), 1_706_659_200);
}

#[test]
fn a_timestamp_falls_on_the_day_that_holds_it() {
    assert_eq!(Day::from_timestamp(0), Some(day(0)));
    assert_eq!(Day::from_timestamp(86_399), Some(day(0)));
    assert_eq!(Day::from_timestamp(86_400), Some(day(1)));
    assert_eq!(Day::from_timestamp(-1), Some(day(-1)));
    assert_eq!(Day::from_timestamp(-86_400), Some(day(-1)));
    assert_eq!(Day::from_timestamp(-86_401), Some(day(-2)));
    assert_eq!(Day::from_timestamp(1_706_659_200 + 3_600), Some(day(19_753)));
    assert_eq!(Day::from_timestamp(i64::MAX), None);
    assert_eq!(Day::from_timestamp(i64::MIN), None);
}

#[test]
fn timestamps_agree_with_the_date_library() {
    for secs in [0i64, -1, 1, 86_399, -86_401, 1_706_659_200, 253_402_300_799, -62_167_219_200, i64::MAX, i64::MIN, 8_210_266_876_799, 8_210_266_876_800, -8_334_601_228_800, -8_334_601_228_801] {
        let expected = chrono::DateTime::from_timestamp(secs, 0).map(|t| t.date_naive().to_epoch_days());
        assert_eq!(Day::from_timestamp(secs).map(|d| d.epoch_days()), expected, "secs {}", secs);
    }
}

#[test]
fn stepping_back_stops_at_the_first_day() {
    assert_eq!(day(10).pred(), Some(day(9)));
    assert_eq!(day(MIN_EPOCH_DAY).pred(), None);
    assert_eq!(day(10).minus_days(365), Some(day(-355)));
    assert_eq!(day(10).minus_days(-5), Some(day(15)));
    assert_eq!(day(MAX_EPOCH_DAY).minus_days(-1), None);
    assert_eq!(day(0).minus_days(i64::MAX), None);
    assert_eq!(day(0).minus_days(i64::MIN), None);
    assert_eq!(day(10).days_since(day(3)), 7);
    assert_eq!(day(3).days_since(day(10)), -7);
    assert!(day(3).is_on_or_before(day(3)));
    assert!(!day(4).is_on_or_before(day(3)));
}
