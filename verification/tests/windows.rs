use indistocks::day::{Day, MAX_EPOCH_DAY, MIN_EPOCH_DAY};
use indistocks::navigation::{next_view, View};
use indistocks::windows::{earlier_window, initial_window, range_start, CHART_WINDOW_DAYS};

fn day(n: i32) -> Day {
    Day::from_epoch_days(n).unwrap()
}

#[test]
fn a_chart_opens_on_the_last_ninety_days() {
    assert_eq!(CHART_WINDOW_DAYS, 90);
    assert_eq!(initial_window(day(1000), day(2000)), (day(1910), day(2000)));
    assert_eq!(initial_window(day(1950), day(2000)), (day(1950), day(2000)));
    assert_eq!(initial_window(day(1910), day(2000)), (day(1910), day(2000)));
    assert_eq!(initial_window(day(MIN_EPOCH_DAY), day(MIN_EPOCH_DAY + 10)), (day(MIN_EPOCH_DAY), day(MIN_EPOCH_DAY + 10)));
    assert_eq!(initial_window(day(2000), day(1000)), (day(2000), day(1000)));
}

#[test]
fn a_chart_reaches_back_to_the_day_before_its_start() {
    assert_eq!(earlier_window(day(1910), day(1000), 90), Some((day(1820), day(1909))));
    assert_eq!(earlier_window(day(1050), day(1000), 90), Some((day(1000), day(1049))));
    assert_eq!(earlier_window(day(1000), day(1000), 90), None);
    assert_eq!(earlier_window(day(900), day(1000), 90), None);
    assert_eq!(earlier_window(day(1001), day(1000), 0), Some((day(1001), day(1000))));
    assert_eq!(earlier_window(day(MIN_EPOCH_DAY + 1), day(MIN_EPOCH_DAY), u32::MAX), Some((day(MIN_EPOCH_DAY), day(MIN_EPOCH_DAY))));
    assert_eq!(earlier_window(day(MAX_EPOCH_DAY), day(0), 1), Some((day(MAX_EPOCH_DAY - 1), day(MAX_EPOCH_DAY - 1))));
}

#[test]
fn the_ranking_window_starts_so_many_days_before_the_latest() {
    assert_eq!(range_start(1_706_659_200, 5), Some(1_706_659_200 - 5 * 86_400));
    assert_eq!(range_start(1_706_659_200, 365), Some(1_675_123_200));
    assert_eq!(range_start(0, 0), Some(0));
    assert_eq!(range_start(0, -1), Some(86_400));
    assert_eq!(range_start(i64::MIN, 1), None);
    assert_eq!(range_start(i64::MAX, -1), None);
    assert_eq!(range_start(0, i64::MAX), None);
    assert_eq!(range_start(i64::MIN + 86_400, 1), Some(i64::MIN));
}

#[test]
fn input_brings_the_home_screen_back() {
    assert_eq!(next_view(View::Settings, true, false), View::Home);
    assert_eq!(next_view(View::Stocks, false, true), View::Home);
    assert_eq!(next_view(View::Logs, false, false), View::Logs);
    assert_eq!(next_view(View::Home, false, false), View::Home);
}
