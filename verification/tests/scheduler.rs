use indistocks::day::{Day, MIN_EPOCH_DAY};
use indistocks::scheduler::{
    Action, BackfillCursor, RunState, Scheduler, StopReason, DEFAULT_ERROR_THRESHOLD, DEFAULT_RANGE_DAYS,
};

fn day(n: i32) -> Day {
    Day::from_epoch_days(n).unwrap()
}

#[test]
fn defaults() {
    assert_eq!(DEFAULT_ERROR_THRESHOLD, 10);
    assert_eq!(DEFAULT_RANGE_DAYS, 365);
}

#[test]
fn a_scheduler_waits_until_it_is_started() {
    let mut s = Scheduler::new(None, 10);
    assert_eq!(s.state(), RunState::Idle);
    assert_eq!(s.poll(false), Action::Wait);
    assert_eq!(s.poll(true), Action::Wait);
    s.day_failed();
    s.day_succeeded();
    assert_eq!(s.state(), RunState::Idle);
    assert_eq!((s.successes(), s.consecutive_failures()), (0, 0));
}

#[test]
fn a_fresh_run_starts_the_day_before_the_earliest_stored_day() {
    let mut s = Scheduler::new(None, 10);
    s.start(Some(day(19_000)), day(19_753));
    assert_eq!(s.state(), RunState::Running);
    assert_eq!(s.current(), Some(day(18_999)));
    assert_eq!(s.origin(), Some(day(18_999)));
    assert_eq!(s.end(), day(18_999 - 365));
    assert_eq!(s.poll(false), Action::Fetch(day(18_999)));
}

#[test]
fn a_run_on_an_empty_store_starts_yesterday() {
    let mut s = Scheduler::new(Some(5), 10);
    s.start(None, day(19_753));
    assert_eq!(s.current(), Some(day(19_753)));
    assert_eq!(s.end(), day(19_753 - 365));
    assert_eq!(s.cap(), Some(5));
    assert_eq!(s.threshold(), 10);
}

#[test]
fn a_store_that_reaches_the_first_day_leaves_nothing_to_fetch() {
    let mut s = Scheduler::new(None, 10);
    s.start(Some(day(MIN_EPOCH_DAY)), day(19_753));
    assert_eq!(s.current(), None);
    assert_eq!(s.end(), day(MIN_EPOCH_DAY));
    assert_eq!(s.poll(false), Action::Stop(StopReason::RangeExhausted));
}

#[test]
fn starting_twice_changes_nothing() {
    let mut s = Scheduler::new(None, 10);
    s.start_range(day(100), day(90));
    s.day_failed();
    s.start(None, day(5));
    s.start_range(day(7), day(6));
    assert_eq!(s.current(), Some(day(99)));
    assert_eq!(s.end(), day(90));
    assert_eq!(s.consecutive_failures(), 1);
}

#[test]
fn the_breaker_trips_after_exactly_threshold_failures() {
    let mut s = Scheduler::new(Some(3), 10);
    s.start_range(day(1000), day(0));
    for i in 0..10 {
        assert_eq!(s.poll(false), Action::Fetch(day(1000 - i)));
        assert_eq!(s.attempt_number(), i as u64 + 1);
        s.day_failed();
        assert_eq!(s.consecutive_failures(), i as u64 + 1);
    }
    assert_eq!(s.poll(false), Action::Stop(StopReason::ErrorThreshold));
    assert_eq!(s.state(), RunState::Stopped(StopReason::ErrorThreshold));
    assert_eq!(s.successes(), 0);
    assert_eq!(s.current(), Some(day(990)));
    s.day_succeeded();
    s.day_failed();
    assert_eq!((s.successes(), s.consecutive_failures()), (0, 10));
    assert_eq!(s.poll(false), Action::Stop(StopReason::ErrorThreshold));
}

#[test]
fn a_success_resets_the_failures_in_a_row() {
    let mut s = Scheduler::new(None, 3);
    s.start_range(day(100), day(0));
    s.poll(false);
    s.day_failed();
    s.day_failed();
    assert_eq!(s.consecutive_failures(), 2);
    s.day_succeeded();
    assert_eq!((s.successes(), s.consecutive_failures()), (1, 0));
    s.day_failed();
    s.day_failed();
    assert_eq!(s.poll(false), Action::Fetch(day(95)));
    s.day_failed();
    assert_eq!(s.poll(false), Action::Stop(StopReason::ErrorThreshold));
    assert_eq!(s.successes(), 1);
}

#[test]
fn the_cap_stops_the_run_after_that_many_successes() {
    let mut s = Scheduler::new(Some(3), 10);
    s.start_range(day(100), day(0));
    for i in 0..3 {
        assert_eq!(s.poll(false), Action::Fetch(day(100 - i)));
        s.day_succeeded();
    }
    assert_eq!(s.poll(false), Action::Stop(StopReason::LimitReached));
    assert_eq!(s.successes(), 3);
    assert_eq!(s.current(), Some(day(97)));
}

#[test]
fn a_cap_of_zero_stops_at_once() {
    let mut s = Scheduler::new(Some(0), 10);
    s.start_range(day(100), day(0));
    assert_eq!(s.poll(false), Action::Stop(StopReason::LimitReached));
}

#[test]
fn a_threshold_of_zero_stops_at_once() {
    let mut s = Scheduler::new(None, 0);
    s.start_range(day(100), day(0));
    assert_eq!(s.poll(false), Action::Stop(StopReason::ErrorThreshold));
}

#[test]
fn the_range_includes_both_ends() {
    let mut s = Scheduler::new(None, 10);
    s.start_range(day(12), day(10));
    for d in [12, 11, 10] {
        assert_eq!(s.poll(false), Action::Fetch(day(d)));
        s.day_succeeded();
    }
    assert_eq!(s.poll(false), Action::Stop(StopReason::RangeExhausted));
    assert_eq!(s.current(), Some(day(9)));
    assert_eq!(s.successes(), 3);
}

#[test]
fn the_range_is_checked_before_the_cap_and_the_threshold() {
    let mut s = Scheduler::new(Some(1), 1);
    s.start_range(day(10), day(10));
    assert_eq!(s.poll(false), Action::Fetch(day(10)));
    s.day_succeeded();
    assert_eq!(s.poll(false), Action::Stop(StopReason::RangeExhausted));
    let mut t = Scheduler::new(Some(1), 1);
    t.start_range(day(10), day(11));
    assert_eq!(t.poll(false), Action::Stop(StopReason::RangeExhausted));
}

#[test]
fn the_cap_is_checked_before_the_threshold() {
    let mut s = Scheduler::new(Some(1), 1);
    s.start_range(day(10), day(0));
    s.day_succeeded();
    assert_eq!(s.poll(false), Action::Stop(StopReason::LimitReached));
}

#[test]
fn a_run_ends_at_the_first_day_of_the_calendar() {
    let mut s = Scheduler::new(None, 10);
    s.start_range(day(MIN_EPOCH_DAY + 1), day(MIN_EPOCH_DAY));
    assert_eq!(s.poll(false), Action::Fetch(day(MIN_EPOCH_DAY + 1)));
    s.day_succeeded();
    assert_eq!(s.poll(false), Action::Fetch(day(MIN_EPOCH_DAY)));
    s.day_failed();
    assert_eq!(s.current(), None);
    assert_eq!(s.poll(false), Action::Stop(StopReason::RangeExhausted));
    let mut open = Scheduler::new(None, 10);
    open.start(None, day(MIN_EPOCH_DAY + 5));
    assert_eq!(open.end(), day(MIN_EPOCH_DAY));
}

#[test]
fn cancelling_is_honoured_between_days() {
    let mut s = Scheduler::new(None, 10);
    s.start_range(day(10), day(0));
    assert_eq!(s.poll(false), Action::Fetch(day(10)));
    s.day_succeeded();
    assert_eq!(s.poll(true), Action::Stop(StopReason::Cancelled));
    assert_eq!(s.poll(false), Action::Stop(StopReason::Cancelled));
    assert_eq!(s.successes(), 1);
}

#[test]
fn asking_twice_names_the_same_day() {
    let mut s = Scheduler::new(None, 10);
    s.start_range(day(10), day(0));
    assert_eq!(s.poll(false), Action::Fetch(day(10)));
    assert_eq!(s.poll(false), Action::Fetch(day(10)));
    assert_eq!(s.attempt_number(), 1);
}

#[test]
fn the_cursor_shows_where_the_run_stands() {
    let mut s = Scheduler::new(Some(4), 10);
    s.start_range(day(10), day(0));
    s.day_succeeded();
    s.day_failed();
    s.day_failed();
    assert_eq!(
        s.cursor(),
        BackfillCursor { current: Some(day(7)), successes: 1, consecutive_failures: 2, cap: Some(4) }
    );
}
