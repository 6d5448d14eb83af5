//! The stretches of days for which prices are loaded and ranked.

use vstd::prelude::*;
use crate::day::{Day, SECONDS_PER_DAY};

verus! {

/// Days that a chart shows when it opens, and that it adds when it reaches
/// back.
pub const CHART_WINDOW_DAYS: i64 = 90;

/// The later of two days.
pub open spec fn later_of(a: int, b: int) -> int {
    if a >= b {
        a
    } else {
        b
    }
}

/// The first day of the stretch that a chart loads when it opens: ninety
/// days before the latest day with data, but no day before the earliest.
pub open spec fn initial_start(earliest: int, latest: int) -> int {
    later_of(latest - CHART_WINDOW_DAYS, earliest)
}

/// The stretch that a chart loads when it opens, for a symbol with data from
/// `earliest` to `latest`: its first and its last day.
pub fn initial_window(earliest: Day, latest: Day) -> (window: (Day, Day))
    ensures
        window.0@ == initial_start(earliest@, latest@),
        window.1@ == latest@,
{
    let from = if latest.is_on_or_before(earliest) {
        earliest
    } else {
        match latest.minus_days(CHART_WINDOW_DAYS) {
            Some(start) => if start.is_on_or_before(earliest) {
                earliest
            } else {
                start
            },
            None => earliest,
        }
    };
    (from, latest)
}

/// The stretch that a chart adds when it reaches back from `current_start`
/// by `days`: from `days` before `current_start`, but no day before the
/// earliest with data, to the day before `current_start`. There is none where
/// everything from the earliest day on is loaded already.
pub open spec fn earlier_stretch(current_start: int, earliest: int, days: int) -> Option<
    (int, int),
> {
    if current_start <= earliest {
        None
    } else {
        Some((later_of(current_start - days, earliest), current_start - 1))
    }
}

/// The numbers of an optional pair of days.
pub open spec fn stretch_view(window: Option<(Day, Day)>) -> Option<(int, int)> {
    match window {
        Some(w) => Some((w.0@, w.1@)),
        None => None,
    }
}

/// Finds the stretch to add when a chart reaches back by `days`.
pub fn earlier_window(current_start: Day, earliest: Day, days: u32) -> (window: Option<(Day, Day)>)
    ensures
        stretch_view(window) == earlier_stretch(current_start@, earliest@, days as int),
{
    if current_start.is_on_or_before(earliest) {
        return None;
    }
    let to = match current_start.pred() {
        Some(day) => day,
        None => earliest,
    };
    let from = match current_start.minus_days(days as i64) {
        Some(start) => if start.is_on_or_before(earliest) {
            earliest
        } else {
            start
        },
        None => earliest,
    };
    Some((from, to))
}

/// The instant from which on prices count for a low and a high over
/// `range_days` days up to `latest`, both in seconds since the epoch.
pub open spec fn range_start_of(latest: int, range_days: int) -> int {
    latest - range_days * SECONDS_PER_DAY
}

/// Computes the instant from which on prices count; `None` where it cannot
/// be held in 64 bits.
pub fn range_start(latest: i64, range_days: i64) -> (start: Option<i64>)
    ensures
        start is Some <==> i64::MIN <= range_start_of(latest as int, range_days as int) <= i64::MAX,
        start matches Some(s) ==> s == range_start_of(latest as int, range_days as int),
{
    let span: i128 = range_days as i128 * 86_400;
    let start: i128 = latest as i128 - span;
    if start >= i64::MIN as i128 && start <= i64::MAX as i128 {
        Some(start as i64)
    } else {
        None
    }
}

} // verus!
