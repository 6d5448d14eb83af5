//! Calendar days, counted from 1 January 1970, and their text.

use vstd::prelude::*;

verus! {

/// The earliest day that has a calendar date: 1 January of the year -262143.
pub const MIN_EPOCH_DAY: i32 = -96_465_292;

/// The latest day that has a calendar date: 31 December of the year 262142.
pub const MAX_EPOCH_DAY: i32 = 95_026_236;

/// Seconds in a day.
pub const SECONDS_PER_DAY: i64 = 86_400;

/// The text of the calendar date that lies `epoch_days` days after 1 January
/// 1970, written after the `strftime` pattern `pattern`.
pub uninterp spec fn formatted_date(epoch_days: int, pattern: Seq<char>) -> Seq<char>;

/// How a day is written.
#[derive(Debug, Clone, Copy, PartialEq, Eq, Structural)]
pub enum DatePattern {
    /// Eight digits, year first: `20240131`.
    Compact,
    /// Year, month and day with hyphens: `2024-01-31`.
    Iso,
    /// Day, month and year with hyphens: `31-01-2024`.
    DayFirst,
    /// The year alone: `2024`.
    Year,
    /// The month alone, two digits: `01`.
    Month,
}

impl DatePattern {
    /// The `strftime` pattern of this way of writing.
    pub open spec fn spec_pattern(self) -> Seq<char> {
        match self {
            DatePattern::Compact => "%Y%m%d"@,
            DatePattern::Iso => "%Y-%m-%d"@,
            DatePattern::DayFirst => "%d-%m-%Y"@,
            DatePattern::Year => "%Y"@,
            DatePattern::Month => "%m"@,
        }
    }

    /// The `strftime` pattern of this way of writing.
    pub fn pattern(self) -> (p: &'static str)
        ensures
            p@ == self.spec_pattern(),
    {
        match self {
            DatePattern::Compact => "%Y%m%d",
            DatePattern::Iso => "%Y-%m-%d",
            DatePattern::DayFirst => "%d-%m-%Y",
            DatePattern::Year => "%Y",
            DatePattern::Month => "%m",
        }
    }
}

/// Whether `days` lies in the range of days that have a calendar date.
pub open spec fn in_calendar(days: int) -> bool {
    MIN_EPOCH_DAY <= days <= MAX_EPOCH_DAY
}

/// The day on which the instant `secs` seconds after the epoch falls.
pub open spec fn day_of_timestamp(secs: int) -> int {
    secs / (SECONDS_PER_DAY as int)
}

/// Whether `pattern` is one of the five patterns after which a day is
/// written here.
pub open spec fn is_known_pattern(pattern: Seq<char>) -> bool {
    ||| pattern == DatePattern::Compact.spec_pattern()
    ||| pattern == DatePattern::Iso.spec_pattern()
    ||| pattern == DatePattern::DayFirst.spec_pattern()
    ||| pattern == DatePattern::Year.spec_pattern()
    ||| pattern == DatePattern::Month.spec_pattern()
}

/// Calls `chrono::NaiveDate::from_epoch_days` and, on the date it gives,
/// `NaiveDate::format`, whose result is written out at once. It is called
/// with the five patterns above only, all of which chrono accepts. Trusted: a
/// date exists exactly for the days between `MIN_EPOCH_DAY` and
/// `MAX_EPOCH_DAY`, and the text is the one that `formatted_date` names.
#[verifier::external_body]
fn format_epoch_day(days: i32, pattern: &str) -> (text: Option<String>)
    requires
        is_known_pattern(pattern@),
    ensures
        text is Some <==> in_calendar(days as int),
        text matches Some(t) ==> t@ == formatted_date(days as int, pattern@),
{
    chrono::NaiveDate::from_epoch_days(days).map(|date| date.format(pattern).to_string())
}

/// The day, as a number of days after 1 January 1970, that `text` names when
/// read after the `strftime` pattern `pattern`; `None` where it names none.
pub uninterp spec fn parsed_date(text: Seq<char>, pattern: Seq<char>) -> Option<int>;

/// Calls `chrono::NaiveDate::parse_from_str` and, on the date it gives,
/// `to_epoch_days`. It is called with the five patterns above only. Trusted:
/// the outcome depends on the text and the pattern alone and is the one that
/// `parsed_date` names.
#[verifier::external_body]
fn parse_epoch_day(text: &str, pattern: &str) -> (days: Option<i32>)
    requires
        is_known_pattern(pattern@),
    ensures
        days matches Some(d) ==> parsed_date(text@, pattern@) == Some(d as int),
        days is None ==> parsed_date(text@, pattern@) is None,
{
    chrono::NaiveDate::parse_from_str(text, pattern).ok().map(|date| date.to_epoch_days())
}

/// The day that a text names, where it names one that has a calendar date.
pub open spec fn parsed_day(text: Seq<char>, pattern: Seq<char>) -> Option<int> {
    match parsed_date(text, pattern) {
        Some(d) => if in_calendar(d) {
            Some(d)
        } else {
            None
        },
        None => None,
    }
}

/// A calendar day.
#[derive(Debug, Clone, Copy, PartialEq, Eq, Structural, Hash)]
pub struct Day {
    days: i32,
}

impl View for Day {
    type V = int;

    /// The number of days from 1 January 1970 to this day.
    closed spec fn view(&self) -> int {
        self.days as int
    }
}

impl Day {
    #[verifier::type_invariant]
    spec fn in_range(self) -> bool {
        MIN_EPOCH_DAY <= self.days <= MAX_EPOCH_DAY
    }

    /// Two days with the same number are the same day.
    pub proof fn lemma_view_injective(self, other: Day)
        ensures
            self@ == other@ <==> self == other,
    {
    }

    /// 1 January 1970.
    pub fn epoch() -> (day: Day)
        ensures
            day@ == 0,
    {
        Day { days: 0 }
    }

    /// The day that lies `days` days after 1 January 1970, if it has a
    /// calendar date.
    pub fn from_epoch_days(days: i32) -> (r: Option<Day>)
        ensures
            r is Some <==> in_calendar(days as int),
            r matches Some(d) ==> d@ == days,
    {
        if days >= MIN_EPOCH_DAY && days <= MAX_EPOCH_DAY {
            Some(Day { days })
        } else {
            None
        }
    }

    /// Number of days from 1 January 1970 to this day.
    pub fn epoch_days(self) -> (days: i32)
        ensures
            days == self@,
            in_calendar(days as int),
    {
        proof {
            use_type_invariant(&self);
        }
        self.days
    }

    /// Seconds from the epoch to this day's midnight, in UTC.
    pub fn timestamp(self) -> (secs: i64)
        ensures
            secs == self@ * SECONDS_PER_DAY,
    {
        proof {
            use_type_invariant(&self);
        }
        let days: i64 = self.days as i64;
        days * SECONDS_PER_DAY
    }

    /// The day on which the instant `secs` seconds after the epoch falls, in
    /// UTC; `None` where that day has no calendar date.
    pub fn from_timestamp(secs: i64) -> (r: Option<Day>)
        ensures
            r is Some <==> in_calendar(day_of_timestamp(secs as int)),
            r matches Some(d) ==> d@ == day_of_timestamp(secs as int),
    {
        let whole: i64 = secs / SECONDS_PER_DAY;
        let floor: i64 = if secs % SECONDS_PER_DAY < 0 {
            whole - 1
        } else {
            whole
        };
        assert(floor == day_of_timestamp(secs as int));
        if floor >= MIN_EPOCH_DAY as i64 && floor <= MAX_EPOCH_DAY as i64 {
            Some(Day { days: floor as i32 })
        } else {
            None
        }
    }

    /// The day `n` days before this one (after it, for a negative `n`);
    /// `None` where that day has no calendar date.
    pub fn minus_days(self, n: i64) -> (r: Option<Day>)
        ensures
            in_calendar(self@),
            r is Some <==> in_calendar(self@ - n),
            r matches Some(d) ==> d@ == self@ - n,
    {
        proof {
            use_type_invariant(&self);
        }
        let here: i64 = self.days as i64;
        if n > here - MIN_EPOCH_DAY as i64 || n < here - MAX_EPOCH_DAY as i64 {
            None
        } else {
            let there: i64 = here - n;
            Some(Day { days: there as i32 })
        }
    }

    /// The day before this one.
    pub fn pred(self) -> (r: Option<Day>)
        ensures
            in_calendar(self@),
            r is Some <==> in_calendar(self@ - 1),
            r matches Some(d) ==> d@ == self@ - 1,
    {
        self.minus_days(1)
    }

    /// Days from `earlier` to this day; negative where `earlier` is later.
    pub fn days_since(self, earlier: Day) -> (n: i64)
        ensures
            n == self@ - earlier@,
    {
        proof {
            use_type_invariant(&self);
            use_type_invariant(&earlier);
        }
        self.days as i64 - earlier.days as i64
    }

    /// Whether this day is `other` or comes before it.
    pub fn is_on_or_before(self, other: Day) -> (yes: bool)
        ensures
            in_calendar(self@),
            in_calendar(other@),
            yes == (self@ <= other@),
    {
        proof {
            use_type_invariant(&self);
            use_type_invariant(&other);
        }
        self.days <= other.days
    }

    /// Reads a day that is written after `pattern`.
    pub fn parse(text: &str, pattern: DatePattern) -> (r: Option<Day>)
        ensures
            r is Some <==> parsed_day(text@, pattern.spec_pattern()) is Some,
            r matches Some(d) ==> parsed_day(text@, pattern.spec_pattern()) == Some(d@),
    {
        match parse_epoch_day(text, pattern.pattern()) {
            Some(days) => Day::from_epoch_days(days),
            None => None,
        }
    }

    /// Writes this day after `pattern`.
    pub fn format(self, pattern: DatePattern) -> (text: String)
        ensures
            text@ == formatted_date(self@, pattern.spec_pattern()),
    {
        proof {
            use_type_invariant(&self);
        }
        match format_epoch_day(self.days, pattern.pattern()) {
            Some(text) => text,
            None => String::new(),
        }
    }
}

} // verus!
