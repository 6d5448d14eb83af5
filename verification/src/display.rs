//! Small presentation decisions that depend on integers only.

use vstd::prelude::*;

verus! {

/// The look-back window over which a stock's low and high are reported.
#[derive(Debug, Clone, Copy, PartialEq, Eq, Structural)]
pub enum RangeType {
    Last5Days,
    Last30Days,
    Last52Weeks,
}

/// The unit in which a traded volume is abbreviated.
#[derive(Debug, Clone, Copy, PartialEq, Eq, Structural)]
pub enum VolumeScale {
    /// Ten million and above: shown in millions.
    Millions,
    /// One hundred thousand and above: shown in lakhs.
    Lakhs,
    /// One thousand and above: shown in thousands.
    Thousands,
    /// Anything smaller, negative volumes included: shown as it is.
    Units,
}

impl RangeType {
    /// Number of calendar days that the window spans.
    pub open spec fn spec_days(self) -> int {
        match self {
            RangeType::Last5Days => 5,
            RangeType::Last30Days => 30,
            RangeType::Last52Weeks => 365,
        }
    }

    /// Number of calendar days that the window spans.
    pub fn days(self) -> (d: i64)
        ensures
            d == self.spec_days(),
    {
        match self {
            RangeType::Last5Days => 5,
            RangeType::Last30Days => 30,
            RangeType::Last52Weeks => 365,
        }
    }
}

/// The label of a look-back window, as a sequence of characters.
pub open spec fn range_label(range_type: RangeType) -> Seq<char> {
    match range_type {
        RangeType::Last5Days => "Last 5 Days"@,
        RangeType::Last30Days => "Last 30 Days"@,
        RangeType::Last52Weeks => "Last 52 Weeks"@,
    }
}

/// Human-readable label of a look-back window.
pub fn range_type_label(range_type: RangeType) -> (label: &'static str)
    ensures
        label@ == range_label(range_type),
{
    match range_type {
        RangeType::Last5Days => "Last 5 Days",
        RangeType::Last30Days => "Last 30 Days",
        RangeType::Last52Weeks => "Last 52 Weeks",
    }
}

/// The axis date pattern for a chart that spans `days_diff` days.
pub open spec fn axis_pattern(days_diff: int) -> Seq<char> {
    if days_diff <= 365 {
        "%d/%m"@
    } else {
        "%b/%Y"@
    }
}

/// Whether a chart that spans `days_diff` days thins out its axis ticks.
pub open spec fn axis_filters_ticks(days_diff: int) -> bool {
    days_diff > 90
}

/// Chooses the axis date pattern and whether ticks are thinned out: day and
/// month up to a year, month and year beyond; every tick up to ninety days.
pub fn get_date_format_and_filter(days_diff: i64) -> (r: (String, bool))
    ensures
        r.0@ == axis_pattern(days_diff as int),
        r.1 == axis_filters_ticks(days_diff as int),
{
    if days_diff <= 90 {
        (String::from_str("%d/%m"), false)
    } else if days_diff <= 365 {
        (String::from_str("%d/%m"), true)
    } else {
        (String::from_str("%b/%Y"), true)
    }
}

/// The unit in which `volume` is abbreviated.
pub open spec fn scale_of(volume: int) -> VolumeScale {
    if volume >= 10_000_000 {
        VolumeScale::Millions
    } else if volume >= 100_000 {
        VolumeScale::Lakhs
    } else if volume >= 1_000 {
        VolumeScale::Thousands
    } else {
        VolumeScale::Units
    }
}

/// Picks the unit in which a traded volume is abbreviated.
pub fn volume_scale(volume: i64) -> (scale: VolumeScale)
    ensures
        scale == scale_of(volume as int),
{
    if volume >= 10_000_000 {
        VolumeScale::Millions
    } else if volume >= 100_000 {
        VolumeScale::Lakhs
    } else if volume >= 1_000 {
        VolumeScale::Thousands
    } else {
        VolumeScale::Units
    }
}

} // verus!
