use indistocks::display::{get_date_format_and_filter, range_type_label, volume_scale, RangeType, VolumeScale};

#[test]
fn range_labels_name_each_window() {
    assert_eq!(range_type_label(RangeType::Last5Days), "Last 5 Days");
    assert_eq!(range_type_label(RangeType::Last30Days), "Last 30 Days");
    assert_eq!(range_type_label(RangeType::Last52Weeks), "Last 52 Weeks");
}

#[test]
fn axis_format_switches_at_ninety_days_and_a_year() {
    assert_eq!(get_date_format_and_filter(0), ("%d/%m".to_string(), false));
    assert_eq!(get_date_format_and_filter(90), ("%d/%m".to_string(), false));
    assert_eq!(get_date_format_and_filter(91), ("%d/%m".to_string(), true));
    assert_eq!(get_date_format_and_filter(365), ("%d/%m".to_string(), true));
    assert_eq!(get_date_format_and_filter(366), ("%b/%Y".to_string(), true));
    assert_eq!(get_date_format_and_filter(-5), ("%d/%m".to_string(), false));
}

#[test]
fn volume_scale_boundaries() {
    assert_eq!(volume_scale(10_000_000), VolumeScale::Millions);
    assert_eq!(volume_scale(9_999_999), VolumeScale::Lakhs);
    assert_eq!(volume_scale(100_000), VolumeScale::Lakhs);
    assert_eq!(volume_scale(99_999), VolumeScale::Thousands);
    assert_eq!(volume_scale(1_000), VolumeScale::Thousands);
    assert_eq!(volume_scale(999), VolumeScale::Units);
    assert_eq!(volume_scale(-20_000_000), VolumeScale::Units);
}

#[test]
fn range_windows_in_days() {
    assert_eq!(RangeType::Last5Days.days(), 5);
    assert_eq!(RangeType::Last30Days.days(), 30);
    assert_eq!(RangeType::Last52Weeks.days(), 365);
}
