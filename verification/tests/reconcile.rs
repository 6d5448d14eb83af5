use indistocks::day::{DatePattern, Day};
use indistocks::reconcile::{missing_record, orphaned_records, parse_history_name, HistoryName};
use indistocks::store::batch_ranges;

#[test]
fn days_are_read_after_a_pattern() {
    assert_eq!(Day::parse("31-01-2024", DatePattern::DayFirst), Day::from_epoch_days(19_753));
    assert_eq!(Day::parse("2024-01-31", DatePattern::Iso), Day::from_epoch_days(19_753));
    assert_eq!(Day::parse("20240131", DatePattern::Compact), Day::from_epoch_days(19_753));
    assert_eq!(Day::parse("31-02-2024", DatePattern::DayFirst), None);
    assert_eq!(Day::parse("2024-01-31", DatePattern::DayFirst), None);
    assert_eq!(Day::parse("", DatePattern::Iso), None);
    assert_eq!(Day::parse("2024", DatePattern::Year), None);
    assert_eq!(Day::parse("01", DatePattern::Month), None);
    let d = Day::from_epoch_days(12_345).unwrap();
    for pattern in [DatePattern::Compact, DatePattern::Iso, DatePattern::DayFirst] {
        assert_eq!(Day::parse(&d.format(pattern), pattern), Some(d));
    }
}

#[test]
fn a_name_with_compact_dates_tells_symbol_and_range() {
    assert_eq!(
        parse_history_name("historical_TCS_01012024_31012024.csv"),
        Some(HistoryName { symbol: "TCS".to_string(), from_date: 19_723 * 86_400, to_date: 19_753 * 86_400 })
    );
    assert_eq!(
        parse_history_name("historical_TCS_01012024_31012024_copy.csv"),
        Some(HistoryName { symbol: "TCS".to_string(), from_date: 19_723 * 86_400, to_date: 19_753 * 86_400 })
    );
}

#[test]
fn runs_that_are_no_dates_count_as_the_epoch() {
    assert_eq!(
        parse_history_name("historical_TCS_01-01-2024_31-01-2024.csv"),
        Some(HistoryName { symbol: "TCS".to_string(), from_date: 0, to_date: 0 })
    );
    assert_eq!(
        parse_history_name("historical__abcd_31012024.csv"),
        Some(HistoryName { symbol: String::new(), from_date: 0, to_date: 19_753 * 86_400 })
    );
    assert_eq!(
        parse_history_name("historical_M_M_01012024_31012024.csv"),
        None
    );
}

#[test]
fn other_names_tell_nothing() {
    for name in [
        "", "bhavcopy_20240131.csv", "historical_TCS_01012024.csv", "historical_TCS.csv", "historical_.csv",
        "historical_TCS_01012024_31012024.zip", "Historical_TCS_01012024_31012024.csv", "historical_TCS_010_31012024.csv",
        "historical_TCS_01012024_310.csv", "historical_", ".csv", "historical.csv", "historical_.cs",
    ] {
        assert_eq!(parse_history_name(name), None, "name {:?}", name);
    }
}

#[test]
fn a_file_without_a_record_gets_a_completed_one() {
    let name = HistoryName { symbol: "TCS".to_string(), from_date: 10, to_date: 20 };
    let record = missing_record(name, "/data/historical_TCS.csv".to_string(), Some(42));
    assert_eq!(record.symbol, Some("TCS".to_string()));
    assert_eq!((record.from_date, record.to_date), (10, 20));
    assert_eq!(record.file_path, "/data/historical_TCS.csv");
    assert_eq!(record.file_size, Some(42));
    assert_eq!(record.status, "completed");
    assert_eq!(record.error_message, None);
}

#[test]
fn records_without_an_artifact_are_listed() {
    assert_eq!(orphaned_records(&vec![1, 2, 3, 4], &vec![true, false, true, false]), vec![2, 4]);
    assert_eq!(orphaned_records(&vec![1, 2], &vec![true, true]), Vec::<i64>::new());
    assert_eq!(orphaned_records(&vec![], &vec![]), Vec::<i64>::new());
    assert_eq!(orphaned_records(&vec![1, 2], &vec![false]), Vec::<i64>::new());
}

#[test]
fn batches_lie_end_to_end() {
    assert_eq!(batch_ranges(0), vec![]);
    assert_eq!(batch_ranges(1), vec![(0, 1)]);
    assert_eq!(batch_ranges(100), vec![(0, 100)]);
    assert_eq!(batch_ranges(101), vec![(0, 100), (100, 101)]);
    assert_eq!(batch_ranges(250), vec![(0, 100), (100, 200), (200, 250)]);
}
