use indistocks::day::Day;
use indistocks::models::NseDownload;
use indistocks::record::TradingDayRecord;
use indistocks::store::{MemoryStore, StoreWriteError, UpsertReport, BATCH_SIZE};

fn day(n: i32) -> Day {
    Day::from_epoch_days(n).unwrap()
}

fn row(symbol: &str, on: i32, close: &str) -> TradingDayRecord {
    TradingDayRecord {
        symbol: symbol.to_string(),
        series: "EQ".to_string(),
        date: day(on),
        open: "1".to_string(),
        high: "2".to_string(),
        low: "0.5".to_string(),
        close: close.to_string(),
        last: "1".to_string(),
        prev_close: "1".to_string(),
        volume: 10,
        turnover: "100".to_string(),
        trades: 3,
        isin: "IN".to_string(),
    }
}

fn attempt(symbol: Option<&str>, from: i64, to: i64, status: &str, path: &str) -> NseDownload {
    NseDownload {
        id: 77,
        symbol: symbol.map(|s| s.to_string()),
        from_date: from,
        to_date: to,
        file_path: path.to_string(),
        file_size: Some(5),
        status: status.to_string(),
        error_message: None,
        downloaded_at: 123,
    }
}

#[test]
fn two_hundred_and_fifty_rows_go_in_three_batches() {
    let rows: Vec<TradingDayRecord> = (0..250).map(|i| row(&format!("S{}", i), 100, "1")).collect();
    let mut store = MemoryStore::new();
    let report = store.upsert_trading_day(&rows);
    assert_eq!(report, UpsertReport { batches: vec![100, 100, 50], inserted: 250, ignored: 0 });
    assert_eq!(store.row_count(), 250);
    assert_eq!(store.row(0), Some(&rows[0]));
    assert_eq!(store.row(249), Some(&rows[249]));
    assert_eq!(store.row(250), None);
}

#[test]
fn batch_sizes_at_the_edges() {
    assert_eq!(BATCH_SIZE, 100);
    for (n, expected) in [
        (0usize, vec![]),
        (1, vec![1]),
        (99, vec![99]),
        (100, vec![100]),
        (101, vec![100, 1]),
        (200, vec![100, 100]),
        (201, vec![100, 100, 1]),
    ] {
        let rows: Vec<TradingDayRecord> = (0..n).map(|i| row(&format!("S{}", i), 1, "1")).collect();
        let mut store = MemoryStore::new();
        assert_eq!(store.upsert_trading_day(&rows).batches, expected, "n = {}", n);
        assert_eq!(store.row_count(), n);
    }
}

#[test]
fn upserting_a_day_twice_changes_nothing() {
    let rows: Vec<TradingDayRecord> = (0..150).map(|i| row(&format!("S{}", i), 100, "1")).collect();
    let mut store = MemoryStore::new();
    store.upsert_trading_day(&rows);
    let before: Vec<TradingDayRecord> = (0..store.row_count()).map(|i| store.row(i).unwrap().clone()).collect();
    let report = store.upsert_trading_day(&rows);
    assert_eq!(report, UpsertReport { batches: vec![100, 50], inserted: 0, ignored: 150 });
    let after: Vec<TradingDayRecord> = (0..store.row_count()).map(|i| store.row(i).unwrap().clone()).collect();
    assert_eq!(before, after);
    assert_eq!(store.row_count(), 150);
}

#[test]
fn a_duplicate_is_dropped_and_the_first_row_stays() {
    let mut store = MemoryStore::new();
    let rows = vec![row("A", 1, "10"), row("B", 1, "20"), row("A", 1, "30"), row("A", 2, "40")];
    let report = store.upsert_trading_day(&rows);
    assert_eq!((report.inserted, report.ignored), (3, 1));
    assert_eq!(store.row_count(), 3);
    assert_eq!(store.row(0).unwrap().close, "10");
    assert_eq!(store.row(2).unwrap().date, day(2));
    let again = store.upsert_trading_day(&vec![row("A", 1, "99"), row("C", 1, "1")]);
    assert_eq!((again.inserted, again.ignored), (1, 1));
    assert_eq!(store.row(0).unwrap().close, "10");
    assert!(store.contains_key(&row("A", 1, "x")));
    assert!(!store.contains_key(&row("a", 1, "x")));
    assert!(!store.contains_key(&row("A", 3, "x")));
}

#[test]
fn the_extent_spans_the_earliest_and_latest_day() {
    let mut store = MemoryStore::new();
    assert_eq!(store.get_date_extent(None), None);
    store.upsert_trading_day(&vec![row("A", 50, "1"), row("B", 40, "1"), row("A", 60, "1"), row("B", 45, "1")]);
    assert_eq!(store.get_date_extent(None), Some((day(40), day(60))));
    assert_eq!(store.get_date_extent(Some(&"A".to_string())), Some((day(50), day(60))));
    assert_eq!(store.get_date_extent(Some(&"B".to_string())), Some((day(40), day(45))));
    assert_eq!(store.get_date_extent(Some(&"C".to_string())), None);
}

#[test]
fn an_attempt_is_inserted_or_updated_by_its_key() {
    let mut store = MemoryStore::new();
    assert_eq!(store.record_attempt(attempt(None, 100, 100, "failed", "a"), 1000), Ok(1));
    assert_eq!(store.record_attempt(attempt(Some("X"), 100, 100, "completed", "b"), 1001), Ok(2));
    assert_eq!(store.record_attempt(attempt(None, 100, 200, "completed", "c"), 1002), Ok(3));
    assert_eq!(store.attempt_count(), 3);
    assert_eq!(store.completed_attempts(), 2);
    assert_eq!(store.record_attempt(attempt(None, 100, 100, "completed", "d"), 2000), Ok(1));
    assert_eq!(store.attempt_count(), 3);
    assert_eq!(store.completed_attempts(), 3);
    let first = store.attempt(0).unwrap();
    assert_eq!(first.id, 1);
    assert_eq!(first.file_path, "d");
    assert_eq!(first.status, "completed");
    assert_eq!(first.downloaded_at, 2000);
    assert_eq!(store.attempt(1).unwrap().downloaded_at, 1001);
    assert_eq!(store.record_attempt(attempt(Some("Y"), 100, 100, "completed", "e"), 3000), Ok(4));
    assert_eq!(store.attempt(3).unwrap().to_record().id, 4);
    assert_eq!(store.attempt(4), None);
}

#[test]
fn clearing_keeps_the_attempts_of_symbols() {
    let mut store = MemoryStore::new();
    store.upsert_trading_day(&vec![row("A", 1, "1"), row("B", 1, "1")]);
    store.record_attempt(attempt(None, 1, 1, "completed", "a"), 1).unwrap();
    store.record_attempt(attempt(Some("X"), 1, 1, "completed", "b"), 2).unwrap();
    store.record_attempt(attempt(None, 2, 2, "completed", "c"), 3).unwrap();
    store.clear_bhavcopy_data();
    assert_eq!(store.row_count(), 0);
    assert_eq!(store.get_date_extent(None), None);
    assert_eq!(store.attempt_count(), 1);
    assert_eq!(store.attempt(0).unwrap().file_path, "b");
    assert_eq!(store.record_attempt(attempt(None, 1, 1, "completed", "z"), 4), Ok(4));
    assert_eq!(store.upsert_trading_day(&vec![row("A", 1, "1")]).inserted, 1);
}

#[test]
fn a_store_without_identifiers_left_refuses_a_new_attempt() {
    let mut store = MemoryStore::starting_at(i64::MAX - 1);
    assert_eq!(store.record_attempt(attempt(None, 1, 1, "completed", "a"), 1), Ok(i64::MAX - 1));
    assert_eq!(store.record_attempt(attempt(None, 2, 2, "completed", "b"), 2), Err(StoreWriteError::Full));
    assert_eq!(store.attempt_count(), 1);
    assert_eq!(store.record_attempt(attempt(None, 1, 1, "failed", "c"), 3), Ok(i64::MAX - 1));
    assert_eq!(store.attempt(0).unwrap().status, "failed");
    assert_eq!(MemoryStore::starting_at(-5).record_attempt(attempt(None, 1, 1, "completed", "a"), 1), Ok(1));
}
