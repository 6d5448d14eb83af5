use indistocks::day::Day;
use indistocks::progress::{
    announce_line, attempt_line, completed_line, count_text, http_error_line, invalid_line,
    limit_line, network_error_line, processing_line, threshold_line,
};

fn day(n: i32) -> Day {
    Day::from_epoch_days(n).unwrap()
}

#[test]
fn lines_read_as_an_observer_expects() {
    let d = day(19_753);
    assert_eq!(announce_line(d, day(19_388)), "Downloading BhavCopy data from 2023-01-31 to 2024-01-31");
    assert_eq!(limit_line(5), "Reached download limit of 5 files");
    assert_eq!(threshold_line(10), "Stopping after 10 consecutive days with no data available");
    assert_eq!(attempt_line(d, 12, 7, 3), "Downloading 2024-01-31 (attempt 12, 7 downloaded, 3 consecutive error days)");
    assert_eq!(http_error_line("503 Service Unavailable", d), "   HTTP error 503 Service Unavailable for 2024-01-31");
    assert_eq!(network_error_line("dns error", d), "   Network error: dns error for 2024-01-31");
    assert_eq!(invalid_line(d), "   Invalid CSV for 2024-01-31");
    assert_eq!(processing_line(d), "Processing 2024-01-31 data into database...");
    assert_eq!(completed_line(d, 1), "Completed 2024-01-31 (1 files processed)");
}

#[test]
fn counts_are_written_in_decimal() {
    assert_eq!(count_text(0), "0");
    assert_eq!(count_text(10), "10");
    assert_eq!(count_text(u64::MAX), "18446744073709551615");
}
