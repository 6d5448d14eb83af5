use indistocks::day::Day;
use indistocks::fetch::{
    accepts_content_type, attempts_used, artifact_path, bhavcopy_url, classify, historical_file_name,
    historical_url, retry_decision, FetchOutcome, Response, RetryDecision, DEFAULT_MAX_ATTEMPTS,
    MIN_REQUEST_INTERVAL_MS, REQUEST_TIMEOUT_SECS,
};

fn day(n: i32) -> Day {
    Day::from_epoch_days(n).unwrap()
}

fn response(status: u16, text: &str, content_type: &str) -> Response {
    Response { status, status_text: text.to_string(), content_type: content_type.to_string(), body: vec![1, 2, 3] }
}

fn csv_types() -> Vec<String> {
    vec!["text/csv".to_string(), "application/octet-stream".to_string()]
}

#[test]
fn policy_constants() {
    assert_eq!(MIN_REQUEST_INTERVAL_MS, 350);
    assert_eq!(REQUEST_TIMEOUT_SECS, 15);
    assert_eq!(DEFAULT_MAX_ATTEMPTS, 3);
}

#[test]
fn a_success_status_with_any_content_is_a_success_where_nothing_is_expected() {
    assert_eq!(
        classify(Ok(response(200, "200 OK", "text/html")), &vec![]),
        FetchOutcome::Success { body: vec![1, 2, 3], content_type: "text/html".to_string() }
    );
    assert_eq!(
        classify(Ok(response(299, "299", "")), &vec![]),
        FetchOutcome::Success { body: vec![1, 2, 3], content_type: String::new() }
    );
}

#[test]
fn a_status_outside_the_two_hundreds_is_retryable() {
    for (status, text) in [(404, "404 Not Found"), (199, "199"), (300, "300 Multiple Choices"), (500, "500 Internal Server Error"), (0, "0")] {
        assert_eq!(
            classify(Ok(response(status, text, "text/csv")), &csv_types()),
            FetchOutcome::RetryableFailure { reason: text.to_string() }
        );
    }
}

#[test]
fn an_unexpected_content_type_is_retryable() {
    assert_eq!(
        classify(Ok(response(200, "200 OK", "text/html; charset=utf-8")), &csv_types()),
        FetchOutcome::RetryableFailure { reason: "Unexpected content type, expected CSV".to_string() }
    );
    assert_eq!(
        classify(Ok(response(200, "200 OK", "text/csv; charset=utf-8")), &csv_types()),
        FetchOutcome::Success { body: vec![1, 2, 3], content_type: "text/csv; charset=utf-8".to_string() }
    );
    assert!(accepts_content_type("application/octet-stream", &csv_types()));
    assert!(!accepts_content_type("", &csv_types()));
    assert!(!accepts_content_type("TEXT/CSV", &csv_types()));
    assert!(accepts_content_type("", &vec![]));
}

#[test]
fn a_transport_error_is_a_transport_failure() {
    assert_eq!(
        classify(Err("connection reset".to_string()), &csv_types()),
        FetchOutcome::TransportFailure { reason: "connection reset".to_string() }
    );
}

#[test]
fn only_transport_failures_are_asked_again_while_attempts_are_left() {
    let transport = FetchOutcome::TransportFailure { reason: "x".to_string() };
    let retryable = FetchOutcome::RetryableFailure { reason: "404".to_string() };
    let success = FetchOutcome::Success { body: vec![], content_type: String::new() };
    assert_eq!(retry_decision(&transport, 1, 3), RetryDecision::Again);
    assert_eq!(retry_decision(&transport, 2, 3), RetryDecision::Again);
    assert_eq!(retry_decision(&transport, 3, 3), RetryDecision::Deliver);
    assert_eq!(retry_decision(&transport, 4, 3), RetryDecision::Deliver);
    assert_eq!(retry_decision(&transport, 1, 0), RetryDecision::Deliver);
    assert_eq!(retry_decision(&retryable, 1, 3), RetryDecision::Deliver);
    assert_eq!(retry_decision(&success, 1, 3), RetryDecision::Deliver);
}

#[test]
fn addresses_and_names() {
    assert_eq!(
        bhavcopy_url(day(19_753)),
        "https://nsearchives.nseindia.com/content/cm/BhavCopy_NSE_CM_0_0_0_20240131_F_0000.csv.zip"
    );
    assert_eq!(
        historical_url("HDFCBANK", day(19_723), day(19_753)),
        "https://www.nseindia.com/api/historicalOR/generateSecurityWiseHistoricalData?from=01-01-2024&to=31-01-2024&symbol=HDFCBANK&type=priceVolumeDeliverable&series=ALL&csv=true"
    );
    assert_eq!(artifact_path(day(19_753)), "2024/01/bhavcopy_20240131.csv");
    assert_eq!(historical_file_name("TCS", day(19_723), day(19_753)), "historical_TCS_01-01-2024_31-01-2024.csv");
}

#[test]
fn the_bounded_retry_gives_up_after_its_attempts() {
    let fail = || FetchOutcome::TransportFailure { reason: "x".to_string() };
    let refuse = || FetchOutcome::RetryableFailure { reason: "404".to_string() };
    let good = || FetchOutcome::Success { body: vec![], content_type: String::new() };
    assert_eq!(attempts_used(&vec![], 3), 0);
    assert_eq!(attempts_used(&vec![good(), fail()], 3), 1);
    assert_eq!(attempts_used(&vec![refuse(), good()], 3), 1);
    assert_eq!(attempts_used(&vec![fail(), good(), fail()], 3), 2);
    assert_eq!(attempts_used(&vec![fail(), fail(), good(), good()], 3), 3);
    assert_eq!(attempts_used(&vec![fail(), fail(), fail(), good()], 3), 3);
    assert_eq!(attempts_used(&vec![fail(), fail(), fail(), fail(), fail()], 3), 3);
    assert_eq!(attempts_used(&vec![fail(), fail()], 3), 2);
    assert_eq!(attempts_used(&vec![fail(), fail()], 1), 1);
    assert_eq!(attempts_used(&vec![fail(), fail()], 0), 1);
}
