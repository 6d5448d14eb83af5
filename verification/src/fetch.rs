//! What is asked of the remote archive, and how its answers are classified.
//! The request itself is made elsewhere; here are the rules around it.

use vstd::prelude::*;
use crate::day::{formatted_date, DatePattern, Day};
use crate::text::{chars_of, contains, text_contains};

verus! {

/// Least time between two requests, in milliseconds: under three requests a
/// second.
pub const MIN_REQUEST_INTERVAL_MS: u64 = 350;

/// Longest wait for one response, in seconds.
pub const REQUEST_TIMEOUT_SECS: u64 = 15;

/// Attempts that the bounded-retry fetch makes unless told otherwise.
pub const DEFAULT_MAX_ATTEMPTS: u32 = 3;

/// A response as the transport hands it over.
#[derive(Debug, Clone, PartialEq, Eq)]
pub struct Response {
    /// The status code.
    pub status: u16,
    /// The status as a line shows it: code and reason.
    pub status_text: String,
    /// The content type that the response declares, empty where it declares
    /// none.
    pub content_type: String,
    /// The body.
    pub body: Vec<u8>,
}

/// The outcome of one fetch.
#[derive(Debug, Clone, PartialEq, Eq)]
pub enum FetchOutcome {
    /// The transport completed and the status tells of success.
    Success { body: Vec<u8>, content_type: String },
    /// The remote side answered, but with no usable content: a status that
    /// tells of no success, or a content type other than expected. `reason`
    /// is the status as a line shows it.
    RetryableFailure { reason: String },
    /// The request did not get through.
    TransportFailure { reason: String },
}

/// The mathematical content of a fetch's outcome.
pub enum OutcomeView {
    Success { body: Seq<u8>, content_type: Seq<char> },
    RetryableFailure { reason: Seq<char> },
    TransportFailure { reason: Seq<char> },
}

impl View for FetchOutcome {
    type V = OutcomeView;

    open spec fn view(&self) -> OutcomeView {
        match self {
            FetchOutcome::Success { body, content_type } => OutcomeView::Success {
                body: body@,
                content_type: content_type@,
            },
            FetchOutcome::RetryableFailure { reason } => OutcomeView::RetryableFailure {
                reason: reason@,
            },
            FetchOutcome::TransportFailure { reason } => OutcomeView::TransportFailure {
                reason: reason@,
            },
        }
    }
}

/// Whether a status code tells of success: 200 to 299.
pub open spec fn is_success_status(status: int) -> bool {
    200 <= status <= 299
}

/// Whether `content_type` is as expected: it holds one of `expected`, or
/// nothing is expected.
pub open spec fn content_type_accepted(content_type: Seq<char>, expected: Seq<Seq<char>>) -> bool {
    expected.len() == 0 || exists|i: int|
        0 <= i < expected.len() && contains(content_type, #[trigger] expected[i])
}

/// The content types under which the per-symbol endpoint sends its table.
pub open spec fn historical_content_types() -> Seq<Seq<char>> {
    seq!["text/csv"@, "application/octet-stream"@]
}

/// Lists the content types under which the per-symbol endpoint sends its
/// table.
pub fn expected_for_history() -> (expected: Vec<String>)
    ensures
        expected_view(expected@) == historical_content_types(),
{
    let mut expected: Vec<String> = Vec::new();
    expected.push(String::from_str("text/csv"));
    expected.push(String::from_str("application/octet-stream"));
    proof {
        assert(expected_view(expected@) =~= historical_content_types());
    }
    expected
}

/// The line that tells of an unexpected content type.
pub open spec fn unexpected_content_text() -> Seq<char> {
    "Unexpected content type, expected CSV"@
}

/// The outcome of a fetch, from what the transport returned: a response, or
/// the description of its failure.
pub open spec fn classified(
    status: int,
    status_text: Seq<char>,
    content_type: Seq<char>,
    body: Seq<u8>,
    expected: Seq<Seq<char>>,
) -> OutcomeView {
    if !is_success_status(status) {
        OutcomeView::RetryableFailure { reason: status_text }
    } else if !content_type_accepted(content_type, expected) {
        OutcomeView::RetryableFailure { reason: unexpected_content_text() }
    } else {
        OutcomeView::Success { body, content_type }
    }
}

/// The views of a sequence of strings.
pub open spec fn expected_view(expected: Seq<String>) -> Seq<Seq<char>> {
    Seq::new(expected.len(), |i: int| expected[i]@)
}

/// Tells whether `content_type` is as expected.
pub fn accepts_content_type(content_type: &str, expected: &Vec<String>) -> (yes: bool)
    ensures
        yes == content_type_accepted(content_type@, expected_view(expected@)),
{
    if expected.len() == 0 {
        return true;
    }
    let declared = chars_of(content_type);
    let mut i: usize = 0;
    while i < expected.len()
        invariant
            0 <= i <= expected.len(),
            declared@ == content_type@,
            forall|j: int|
                0 <= j < i ==> !contains(content_type@, #[trigger] expected_view(expected@)[j]),
        decreases expected.len() - i,
    {
        let wanted = chars_of(expected[i].as_str());
        if text_contains(&declared, &wanted) {
            proof {
                assert(contains(content_type@, expected_view(expected@)[i as int]));
            }
            return true;
        }
        i = i + 1;
    }
    false
}

/// Classifies a response: a success where the status tells of one and the
/// content type is as expected, a retryable failure otherwise.
pub fn classify_response(response: Response, expected: &Vec<String>) -> (outcome: FetchOutcome)
    ensures
        outcome@ == classified(
            response.status as int,
            response.status_text@,
            response.content_type@,
            response.body@,
            expected_view(expected@),
        ),
{
    if response.status < 200 || response.status > 299 {
        FetchOutcome::RetryableFailure { reason: response.status_text }
    } else if !accepts_content_type(response.content_type.as_str(), expected) {
        FetchOutcome::RetryableFailure {
            reason: String::from_str("Unexpected content type, expected CSV"),
        }
    } else {
        FetchOutcome::Success { body: response.body, content_type: response.content_type }
    }
}

/// Classifies what the transport returned: its failure is a transport
/// failure, its response is classified by status and content type.
pub fn classify(transport: Result<Response, String>, expected: &Vec<String>) -> (outcome:
    FetchOutcome)
    ensures
        match transport {
            Ok(response) => outcome@ == classified(
                response.status as int,
                response.status_text@,
                response.content_type@,
                response.body@,
                expected_view(expected@),
            ),
            Err(reason) => outcome@ == (OutcomeView::TransportFailure { reason: reason@ }),
        },
{
    match transport {
        Ok(response) => classify_response(response, expected),
        Err(reason) => FetchOutcome::TransportFailure { reason },
    }
}

/// What the bounded-retry fetch does with the outcome of an attempt.
#[derive(Debug, Clone, Copy, PartialEq, Eq, Structural)]
pub enum RetryDecision {
    /// Hand the outcome to the caller.
    Deliver,
    /// Wait the minimum interval and ask again.
    Again,
}

/// Whether the outcome of attempt number `attempt`, counted from 1, is
/// followed by another attempt: it is a transport failure, and fewer than
/// `max_attempts` attempts were made.
pub open spec fn retries(outcome: OutcomeView, attempt: int, max_attempts: int) -> bool {
    outcome is TransportFailure && attempt < max_attempts
}

/// Decides what follows attempt number `attempt`, counted from 1. Only a
/// transport failure is asked again, and only while attempts are left; a
/// failure is delivered once they are exhausted.
pub fn retry_decision(outcome: &FetchOutcome, attempt: u32, max_attempts: u32) -> (decision:
    RetryDecision)
    ensures
        decision == if retries(outcome@, attempt as int, max_attempts as int) {
            RetryDecision::Again
        } else {
            RetryDecision::Deliver
        },
{
    match outcome {
        FetchOutcome::TransportFailure { .. } => if attempt < max_attempts {
            RetryDecision::Again
        } else {
            RetryDecision::Deliver
        },
        _ => RetryDecision::Deliver,
    }
}

/// The contents of a sequence of outcomes.
pub open spec fn answers_of(outcomes: Seq<FetchOutcome>) -> Seq<OutcomeView> {
    Seq::new(outcomes.len(), |i: int| outcomes[i]@)
}

/// Whether the bounded-retry fetch stops at attempt number `attempt`,
/// counted from 1, when the attempts are answered by `answers` in order: the
/// answer is delivered, or no answer is left after it.
pub open spec fn stops_at(answers: Seq<OutcomeView>, attempt: int, max_attempts: int) -> bool {
    1 <= attempt <= answers.len() && (attempt == answers.len() || !retries(
        answers[attempt - 1],
        attempt,
        max_attempts,
    ))
}

/// Whether `used` attempts are made when the attempts are answered by
/// `answers` in order: the fetch stops at the `used`-th and at none before.
pub open spec fn uses_attempts(answers: Seq<OutcomeView>, used: int, max_attempts: int) -> bool {
    if answers.len() == 0 {
        used == 0
    } else {
        stops_at(answers, used, max_attempts) && forall|k: int|
            1 <= k < used ==> !stops_at(answers, k, max_attempts)
    }
}

/// Runs the bounded-retry fetch against answers that are given in advance:
/// each attempt takes the next answer, and a transport failure is asked again
/// while attempts are left. Returns how many attempts were made; the last of
/// them is the one delivered. With answers enough, no more than
/// `max_attempts` are made, and at least one.
pub fn attempts_used(outcomes: &Vec<FetchOutcome>, max_attempts: u32) -> (used: usize)
    ensures
        uses_attempts(answers_of(outcomes@), used as int, max_attempts as int),
        used <= outcomes.len(),
        max_attempts >= 1 ==> used <= max_attempts,
{
    if outcomes.len() == 0 {
        return 0;
    }
    let ghost answers = answers_of(outcomes@);
    let mut attempt: usize = 1;
    loop
        invariant
            1 <= attempt <= outcomes.len(),
            answers == answers_of(outcomes@),
            max_attempts >= 1 ==> attempt <= max_attempts,
            forall|k: int| 1 <= k < attempt ==> !stops_at(answers, k, max_attempts as int),
        decreases outcomes.len() - attempt,
    {
        let number: u32 = if attempt > u32::MAX as usize {
            u32::MAX
        } else {
            attempt as u32
        };
        proof {
            assert(answers[attempt - 1] == outcomes@[attempt - 1]@);
            assert(retries(answers[attempt - 1], number as int, max_attempts as int) == retries(
                answers[attempt - 1],
                attempt as int,
                max_attempts as int,
            ));
        }
        let again = match retry_decision(&outcomes[attempt - 1], number, max_attempts) {
            RetryDecision::Again => true,
            RetryDecision::Deliver => false,
        };
        if !again || attempt == outcomes.len() {
            return attempt;
        }
        attempt = attempt + 1;
    }
}

/// The address of the whole-market file of `day`.
pub open spec fn bhavcopy_address(day: int) -> Seq<char> {
    "https://nsearchives.nseindia.com/content/cm/BhavCopy_NSE_CM_0_0_0_"@ + formatted_date(
        day,
        DatePattern::Compact.spec_pattern(),
    ) + "_F_0000.csv.zip"@
}

/// Builds the address of the whole-market file of `day`.
pub fn bhavcopy_url(day: Day) -> (url: String)
    ensures
        url@ == bhavcopy_address(day@),
{
    let mut url = String::from_str(
        "https://nsearchives.nseindia.com/content/cm/BhavCopy_NSE_CM_0_0_0_",
    );
    url.append(day.format(DatePattern::Compact).as_str());
    url.append("_F_0000.csv.zip");
    url
}

/// The address of the price history of `symbol` from `from` to `to`.
pub open spec fn historical_address(symbol: Seq<char>, from: int, to: int) -> Seq<char> {
    "https://www.nseindia.com/api/historicalOR/generateSecurityWiseHistoricalData?from="@
        + formatted_date(from, DatePattern::DayFirst.spec_pattern()) + "&to="@ + formatted_date(
        to,
        DatePattern::DayFirst.spec_pattern(),
    ) + "&symbol="@ + symbol + "&type=priceVolumeDeliverable&series=ALL&csv=true"@
}

/// Builds the address of the price history of `symbol` from `from` to `to`.
pub fn historical_url(symbol: &str, from: Day, to: Day) -> (url: String)
    ensures
        url@ == historical_address(symbol@, from@, to@),
{
    let mut url = String::from_str(
        "https://www.nseindia.com/api/historicalOR/generateSecurityWiseHistoricalData?from=",
    );
    url.append(from.format(DatePattern::DayFirst).as_str());
    url.append("&to=");
    url.append(to.format(DatePattern::DayFirst).as_str());
    url.append("&symbol=");
    url.append(symbol);
    url.append("&type=priceVolumeDeliverable&series=ALL&csv=true");
    url
}

/// Where the table of `day` lies below the root for artifacts: a directory
/// for the year, one for the month, and the file named by the day.
pub open spec fn artifact_location(day: int) -> Seq<char> {
    formatted_date(day, DatePattern::Year.spec_pattern()) + "/"@ + formatted_date(
        day,
        DatePattern::Month.spec_pattern(),
    ) + "/bhavcopy_"@ + formatted_date(day, DatePattern::Compact.spec_pattern()) + ".csv"@
}

/// Builds the path of the table of `day`, relative to the root for artifacts.
pub fn artifact_path(day: Day) -> (path: String)
    ensures
        path@ == artifact_location(day@),
{
    let mut path = day.format(DatePattern::Year);
    path.append("/");
    path.append(day.format(DatePattern::Month).as_str());
    path.append("/bhavcopy_");
    path.append(day.format(DatePattern::Compact).as_str());
    path.append(".csv");
    path
}

/// The name of the file that holds the price history of `symbol`.
pub open spec fn historical_name(symbol: Seq<char>, from: int, to: int) -> Seq<char> {
    "historical_"@ + symbol + "_"@ + formatted_date(from, DatePattern::DayFirst.spec_pattern())
        + "_"@ + formatted_date(to, DatePattern::DayFirst.spec_pattern()) + ".csv"@
}

/// Builds the name of the file that holds the price history of `symbol`.
pub fn historical_file_name(symbol: &str, from: Day, to: Day) -> (name: String)
    ensures
        name@ == historical_name(symbol@, from@, to@),
{
    let mut name = String::from_str("historical_");
    name.append(symbol);
    name.append("_");
    name.append(from.format(DatePattern::DayFirst).as_str());
    name.append("_");
    name.append(to.format(DatePattern::DayFirst).as_str());
    name.append(".csv");
    name
}

} // verus!
