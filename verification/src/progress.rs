//! What a run reports to whoever observes it, and the wording of its lines.

use vstd::prelude::*;
use crate::day::{formatted_date, DatePattern, Day};
use crate::number::{decimal, push_decimal};
use crate::text::string_of;

verus! {

/// A status event of a run, in the order in which an observer receives them.
#[derive(Debug, PartialEq, Eq)]
pub enum BhavCopyMessage {
    /// A line for a human reader.
    Progress(String),
    /// The earliest and the latest day that the store holds now.
    DateRangeUpdated(Day, Day),
    /// The end of the run: success, or the one error that ended it.
    Done(Result<(), String>),
}

/// The mathematical content of a status event.
pub enum MessageView {
    Progress(Seq<char>),
    DateRangeUpdated(int, int),
    Done(Result<(), Seq<char>>),
}

impl View for BhavCopyMessage {
    type V = MessageView;

    open spec fn view(&self) -> MessageView {
        match self {
            BhavCopyMessage::Progress(text) => MessageView::Progress(text@),
            BhavCopyMessage::DateRangeUpdated(lo, hi) => MessageView::DateRangeUpdated(lo@, hi@),
            BhavCopyMessage::Done(Ok(_)) => MessageView::Done(Ok(())),
            BhavCopyMessage::Done(Err(text)) => MessageView::Done(Err(text@)),
        }
    }
}

/// The contents of a sequence of status events.
pub open spec fn messages_of(messages: Seq<BhavCopyMessage>) -> Seq<MessageView> {
    Seq::new(messages.len(), |i: int| messages[i]@)
}

/// A day as the lines show it: year, month and day with hyphens.
pub open spec fn iso(day: int) -> Seq<char> {
    formatted_date(day, DatePattern::Iso.spec_pattern())
}

/// The line that opens a run from `start` back to `end`.
pub open spec fn announce_text(start: int, end: int) -> Seq<char> {
    "Downloading BhavCopy data from "@ + iso(end) + " to "@ + iso(start)
}

/// The line that tells that the cap on successful days was reached.
pub open spec fn limit_text(limit: nat) -> Seq<char> {
    "Reached download limit of "@ + decimal(limit) + " files"@
}

/// The line that tells that too many days in a row had no data.
pub open spec fn threshold_text(threshold: nat) -> Seq<char> {
    "Stopping after "@ + decimal(threshold) + " consecutive days with no data available"@
}

/// The line that opens the attempt for `day`.
pub open spec fn attempt_text(day: int, attempts: nat, downloaded: nat, failures: nat) -> Seq<
    char,
> {
    "Downloading "@ + iso(day) + " (attempt "@ + decimal(attempts) + ", "@ + decimal(downloaded)
        + " downloaded, "@ + decimal(failures) + " consecutive error days)"@
}

/// The line for a response whose status tells of no success.
pub open spec fn http_error_text(status: Seq<char>, day: int) -> Seq<char> {
    "   HTTP error "@ + status + " for "@ + iso(day)
}

/// The line for a request that did not get through.
pub open spec fn network_error_text(reason: Seq<char>, day: int) -> Seq<char> {
    "   Network error: "@ + reason + " for "@ + iso(day)
}

/// The line for a payload that is no trading-day file.
pub open spec fn invalid_text(day: int) -> Seq<char> {
    "   Invalid CSV for "@ + iso(day)
}

/// The line that tells that the rows of `day` are being stored.
pub open spec fn processing_text(day: int) -> Seq<char> {
    "Processing "@ + iso(day) + " data into database..."@
}

/// The line that closes a successful day.
pub open spec fn completed_text(day: int, downloaded: nat) -> Seq<char> {
    "Completed "@ + iso(day) + " ("@ + decimal(downloaded) + " files processed)"@
}

/// The decimal text of a count.
pub fn count_text(n: u64) -> (text: String)
    ensures
        text@ == decimal(n as nat),
{
    let mut digits: Vec<char> = Vec::new();
    push_decimal(&mut digits, n);
    proof {
        assert(Seq::<char>::empty() + decimal(n as nat) =~= decimal(n as nat));
    }
    string_of(&digits)
}

/// Writes the line that opens a run from `start` back to `end`.
pub fn announce_line(start: Day, end: Day) -> (line: String)
    ensures
        line@ == announce_text(start@, end@),
{
    let mut line = String::from_str("Downloading BhavCopy data from ");
    line.append(end.format(DatePattern::Iso).as_str());
    line.append(" to ");
    line.append(start.format(DatePattern::Iso).as_str());
    line
}

/// Writes the line that tells that the cap on successful days was reached.
pub fn limit_line(limit: u64) -> (line: String)
    ensures
        line@ == limit_text(limit as nat),
{
    let mut line = String::from_str("Reached download limit of ");
    line.append(count_text(limit).as_str());
    line.append(" files");
    line
}

/// Writes the line that tells that too many days in a row had no data.
pub fn threshold_line(threshold: u64) -> (line: String)
    ensures
        line@ == threshold_text(threshold as nat),
{
    let mut line = String::from_str("Stopping after ");
    line.append(count_text(threshold).as_str());
    line.append(" consecutive days with no data available");
    line
}

/// Writes the line that opens the attempt for `day`.
pub fn attempt_line(day: Day, attempts: u64, downloaded: u64, failures: u64) -> (line: String)
    ensures
        line@ == attempt_text(day@, attempts as nat, downloaded as nat, failures as nat),
{
    let mut line = String::from_str("Downloading ");
    line.append(day.format(DatePattern::Iso).as_str());
    line.append(" (attempt ");
    line.append(count_text(attempts).as_str());
    line.append(", ");
    line.append(count_text(downloaded).as_str());
    line.append(" downloaded, ");
    line.append(count_text(failures).as_str());
    line.append(" consecutive error days)");
    line
}

/// Writes the line for a response whose status tells of no success.
pub fn http_error_line(status: &str, day: Day) -> (line: String)
    ensures
        line@ == http_error_text(status@, day@),
{
    let mut line = String::from_str("   HTTP error ");
    line.append(status);
    line.append(" for ");
    line.append(day.format(DatePattern::Iso).as_str());
    line
}

/// Writes the line for a request that did not get through.
pub fn network_error_line(reason: &str, day: Day) -> (line: String)
    ensures
        line@ == network_error_text(reason@, day@),
{
    let mut line = String::from_str("   Network error: ");
    line.append(reason);
    line.append(" for ");
    line.append(day.format(DatePattern::Iso).as_str());
    line
}

/// Writes the line for a payload that is no trading-day file.
pub fn invalid_line(day: Day) -> (line: String)
    ensures
        line@ == invalid_text(day@),
{
    let mut line = String::from_str("   Invalid CSV for ");
    line.append(day.format(DatePattern::Iso).as_str());
    line
}

/// Writes the line that tells that the rows of `day` are being stored.
pub fn processing_line(day: Day) -> (line: String)
    ensures
        line@ == processing_text(day@),
{
    let mut line = String::from_str("Processing ");
    line.append(day.format(DatePattern::Iso).as_str());
    line.append(" data into database...");
    line
}

/// Writes the line that closes a successful day.
pub fn completed_line(day: Day, downloaded: u64) -> (line: String)
    ensures
        line@ == completed_text(day@, downloaded as nat),
{
    let mut line = String::from_str("Completed ");
    line.append(day.format(DatePattern::Iso).as_str());
    line.append(" (");
    line.append(count_text(downloaded).as_str());
    line.append(" files processed)");
    line
}

} // verus!
