//! The price history of one symbol, as the per-symbol endpoint sends it:
//! validation, and the cleaning of its header before the table is kept.

use vstd::prelude::*;
use crate::fetch::{FetchOutcome, OutcomeView};
use crate::mapper::{check_text, payload_check, InvalidPayloadError};
use crate::text::{
    char_rows,
    chars_of,
    decode_lossy,
    join,
    join_with,
    lines,
    split,
    split_at_char,
    split_lines,
    string_of,
    strip_both,
    strip_char,
    trim,
    trimmed,
    utf8_lossy,
};

verus! {

/// The marker that the header of a price history holds.
pub open spec fn history_marker() -> Seq<char> {
    seq!['D', 'a', 't', 'e']
}

/// A header field as it is kept: without surrounding white space, and then
/// without the double quotes around it.
pub open spec fn clean_field(field: Seq<char>) -> Seq<char> {
    strip_both(trimmed(field), '"')
}

/// Each of `fields`, cleaned.
pub open spec fn clean_fields(fields: Seq<Seq<char>>) -> Seq<Seq<char>> {
    Seq::new(fields.len(), |i: int| clean_field(fields[i]))
}

/// A header line as it is kept: split at its commas, each field cleaned, and
/// joined by commas again.
pub open spec fn clean_header(line: Seq<char>) -> Seq<char> {
    join(clean_fields(split(line, ',')), seq![','])
}

/// A table as it is kept: its first line with a clean header, every other
/// line as it is, and a single line feed between two lines.
pub open spec fn clean_table(text: Seq<char>) -> Seq<char> {
    let all = lines(text);
    if all.len() == 0 {
        Seq::empty()
    } else {
        join(seq![clean_header(all[0])] + all.skip(1), seq!['\n'])
    }
}

/// What is kept of a response's body: the refusal of validation where the
/// body has fewer than two lines or no `Date` in its first, else the clean
/// table.
pub open spec fn cleaned_history(raw: Seq<u8>) -> Result<Seq<char>, InvalidPayloadError> {
    match payload_check(utf8_lossy(raw), history_marker()) {
        Err(e) => Err(e),
        Ok(_) => Ok(clean_table(utf8_lossy(raw))),
    }
}

/// The content of a cleaning's outcome.
pub open spec fn history_view(r: Result<String, InvalidPayloadError>) -> Result<
    Seq<char>,
    InvalidPayloadError,
> {
    match r {
        Ok(text) => Ok(text@),
        Err(e) => Err(e),
    }
}

/// Removes surrounding white space from a run of characters.
fn trim_chars(field: &Vec<char>) -> (out: Vec<char>)
    ensures
        out@ == trimmed(field@),
{
    let text = string_of(field);
    let body = trim(text.as_str());
    chars_of(body.as_str())
}

/// Cleans a header line: every field loses the white space and then the
/// double quotes around it.
pub fn clean_header_line(line: &Vec<char>) -> (out: Vec<char>)
    ensures
        out@ == clean_header(line@),
{
    let fields = split_at_char(line, ',');
    let mut cleaned: Vec<Vec<char>> = Vec::new();
    let mut i: usize = 0;
    while i < fields.len()
        invariant
            0 <= i <= fields.len(),
            char_rows(fields@) == split(line@, ','),
            cleaned@.len() == i,
            forall|j: int| 0 <= j < i ==> (#[trigger] cleaned@[j])@ == clean_field(fields@[j]@),
        decreases fields.len() - i,
    {
        let body = trim_chars(&fields[i]);
        cleaned.push(strip_char(&body, '"'));
        i = i + 1;
    }
    proof {
        assert(char_rows(cleaned@) =~= clean_fields(split(line@, ','))) by {
            assert forall|j: int| 0 <= j < cleaned@.len() implies char_rows(cleaned@)[j]
                == clean_fields(split(line@, ','))[j] by {
                assert(char_rows(fields@)[j] == fields@[j]@);
            }
        }
    }
    let comma: Vec<char> = vec![','];
    proof {
        assert(comma@ =~= seq![',']);
    }
    join_with(&cleaned, &comma)
}

/// Validates the body of a response and cleans it for keeping. The body is
/// read as UTF-8, with the replacement character for what is ill-formed; it
/// must hold at least two lines, the first with `Date` in it.
pub fn clean_history(raw: &[u8]) -> (r: Result<String, InvalidPayloadError>)
    ensures
        history_view(r) == cleaned_history(raw@),
{
    let text = decode_lossy(raw);
    let marker: Vec<char> = vec!['D', 'a', 't', 'e'];
    proof {
        assert(marker@ =~= history_marker());
    }
    match check_text(&text, &marker) {
        Err(e) => {
            return Err(e);
        },
        Ok(_) => {},
    }
    let mut all = split_lines(&text);
    proof {
        assert(lines(text@).len() == all@.len());
    }
    if all.len() == 0 {
        return Ok(String::new());
    }
    let ghost before = char_rows(all@);
    let header = clean_header_line(&all[0]);
    proof {
        assert(before[0] == all@[0]@);
    }
    all.set(0, header);
    proof {
        assert(char_rows(all@) =~= seq![clean_header(before[0])] + before.skip(1));
    }
    let feed: Vec<char> = vec!['\n'];
    proof {
        assert(feed@ =~= seq!['\n']);
    }
    let kept = join_with(&all, &feed);
    Ok(string_of(&kept))
}

/// Why no price history was kept.
#[derive(Debug, Clone, PartialEq, Eq)]
pub enum HistoryError {
    /// The request did not get through; the transport's own words.
    Transport(String),
    /// The remote side answered with no usable content; the status, or the
    /// complaint about the content type.
    Refused(String),
    /// The body is no price history.
    InvalidPayload(InvalidPayloadError),
}

/// The mathematical content of a reason for which no history was kept.
pub enum HistoryErrorView {
    Transport(Seq<char>),
    Refused(Seq<char>),
    InvalidPayload(InvalidPayloadError),
}

impl View for HistoryError {
    type V = HistoryErrorView;

    open spec fn view(&self) -> HistoryErrorView {
        match self {
            HistoryError::Transport(reason) => HistoryErrorView::Transport(reason@),
            HistoryError::Refused(reason) => HistoryErrorView::Refused(reason@),
            HistoryError::InvalidPayload(e) => HistoryErrorView::InvalidPayload(*e),
        }
    }
}

/// What is kept of a fetch's outcome: the clean table of a success whose
/// body is a price history, and else the reason for which nothing is kept.
pub open spec fn history_of(outcome: OutcomeView) -> Result<Seq<char>, HistoryErrorView> {
    match outcome {
        OutcomeView::TransportFailure { reason } => Err(HistoryErrorView::Transport(reason)),
        OutcomeView::RetryableFailure { reason } => Err(HistoryErrorView::Refused(reason)),
        OutcomeView::Success { body, content_type } => match cleaned_history(body) {
            Ok(text) => Ok(text),
            Err(e) => Err(HistoryErrorView::InvalidPayload(e)),
        },
    }
}

/// The content of what is kept of a fetch's outcome.
pub open spec fn kept_view(r: Result<String, HistoryError>) -> Result<Seq<char>, HistoryErrorView> {
    match r {
        Ok(text) => Ok(text@),
        Err(e) => Err(e@),
    }
}

/// Turns the outcome of a fetch from the per-symbol endpoint into the table
/// to keep, or into the reason for which nothing is kept.
pub fn digest_history(outcome: &FetchOutcome) -> (r: Result<String, HistoryError>)
    ensures
        kept_view(r) == history_of(outcome@),
{
    match outcome {
        FetchOutcome::TransportFailure { reason } => Err(HistoryError::Transport(reason.clone())),
        FetchOutcome::RetryableFailure { reason } => Err(HistoryError::Refused(reason.clone())),
        FetchOutcome::Success { body, content_type } => match clean_history(body.as_slice()) {
            Ok(text) => Ok(text),
            Err(e) => Err(HistoryError::InvalidPayload(e)),
        },
    }
}

} // verus!
