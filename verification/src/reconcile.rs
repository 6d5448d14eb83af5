//! Bringing the log of attempts back in line with the artifacts that lie on
//! disk: which records have lost their file, and which record a file that
//! has none stands for.

use vstd::prelude::*;
use crate::day::{parsed_day, DatePattern, Day, SECONDS_PER_DAY};
use crate::models::{completed_label, AttemptRow, NseDownload};
use crate::text::{char_rows, chars_of, split, split_at_char, string_of};

verus! {

/// The start of the name of a file that holds a price history.
pub open spec fn history_prefix() -> Seq<char> {
    seq!['h', 'i', 's', 't', 'o', 'r', 'i', 'c', 'a', 'l', '_']
}

/// The end of the name of a file that holds a table.
pub open spec fn table_suffix() -> Seq<char> {
    seq!['.', 'c', 's', 'v']
}

/// Whether `text` starts with `prefix`.
pub open spec fn starts_with(text: Seq<char>, prefix: Seq<char>) -> bool {
    prefix.len() <= text.len() && text.subrange(0, prefix.len() as int) == prefix
}

/// Whether `text` ends with `suffix`.
pub open spec fn ends_with(text: Seq<char>, suffix: Seq<char>) -> bool {
    suffix.len() <= text.len() && text.subrange(text.len() - suffix.len(), text.len() as int)
        == suffix
}

/// What stands between the prefix and the suffix of a history's file name;
/// `None` for a name of another kind.
pub open spec fn history_stem(name: Seq<char>) -> Option<Seq<char>> {
    if starts_with(name, history_prefix()) && ends_with(
        name.skip(history_prefix().len() as int),
        table_suffix(),
    ) {
        Some(name.subrange(history_prefix().len() as int, name.len() - table_suffix().len()))
    } else {
        None
    }
}

/// A run of eight or more characters read as a date: a hyphen is put behind
/// the second and behind the fourth. `None` for a run of fewer than four.
pub open spec fn hyphenated(part: Seq<char>) -> Option<Seq<char>> {
    if part.len() < 4 {
        None
    } else {
        Some(part.subrange(0, 2) + seq!['-'] + part.subrange(2, 4) + seq!['-'] + part.skip(4))
    }
}

/// The midnight of the day that `text` names, day first, in seconds since the
/// epoch; zero where it names no day.
pub open spec fn midnight_or_zero(text: Seq<char>) -> int {
    match parsed_day(text, DatePattern::DayFirst.spec_pattern()) {
        Some(day) => day * SECONDS_PER_DAY,
        None => 0,
    }
}

/// What the name of a history's file tells: the symbol, and the midnights of
/// the first and the last day of its range.
#[derive(Debug, Clone, PartialEq, Eq)]
pub struct HistoryName {
    pub symbol: String,
    pub from_date: i64,
    pub to_date: i64,
}

/// The mathematical content of what a file's name tells.
pub struct HistoryNameView {
    pub symbol: Seq<char>,
    pub from_date: int,
    pub to_date: int,
}

impl View for HistoryName {
    type V = HistoryNameView;

    open spec fn view(&self) -> HistoryNameView {
        HistoryNameView {
            symbol: self.symbol@,
            from_date: self.from_date as int,
            to_date: self.to_date as int,
        }
    }
}

/// What the file name `name` tells. The name of a history is `historical_`,
/// the symbol, and two runs of characters for the first and last day, with
/// underscores between them, and `.csv`; more underscore-separated parts may
/// follow and are not read. A run that is no date counts as the epoch.
pub open spec fn history_name(name: Seq<char>) -> Option<HistoryNameView> {
    match history_stem(name) {
        None => None,
        Some(stem) => {
            let parts = split(stem, '_');
            if parts.len() < 3 {
                None
            } else {
                match (hyphenated(parts[1]), hyphenated(parts[2])) {
                    (Some(from), Some(to)) => Some(
                        HistoryNameView {
                            symbol: parts[0],
                            from_date: midnight_or_zero(from),
                            to_date: midnight_or_zero(to),
                        },
                    ),
                    _ => None,
                }
            }
        },
    }
}

/// The content of an optional reading of a name.
pub open spec fn name_view(r: Option<HistoryName>) -> Option<HistoryNameView> {
    match r {
        Some(n) => Some(n@),
        None => None,
    }
}

/// Whether `text` holds `word` at `at`.
fn holds_at(text: &Vec<char>, word: &Vec<char>, at: usize) -> (yes: bool)
    requires
        at + word.len() <= text.len(),
    ensures
        yes == (text@.subrange(at as int, at + word.len()) == word@),
{
    let mut k: usize = 0;
    while k < word.len()
        invariant
            0 <= k <= word.len(),
            at + word.len() <= text.len(),
            forall|j: int| 0 <= j < k ==> text@[at + j] == word@[j],
        decreases word.len() - k,
    {
        if text[at + k] != word[k] {
            proof {
                assert(text@.subrange(at as int, at + word.len())[k as int] == text@[at + k]);
            }
            return false;
        }
        k = k + 1;
    }
    proof {
        assert(text@.subrange(at as int, at + word.len()) =~= word@);
    }
    true
}

/// Copies the characters of `text` from `from` up to `to`.
fn copy_range(text: &Vec<char>, from: usize, to: usize) -> (out: Vec<char>)
    requires
        from <= to <= text.len(),
    ensures
        out@ == text@.subrange(from as int, to as int),
{
    let mut out: Vec<char> = Vec::new();
    let mut i: usize = from;
    proof {
        assert(text@.subrange(from as int, from as int) =~= Seq::<char>::empty());
    }
    while i < to
        invariant
            from <= i <= to <= text.len(),
            out@ == text@.subrange(from as int, i as int),
        decreases to - i,
    {
        out.push(text[i]);
        proof {
            assert(text@.subrange(from as int, i + 1) =~= text@.subrange(
                from as int,
                i as int,
            ).push(text@[i as int]));
        }
        i = i + 1;
    }
    out
}

/// Reads a run of characters as the midnight of a day.
fn read_midnight(part: &Vec<char>) -> (r: Option<i64>)
    ensures
        r is Some <==> hyphenated(part@) is Some,
        r matches Some(t) ==> t == midnight_or_zero(hyphenated(part@).unwrap()),
{
    if part.len() < 4 {
        return None;
    }
    let mut text = copy_range(part, 0, 2);
    text.push('-');
    text.push(part[2]);
    text.push(part[3]);
    text.push('-');
    let mut i: usize = 4;
    while i < part.len()
        invariant
            4 <= i <= part.len(),
            text@ == part@.subrange(0, 2) + seq!['-'] + part@.subrange(2, 4) + seq!['-']
                + part@.subrange(4, i as int),
        decreases part.len() - i,
    {
        text.push(part[i]);
        proof {
            assert(part@.subrange(4, i + 1) =~= part@.subrange(4, i as int).push(part@[i as int]));
            assert(text@ =~= part@.subrange(0, 2) + seq!['-'] + part@.subrange(2, 4) + seq!['-']
                + part@.subrange(4, i + 1));
        }
        i = i + 1;
    }
    proof {
        assert(part@.subrange(4, i as int) =~= part@.skip(4));
    }
    let written = string_of(&text);
    match Day::parse(written.as_str(), DatePattern::DayFirst) {
        Some(day) => Some(day.timestamp()),
        None => Some(0),
    }
}

/// Reads the name of a file: what it tells where it is the name of a price
/// history, and `None` where it is not.
pub fn parse_history_name(name: &str) -> (r: Option<HistoryName>)
    ensures
        name_view(r) == history_name(name@),
{
    let chars = chars_of(name);
    let prefix: Vec<char> = vec!['h', 'i', 's', 't', 'o', 'r', 'i', 'c', 'a', 'l', '_'];
    let suffix: Vec<char> = vec!['.', 'c', 's', 'v'];
    proof {
        assert(prefix@ =~= history_prefix());
        assert(suffix@ =~= table_suffix());
    }
    if chars.len() < prefix.len() || !holds_at(&chars, &prefix, 0) {
        return None;
    }
    let rest_len: usize = chars.len() - prefix.len();
    if rest_len < suffix.len() {
        return None;
    }
    let suffix_at: usize = chars.len() - suffix.len();
    proof {
        let rest = chars@.skip(prefix@.len() as int);
        assert(rest.subrange(rest.len() - suffix@.len(), rest.len() as int) =~= chars@.subrange(
            suffix_at as int,
            suffix_at + suffix@.len(),
        ));
    }
    if !holds_at(&chars, &suffix, suffix_at) {
        return None;
    }
    let stem = copy_range(&chars, prefix.len(), suffix_at);
    let parts = split_at_char(&stem, '_');
    proof {
        assert(char_rows(parts@).len() == parts@.len());
    }
    if parts.len() < 3 {
        return None;
    }
    proof {
        assert(char_rows(parts@)[0] == parts@[0]@);
        assert(char_rows(parts@)[1] == parts@[1]@);
        assert(char_rows(parts@)[2] == parts@[2]@);
    }
    let from = read_midnight(&parts[1]);
    let to = read_midnight(&parts[2]);
    match from {
        Some(from_date) => match to {
            Some(to_date) => Some(
                HistoryName { symbol: string_of(&parts[0]), from_date, to_date },
            ),
            None => None,
        },
        None => None,
    }
}

/// The record that stands for a file at `path`, of `size` bytes, whose name
/// tells `name`: a completed attempt for the name's symbol and range.
pub open spec fn record_for(name: HistoryNameView, path: Seq<char>, size: Option<i64>) -> AttemptRow {
    AttemptRow {
        id: 0,
        symbol: Some(name.symbol),
        from_date: name.from_date,
        to_date: name.to_date,
        file_path: path,
        file_size: size,
        status: completed_label(),
        error_message: None,
        downloaded_at: 0,
    }
}

/// Builds the record that stands for a file that the log does not know.
pub fn missing_record(name: HistoryName, path: String, size: Option<i64>) -> (attempt: NseDownload)
    ensures
        attempt@ == record_for(name@, path@, size),
{
    NseDownload {
        id: 0,
        symbol: Some(name.symbol),
        from_date: name.from_date,
        to_date: name.to_date,
        file_path: path,
        file_size: size,
        status: String::from_str("completed"),
        error_message: None,
        downloaded_at: 0,
    }
}

/// The identifiers of the records whose artifact is gone, in order:
/// `present[i]` tells whether the artifact of the record `ids[i]` is there.
pub open spec fn orphaned(ids: Seq<i64>, present: Seq<bool>) -> Seq<i64>
    decreases ids.len(),
{
    if ids.len() == 0 || present.len() != ids.len() {
        Seq::empty()
    } else if present.last() {
        orphaned(ids.drop_last(), present.drop_last())
    } else {
        orphaned(ids.drop_last(), present.drop_last()).push(ids.last())
    }
}

/// Lists the records to remove from the log: those whose artifact is gone.
/// Where the two lists differ in length, none is removed.
pub fn orphaned_records(ids: &Vec<i64>, present: &Vec<bool>) -> (gone: Vec<i64>)
    ensures
        gone@ == orphaned(ids@, present@),
{
    let mut gone: Vec<i64> = Vec::new();
    if ids.len() != present.len() {
        return gone;
    }
    let mut i: usize = 0;
    proof {
        assert(ids@.subrange(0, 0) =~= Seq::<i64>::empty());
    }
    while i < ids.len()
        invariant
            0 <= i <= ids.len(),
            ids.len() == present.len(),
            gone@ == orphaned(ids@.subrange(0, i as int), present@.subrange(0, i as int)),
        decreases ids.len() - i,
    {
        proof {
            let a = ids@.subrange(0, i + 1);
            let b = present@.subrange(0, i + 1);
            assert(a.drop_last() =~= ids@.subrange(0, i as int));
            assert(b.drop_last() =~= present@.subrange(0, i as int));
            assert(a.last() == ids@[i as int]);
            assert(b.last() == present@[i as int]);
        }
        if !present[i] {
            gone.push(ids[i]);
        }
        i = i + 1;
    }
    proof {
        assert(ids@.subrange(0, i as int) =~= ids@);
        assert(present@.subrange(0, i as int) =~= present@);
    }
    gone
}

} // verus!
