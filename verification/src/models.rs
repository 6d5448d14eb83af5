//! The rows of the metadata tables, as plain data.

use vstd::prelude::*;

verus! {

/// The status of an ingestion attempt that produced its artifact.
pub open spec fn completed_label() -> Seq<char> {
    "completed"@
}

/// The status of an ingestion attempt that did not.
pub open spec fn failed_label() -> Seq<char> {
    "failed"@
}

/// How an ingestion attempt ended.
#[derive(Debug, Clone, Copy, PartialEq, Eq, Structural)]
pub enum AttemptStatus {
    Completed,
    Failed,
}

impl AttemptStatus {
    /// The word under which the status is stored.
    pub open spec fn spec_label(self) -> Seq<char> {
        match self {
            AttemptStatus::Completed => completed_label(),
            AttemptStatus::Failed => failed_label(),
        }
    }

    /// The word under which the status is stored.
    pub fn label(self) -> (word: &'static str)
        ensures
            word@ == self.spec_label(),
    {
        match self {
            AttemptStatus::Completed => "completed",
            AttemptStatus::Failed => "failed",
        }
    }
}

/// The content of an optional text.
pub open spec fn optional_text(text: Option<String>) -> Option<Seq<char>> {
    match text {
        Some(t) => Some(t@),
        None => None,
    }
}

/// The mathematical content of an attempt's record.
pub struct AttemptRow {
    pub id: int,
    pub symbol: Option<Seq<char>>,
    pub from_date: int,
    pub to_date: int,
    pub file_path: Seq<char>,
    pub file_size: Option<i64>,
    pub status: Seq<char>,
    pub error_message: Option<Seq<char>>,
    pub downloaded_at: int,
}

impl AttemptRow {
    /// The key under which a store holds the attempt: the symbol, absent for
    /// a whole-market file, and the range of dates.
    pub open spec fn key(self) -> (Option<Seq<char>>, int, int) {
        (self.symbol, self.from_date, self.to_date)
    }

    /// Whether the attempt produced its artifact.
    pub open spec fn is_completed(self) -> bool {
        self.status == completed_label()
    }
}

/// One ingestion attempt: what was asked for, where the artifact lies, and
/// how it ended. Dates and the moment of the attempt are seconds since the
/// epoch.
#[derive(Debug, Clone, PartialEq, Eq)]
pub struct NseDownload {
    pub id: i64,
    pub symbol: Option<String>,
    pub from_date: i64,
    pub to_date: i64,
    pub file_path: String,
    pub file_size: Option<i64>,
    pub status: String,
    pub error_message: Option<String>,
    pub downloaded_at: i64,
}

impl View for NseDownload {
    type V = AttemptRow;

    open spec fn view(&self) -> AttemptRow {
        AttemptRow {
            id: self.id as int,
            symbol: optional_text(self.symbol),
            from_date: self.from_date as int,
            to_date: self.to_date as int,
            file_path: self.file_path@,
            file_size: self.file_size,
            status: self.status@,
            error_message: optional_text(self.error_message),
            downloaded_at: self.downloaded_at as int,
        }
    }
}

/// A stored attempt as a listing shows it.
#[derive(Debug, Clone, PartialEq, Eq)]
pub struct DownloadRecord {
    pub id: i64,
    pub symbol: Option<String>,
    pub from_date: i64,
    pub to_date: i64,
    pub file_path: String,
    pub file_size: Option<i64>,
    pub status: String,
    pub error_message: Option<String>,
    pub downloaded_at: i64,
}

impl View for DownloadRecord {
    type V = AttemptRow;

    open spec fn view(&self) -> AttemptRow {
        AttemptRow {
            id: self.id as int,
            symbol: optional_text(self.symbol),
            from_date: self.from_date as int,
            to_date: self.to_date as int,
            file_path: self.file_path@,
            file_size: self.file_size,
            status: self.status@,
            error_message: optional_text(self.error_message),
            downloaded_at: self.downloaded_at as int,
        }
    }
}

/// A symbol of the master list.
#[derive(Debug, Clone, PartialEq, Eq)]
pub struct NseSymbol {
    pub id: i64,
    pub symbol: String,
    pub name: Option<String>,
}

/// A symbol that was looked at lately.
#[derive(Debug, Clone, PartialEq, Eq)]
pub struct RecentlyViewed {
    pub symbol: String,
    pub name: Option<String>,
}

/// What the download of the master list reports when it ends: the symbols
/// with their names, or the reason of the failure.
#[derive(Debug, PartialEq, Eq)]
pub enum NseListMessage {
    Done(Result<Vec<(String, String)>, String>),
}

/// A copy of an optional text.
pub fn copy_optional_text(text: &Option<String>) -> (copy: Option<String>)
    ensures
        optional_text(copy) == optional_text(*text),
{
    match text {
        Some(t) => Some(t.clone()),
        None => None,
    }
}

impl NseDownload {
    /// The record of a completed whole-market attempt for the single day that
    /// begins at `day_start`, with its artifact at `file_path`.
    pub fn completed_day(day_start: i64, file_path: String, file_size: Option<i64>) -> (attempt:
        NseDownload)
        ensures
            attempt@ == (AttemptRow {
                id: 0,
                symbol: None,
                from_date: day_start as int,
                to_date: day_start as int,
                file_path: file_path@,
                file_size: file_size,
                status: completed_label(),
                error_message: None,
                downloaded_at: 0,
            }),
    {
        NseDownload {
            id: 0,
            symbol: None,
            from_date: day_start,
            to_date: day_start,
            file_path,
            file_size,
            status: String::from_str(AttemptStatus::Completed.label()),
            error_message: None,
            downloaded_at: 0,
        }
    }

    /// A copy with the same content.
    pub fn duplicate(&self) -> (copy: NseDownload)
        ensures
            copy@ == self@,
    {
        NseDownload {
            id: self.id,
            symbol: copy_optional_text(&self.symbol),
            from_date: self.from_date,
            to_date: self.to_date,
            file_path: self.file_path.clone(),
            file_size: self.file_size,
            status: self.status.clone(),
            error_message: copy_optional_text(&self.error_message),
            downloaded_at: self.downloaded_at,
        }
    }

    /// The attempt as a listing shows it.
    pub fn to_record(&self) -> (record: DownloadRecord)
        ensures
            record@ == self@,
    {
        DownloadRecord {
            id: self.id,
            symbol: copy_optional_text(&self.symbol),
            from_date: self.from_date,
            to_date: self.to_date,
            file_path: self.file_path.clone(),
            file_size: self.file_size,
            status: self.status.clone(),
            error_message: copy_optional_text(&self.error_message),
            downloaded_at: self.downloaded_at,
        }
    }

    /// Whether this attempt and `other` are for the same symbol and range.
    pub fn same_key(&self, other: &NseDownload) -> (same: bool)
        ensures
            same == (self@.key() == other@.key()),
    {
        let same_symbol = match &self.symbol {
            Some(a) => match &other.symbol {
                Some(b) => *a == *b,
                None => false,
            },
            None => other.symbol.is_none(),
        };
        assert(same_symbol == (optional_text(self.symbol) == optional_text(other.symbol)));
        same_symbol && self.from_date == other.from_date && self.to_date == other.to_date
    }
}

} // verus!
