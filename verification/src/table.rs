//! Reading comma-separated text into a header and records.

use vstd::prelude::*;
use crate::text::texts;

verus! {

/// The error with which the `csv` crate refuses its input.
#[verifier::external_type_specification]
#[verifier::external_body]
pub struct ExCsvError(csv::Error);

/// The header and the records that a CSV reader finds in `bytes`: the first
/// record as the header, every later one as a record, each a sequence of
/// fields; `None` where the reader refuses the input. A `flexible` reader
/// takes records of any length; one that is not refuses a record that is
/// longer or shorter than the first.
pub uninterp spec fn csv_table(bytes: Seq<u8>, flexible: bool) -> Option<
    (Seq<Seq<char>>, Seq<Seq<Seq<char>>>),
>;

/// Tabular text, read: the fields of the header row and of each record.
#[derive(Debug, Clone, PartialEq, Eq)]
pub struct Table {
    pub header: Vec<String>,
    pub records: Vec<Vec<String>>,
}

/// The fields of each of a sequence of records.
pub open spec fn record_texts(records: Seq<Vec<String>>) -> Seq<Seq<Seq<char>>> {
    Seq::new(records.len(), |i: int| texts(records[i]@))
}

impl Table {
    /// The header's fields.
    pub open spec fn header_view(self) -> Seq<Seq<char>> {
        texts(self.header@)
    }

    /// The records' fields.
    pub open spec fn records_view(self) -> Seq<Seq<Seq<char>>> {
        record_texts(self.records@)
    }
}

/// Builds a `csv::Reader` over the bytes, flexible or not, takes its
/// `headers()` and walks its `records()`, copying each field. Trusted: the
/// outcome depends on the bytes and on `flexible` alone and is the one that
/// `csv_table` names.
#[verifier::external_body]
pub(crate) fn read_table(bytes: &[u8], flexible: bool) -> (r: Result<Table, csv::Error>)
    ensures
        r matches Ok(t) ==> csv_table(bytes@, flexible) == Some(
            (t.header_view(), t.records_view()),
        ),
        r is Err ==> csv_table(bytes@, flexible) is None,
{
    let mut reader = csv::ReaderBuilder::new().flexible(flexible).from_reader(bytes);
    let header = reader.headers()?.iter().map(String::from).collect();
    let mut records = Vec::new();
    for record in reader.records() {
        records.push(record?.iter().map(String::from).collect());
    }
    Ok(Table { header, records })
}

} // verus!
