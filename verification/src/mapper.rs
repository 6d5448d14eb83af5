//! From tabular text to trading-day records: validation, the search
//! for each column by name with a positional default, and the mapping of rows.

use vstd::prelude::*;
use crate::day::Day;
use crate::number::{integer_or_zero, is_decimal_literal, is_decimal_text, parse_integer};
use crate::record::{rows_of, TradingDayRecord, TradingDayRow};
use crate::table::{csv_table, read_table, Table};
use crate::text::{
    chars_of,
    contains,
    decode_lossy,
    lines,
    split_lines,
    text_contains,
    texts,
    trim,
    trimmed,
    uppercase,
    uppercased,
    utf8_lossy,
};

verus! {

/// Why a payload is refused before any row is mapped.
#[derive(Debug, Clone, Copy, PartialEq, Eq, Structural)]
pub enum InvalidPayloadError {
    /// The payload has fewer than two lines: no header, or no data.
    TooFewLines,
    /// The first line does not hold the marker of the expected kind of file.
    MissingMarker,
    /// The payload passed validation but could not be read as tabular text.
    Unreadable,
}

/// A canonical column: the name under which a header announces it, and the
/// position at which it stands in a file whose header does not name it.
#[derive(Debug, Clone, PartialEq, Eq)]
pub struct Column {
    pub name: String,
    pub fallback: usize,
}

/// The canonical columns of a trading-day file, and the marker that its
/// header must hold.
#[derive(Debug, Clone, PartialEq, Eq)]
pub struct ColumnNames {
    pub marker: String,
    pub symbol: Column,
    pub series: Column,
    pub open: Column,
    pub high: Column,
    pub low: Column,
    pub close: Column,
    pub last: Column,
    pub prev_close: Column,
    pub volume: Column,
    pub turnover: Column,
    pub trades: Column,
    pub isin: Column,
}

/// Where each canonical column stands in a file, as mathematical integers.
pub struct ColumnPositions {
    pub symbol: int,
    pub series: int,
    pub open: int,
    pub high: int,
    pub low: int,
    pub close: int,
    pub last: int,
    pub prev_close: int,
    pub volume: int,
    pub turnover: int,
    pub trades: int,
    pub isin: int,
}

/// Where each canonical column stands in a file.
#[derive(Debug, Clone, Copy, PartialEq, Eq, Structural)]
pub struct Positions {
    pub symbol: usize,
    pub series: usize,
    pub open: usize,
    pub high: usize,
    pub low: usize,
    pub close: usize,
    pub last: usize,
    pub prev_close: usize,
    pub volume: usize,
    pub turnover: usize,
    pub trades: usize,
    pub isin: usize,
}

impl Column {
    /// A column announced as `name` that stands at `fallback` where no header
    /// names it.
    pub fn new(name: &str, fallback: usize) -> (column: Column)
        ensures
            column.name@ == name@,
            column.fallback == fallback,
    {
        Column { name: String::from_str(name), fallback }
    }
}

impl ColumnNames {
    /// Whether these are the columns of the exchange's daily trade summary.
    pub open spec fn is_bhavcopy(self) -> bool {
        &&& self.marker@ == "TradDt"@
        &&& self.symbol.name@ == "TckrSymb"@ && self.symbol.fallback == 1
        &&& self.series.name@ == "SctySrs"@ && self.series.fallback == 2
        &&& self.open.name@ == "OpnPric"@ && self.open.fallback == 4
        &&& self.high.name@ == "HghPric"@ && self.high.fallback == 5
        &&& self.low.name@ == "LwPric"@ && self.low.fallback == 6
        &&& self.close.name@ == "ClsPric"@ && self.close.fallback == 7
        &&& self.last.name@ == "LastPric"@ && self.last.fallback == 8
        &&& self.prev_close.name@ == "PrvsClsgPric"@ && self.prev_close.fallback == 9
        &&& self.volume.name@ == "TtlTradgVol"@ && self.volume.fallback == 10
        &&& self.turnover.name@ == "TtlTrfVal"@ && self.turnover.fallback == 11
        &&& self.trades.name@ == "TtlNbOfTxsExctd"@ && self.trades.fallback == 12
        &&& self.isin.name@ == "ISIN"@ && self.isin.fallback == 13
    }

    /// The columns of the exchange's daily trade summary: the names of the
    /// current header, each with the position it had before headers named it.
    pub fn bhavcopy() -> (names: ColumnNames)
        ensures
            names.is_bhavcopy(),
    {
        ColumnNames {
            marker: String::from_str("TradDt"),
            symbol: Column::new("TckrSymb", 1),
            series: Column::new("SctySrs", 2),
            open: Column::new("OpnPric", 4),
            high: Column::new("HghPric", 5),
            low: Column::new("LwPric", 6),
            close: Column::new("ClsPric", 7),
            last: Column::new("LastPric", 8),
            prev_close: Column::new("PrvsClsgPric", 9),
            volume: Column::new("TtlTradgVol", 10),
            turnover: Column::new("TtlTrfVal", 11),
            trades: Column::new("TtlNbOfTxsExctd", 12),
            isin: Column::new("ISIN", 13),
        }
    }
}

impl View for Positions {
    type V = ColumnPositions;

    open spec fn view(&self) -> ColumnPositions {
        ColumnPositions {
            symbol: self.symbol as int,
            series: self.series as int,
            open: self.open as int,
            high: self.high as int,
            low: self.low as int,
            close: self.close as int,
            last: self.last as int,
            prev_close: self.prev_close as int,
            volume: self.volume as int,
            turnover: self.turnover as int,
            trades: self.trades as int,
            isin: self.isin as int,
        }
    }
}

/// Whether some field of `header` is exactly `name`.
pub open spec fn has_column(header: Seq<Seq<char>>, name: Seq<char>) -> bool {
    exists|i: int| 0 <= i < header.len() && header[i] == name
}

/// Whether `i` is the first field of `header` that is exactly `name`.
pub open spec fn is_first_match(header: Seq<Seq<char>>, name: Seq<char>, i: int) -> bool {
    &&& 0 <= i < header.len()
    &&& header[i] == name
    &&& forall|j: int| 0 <= j < i ==> header[j] != name
}

/// The position of a column: the first field of `header` that is exactly
/// `name`, compared case-sensitively, or `fallback` where there is none.
pub open spec fn position_of(header: Seq<Seq<char>>, name: Seq<char>, fallback: int) -> int {
    if has_column(header, name) {
        choose|i: int| is_first_match(header, name, i)
    } else {
        fallback
    }
}

/// The position of `column` in a file with the header `header`.
pub open spec fn located(header: Seq<Seq<char>>, column: Column) -> int {
    position_of(header, column.name@, column.fallback as int)
}

/// The position of every canonical column in a file with the header `header`.
pub open spec fn positions(header: Seq<Seq<char>>, names: ColumnNames) -> ColumnPositions {
    ColumnPositions {
        symbol: located(header, names.symbol),
        series: located(header, names.series),
        open: located(header, names.open),
        high: located(header, names.high),
        low: located(header, names.low),
        close: located(header, names.close),
        last: located(header, names.last),
        prev_close: located(header, names.prev_close),
        volume: located(header, names.volume),
        turnover: located(header, names.turnover),
        trades: located(header, names.trades),
        isin: located(header, names.isin),
    }
}

/// A first match is the position of the column, and there is only one.
pub proof fn lemma_first_match_is_position(
    header: Seq<Seq<char>>,
    name: Seq<char>,
    fallback: int,
    i: int,
)
    requires
        is_first_match(header, name, i),
    ensures
        position_of(header, name, fallback) == i,
{
    let chosen = choose|k: int| is_first_match(header, name, k);
    if chosen < i {
        assert(header[chosen] != name);
    } else if i < chosen {
        assert(header[i] != name);
    }
}

/// A header that holds `name` at `i` has a first field that is `name`.
pub proof fn lemma_first_match_exists(header: Seq<Seq<char>>, name: Seq<char>, i: int)
    requires
        0 <= i < header.len(),
        header[i] == name,
    ensures
        exists|k: int| is_first_match(header, name, k),
    decreases i,
{
    if forall|j: int| 0 <= j < i ==> header[j] != name {
        assert(is_first_match(header, name, i));
    } else {
        let j = choose|j: int| 0 <= j < i && header[j] == name;
        lemma_first_match_exists(header, name, j);
    }
}

/// No column is located before the first field.
pub proof fn lemma_located_nonnegative(header: Seq<Seq<char>>, column: Column)
    ensures
        located(header, column) >= 0,
{
    if has_column(header, column.name@) {
        let i = choose|i: int| 0 <= i < header.len() && header[i] == column.name@;
        lemma_first_match_exists(header, column.name@, i);
    }
}

/// Finds `column` in `header` by its exact name; where the header does not
/// name it, the column's positional default is returned.
pub fn locate(header: &Vec<String>, column: &Column) -> (at: usize)
    ensures
        at == located(texts(header@), *column),
{
    let mut i: usize = 0;
    while i < header.len()
        invariant
            0 <= i <= header.len(),
            forall|j: int| 0 <= j < i ==> texts(header@)[j] != column.name@,
        decreases header.len() - i,
    {
        if header[i] == column.name {
            proof {
                assert(texts(header@)[i as int] == column.name@);
                lemma_first_match_is_position(
                    texts(header@),
                    column.name@,
                    column.fallback as int,
                    i as int,
                );
            }
            return i;
        }
        i = i + 1;
    }
    column.fallback
}

/// Finds every canonical column in `header`.
pub fn locate_columns(header: &Vec<String>, names: &ColumnNames) -> (at: Positions)
    ensures
        at@ == positions(texts(header@), *names),
{
    Positions {
        symbol: locate(header, &names.symbol),
        series: locate(header, &names.series),
        open: locate(header, &names.open),
        high: locate(header, &names.high),
        low: locate(header, &names.low),
        close: locate(header, &names.close),
        last: locate(header, &names.last),
        prev_close: locate(header, &names.prev_close),
        volume: locate(header, &names.volume),
        turnover: locate(header, &names.turnover),
        trades: locate(header, &names.trades),
        isin: locate(header, &names.isin),
    }
}

/// The field of `row` at `at`, or `missing` where the row is too short.
pub open spec fn field(row: Seq<Seq<char>>, at: int, missing: Seq<char>) -> Seq<char> {
    if 0 <= at < row.len() {
        row[at]
    } else {
        missing
    }
}

/// A text column: the field without surrounding white space, empty where the
/// row has no such field.
pub open spec fn text_field(row: Seq<Seq<char>>, at: int) -> Seq<char> {
    trimmed(field(row, at, ""@))
}

/// The symbol column: the text column in upper case.
pub open spec fn symbol_field(row: Seq<Seq<char>>, at: int) -> Seq<char> {
    uppercased(text_field(row, at))
}

/// A decimal column: the field without surrounding white space where that is
/// a decimal literal, and the literal `0` where it is not.
pub open spec fn decimal_field(row: Seq<Seq<char>>, at: int) -> Seq<char> {
    let body = trimmed(field(row, at, "0"@));
    if is_decimal_literal(body) {
        body
    } else {
        "0"@
    }
}

/// An integer column: the number that the field denotes once surrounding
/// white space is removed, and zero where it denotes none.
pub open spec fn integer_field(row: Seq<Seq<char>>, at: int) -> i64 {
    integer_or_zero(trimmed(field(row, at, "0"@)))
}

/// Whether `row` yields a record: it reaches beyond the symbol column, and
/// its symbol is not empty.
pub open spec fn row_is_kept(row: Seq<Seq<char>>, at: ColumnPositions) -> bool {
    row.len() > at.symbol && symbol_field(row, at.symbol).len() > 0
}

/// The record that `row` yields for the trading day `day`.
pub open spec fn record_of(row: Seq<Seq<char>>, at: ColumnPositions, day: int) -> TradingDayRow {
    TradingDayRow {
        symbol: symbol_field(row, at.symbol),
        series: text_field(row, at.series),
        date: day,
        open: decimal_field(row, at.open),
        high: decimal_field(row, at.high),
        low: decimal_field(row, at.low),
        close: decimal_field(row, at.close),
        last: decimal_field(row, at.last),
        prev_close: decimal_field(row, at.prev_close),
        volume: integer_field(row, at.volume),
        turnover: decimal_field(row, at.turnover),
        trades: integer_field(row, at.trades),
        isin: text_field(row, at.isin),
    }
}

/// The records that `rows` yield, in the order of the rows that are kept.
pub open spec fn map_rows(rows: Seq<Seq<Seq<char>>>, at: ColumnPositions, day: int) -> Seq<
    TradingDayRow,
>
    decreases rows.len(),
{
    if rows.len() == 0 {
        Seq::empty()
    } else {
        let before = map_rows(rows.drop_last(), at, day);
        if row_is_kept(rows.last(), at) {
            before.push(record_of(rows.last(), at, day))
        } else {
            before
        }
    }
}

fn field_or<'a>(row: &'a Vec<String>, at: usize, missing: &'a str) -> (f: &'a str)
    ensures
        f@ == field(texts(row@), at as int, missing@),
{
    if at < row.len() {
        row[at].as_str()
    } else {
        missing
    }
}

fn read_text(row: &Vec<String>, at: usize) -> (out: String)
    ensures
        out@ == text_field(texts(row@), at as int),
{
    trim(field_or(row, at, ""))
}

fn read_decimal(row: &Vec<String>, at: usize) -> (out: String)
    ensures
        out@ == decimal_field(texts(row@), at as int),
{
    let body = trim(field_or(row, at, "0"));
    let chars = chars_of(body.as_str());
    if is_decimal_text(&chars) {
        body
    } else {
        String::from_str("0")
    }
}

fn read_integer(row: &Vec<String>, at: usize) -> (out: i64)
    ensures
        out == integer_field(texts(row@), at as int),
{
    let body = trim(field_or(row, at, "0"));
    let chars = chars_of(body.as_str());
    match parse_integer(&chars) {
        Some(v) => v,
        None => 0,
    }
}

/// Maps one data row. A row that does not reach beyond the symbol column, or
/// whose symbol is empty, yields nothing; a numeric field that cannot be read
/// becomes zero and does not cost the row.
pub fn map_row(row: &Vec<String>, at: &Positions, day: Day) -> (r: Option<TradingDayRecord>)
    ensures
        r is Some <==> row_is_kept(texts(row@), at@),
        r matches Some(record) ==> record@ == record_of(texts(row@), at@, day@),
{
    if row.len() <= at.symbol {
        return None;
    }
    let name = read_text(row, at.symbol);
    let symbol = uppercase(name.as_str());
    if symbol.as_str().is_empty() {
        return None;
    }
    Some(
        TradingDayRecord {
            symbol,
            series: read_text(row, at.series),
            date: day,
            open: read_decimal(row, at.open),
            high: read_decimal(row, at.high),
            low: read_decimal(row, at.low),
            close: read_decimal(row, at.close),
            last: read_decimal(row, at.last),
            prev_close: read_decimal(row, at.prev_close),
            volume: read_integer(row, at.volume),
            turnover: read_decimal(row, at.turnover),
            trades: read_integer(row, at.trades),
            isin: read_text(row, at.isin),
        },
    )
}

/// Maps every record of a table, in order, for the trading day `day`.
pub fn map_table(table: &Table, names: &ColumnNames, day: Day) -> (out: Vec<TradingDayRecord>)
    ensures
        rows_of(out@) == map_rows(
            table.records_view(),
            positions(table.header_view(), *names),
            day@,
        ),
{
    let at = locate_columns(&table.header, names);
    let mut out: Vec<TradingDayRecord> = Vec::new();
    let mut i: usize = 0;
    let ghost rows = table.records_view();
    proof {
        assert(rows.subrange(0, 0) =~= Seq::<Seq<Seq<char>>>::empty());
        assert(rows_of(out@) =~= Seq::<TradingDayRow>::empty());
    }
    while i < table.records.len()
        invariant
            0 <= i <= table.records.len(),
            rows == table.records_view(),
            rows.len() == table.records.len(),
            at@ == positions(table.header_view(), *names),
            rows_of(out@) == map_rows(rows.subrange(0, i as int), at@, day@),
        decreases table.records.len() - i,
    {
        let ghost before = rows_of(out@);
        let ghost upto = rows.subrange(0, i + 1);
        proof {
            assert(upto.drop_last() =~= rows.subrange(0, i as int));
            assert(upto.last() == texts(table.records@[i as int]@));
        }
        match map_row(&table.records[i], &at, day) {
            Some(record) => {
                out.push(record);
                proof {
                    assert(rows_of(out@) =~= before.push(record@));
                }
            },
            None => {},
        }
        i = i + 1;
    }
    proof {
        assert(rows.subrange(0, i as int) =~= rows);
    }
    out
}

/// What a payload must meet before any row is mapped: at least two
/// lines, and the marker somewhere in the first.
pub open spec fn payload_check(text: Seq<char>, marker: Seq<char>) -> Result<
    (),
    InvalidPayloadError,
> {
    let all = lines(text);
    if all.len() < 2 {
        Err(InvalidPayloadError::TooFewLines)
    } else if !contains(all[0], marker) {
        Err(InvalidPayloadError::MissingMarker)
    } else {
        Ok(())
    }
}

/// Validates decoded text.
pub fn check_text(text: &Vec<char>, marker: &Vec<char>) -> (r: Result<(), InvalidPayloadError>)
    ensures
        r == payload_check(text@, marker@),
{
    let all = split_lines(text);
    proof {
        assert(lines(text@).len() == all@.len());
    }
    if all.len() < 2 {
        return Err(InvalidPayloadError::TooFewLines);
    }
    proof {
        assert(lines(text@)[0] == all@[0]@);
    }
    if !text_contains(&all[0], marker) {
        return Err(InvalidPayloadError::MissingMarker);
    }
    Ok(())
}

/// Validates a raw payload: its bytes are read as UTF-8, with
/// the replacement character for what is ill-formed, and must hold at least
/// two lines, the first with `marker` in it.
pub fn validate_payload(raw: &[u8], marker: &str) -> (r: Result<(), InvalidPayloadError>)
    ensures
        r == payload_check(utf8_lossy(raw@), marker@),
{
    let text = decode_lossy(raw);
    let wanted = chars_of(marker);
    check_text(&text, &wanted)
}

/// What decoding `raw` yields: the refusal of validation, `Unreadable` where the
/// bytes are no tabular text, and else the records of the table's rows.
pub open spec fn decoded(raw: Seq<u8>, names: ColumnNames, day: int) -> Result<
    Seq<TradingDayRow>,
    InvalidPayloadError,
> {
    match payload_check(utf8_lossy(raw), names.marker@) {
        Err(e) => Err(e),
        Ok(_) => match csv_table(raw, true) {
            None => Err(InvalidPayloadError::Unreadable),
            Some(table) => Ok(map_rows(table.1, positions(table.0, names), day)),
        },
    }
}

/// The content of a decoding's outcome.
pub open spec fn decode_view(r: Result<Vec<TradingDayRecord>, InvalidPayloadError>) -> Result<
    Seq<TradingDayRow>,
    InvalidPayloadError,
> {
    match r {
        Ok(records) => Ok(rows_of(records@)),
        Err(e) => Err(e),
    }
}

/// Decodes a day's payload into records. The payload is refused as a whole
/// where it fails validation; past it every row with a symbol yields a
/// record. Nothing is kept between calls: the same bytes give the same rows.
pub fn decode(raw: &[u8], names: &ColumnNames, day: Day) -> (r: Result<
    Vec<TradingDayRecord>,
    InvalidPayloadError,
>)
    ensures
        decode_view(r) == decoded(raw@, *names, day@),
{
    match validate_payload(raw, names.marker.as_str()) {
        Err(e) => Err(e),
        Ok(_) => match read_table(raw, true) {
            Err(_) => Err(InvalidPayloadError::Unreadable),
            Ok(table) => Ok(map_table(&table, names, day)),
        },
    }
}

/// Decoding is a function of the bytes: two decodings of the same payload
/// with the same columns for the same day hold the same rows in the same
/// order, or fail alike.
pub proof fn lemma_decode_restartable(
    raw: Seq<u8>,
    names: ColumnNames,
    day: int,
    first: Result<Vec<TradingDayRecord>, InvalidPayloadError>,
    second: Result<Vec<TradingDayRecord>, InvalidPayloadError>,
)
    requires
        decode_view(first) == decoded(raw, names, day),
        decode_view(second) == decoded(raw, names, day),
    ensures
        decode_view(first) == decode_view(second),
        first is Ok <==> second is Ok,
        first matches Ok(a) ==> second matches Ok(b) && rows_of(a@) == rows_of(b@),
{
}

/// Whether two files, each with its own header, hold the same data in
/// `column` for a pair of rows: the field is present in both with the same
/// text, or absent from both.
pub open spec fn same_field(
    header_a: Seq<Seq<char>>,
    row_a: Seq<Seq<char>>,
    header_b: Seq<Seq<char>>,
    row_b: Seq<Seq<char>>,
    column: Column,
) -> bool {
    let at_a = located(header_a, column);
    let at_b = located(header_b, column);
    &&& (0 <= at_a < row_a.len()) == (0 <= at_b < row_b.len())
    &&& 0 <= at_a < row_a.len() ==> row_a[at_a] == row_b[at_b]
}

/// Whether two rows of two files hold the same data in every canonical
/// column.
pub open spec fn same_data(
    header_a: Seq<Seq<char>>,
    row_a: Seq<Seq<char>>,
    header_b: Seq<Seq<char>>,
    row_b: Seq<Seq<char>>,
    names: ColumnNames,
) -> bool {
    &&& same_field(header_a, row_a, header_b, row_b, names.symbol)
    &&& same_field(header_a, row_a, header_b, row_b, names.series)
    &&& same_field(header_a, row_a, header_b, row_b, names.open)
    &&& same_field(header_a, row_a, header_b, row_b, names.high)
    &&& same_field(header_a, row_a, header_b, row_b, names.low)
    &&& same_field(header_a, row_a, header_b, row_b, names.close)
    &&& same_field(header_a, row_a, header_b, row_b, names.last)
    &&& same_field(header_a, row_a, header_b, row_b, names.prev_close)
    &&& same_field(header_a, row_a, header_b, row_b, names.volume)
    &&& same_field(header_a, row_a, header_b, row_b, names.turnover)
    &&& same_field(header_a, row_a, header_b, row_b, names.trades)
    &&& same_field(header_a, row_a, header_b, row_b, names.isin)
}

/// Schema tolerance for one row: where two files place the same data under
/// different headers, be it a header that names the columns or one that
/// leaves them at their positional defaults, a row of one is kept exactly when
/// the matching row of the other is, and both yield the same record.
pub proof fn lemma_schema_tolerance_row(
    header_a: Seq<Seq<char>>,
    row_a: Seq<Seq<char>>,
    header_b: Seq<Seq<char>>,
    row_b: Seq<Seq<char>>,
    names: ColumnNames,
    day: int,
)
    requires
        same_data(header_a, row_a, header_b, row_b, names),
    ensures
        row_is_kept(row_a, positions(header_a, names)) == row_is_kept(
            row_b,
            positions(header_b, names),
        ),
        record_of(row_a, positions(header_a, names), day) == record_of(
            row_b,
            positions(header_b, names),
            day,
        ),
{
    lemma_located_nonnegative(header_a, names.symbol);
    lemma_located_nonnegative(header_b, names.symbol);
}

/// Schema tolerance for a file: where two files have as many rows and each
/// pair of rows holds the same data, both decode to the same records.
pub proof fn lemma_schema_tolerance(
    header_a: Seq<Seq<char>>,
    rows_a: Seq<Seq<Seq<char>>>,
    header_b: Seq<Seq<char>>,
    rows_b: Seq<Seq<Seq<char>>>,
    names: ColumnNames,
    day: int,
)
    requires
        rows_a.len() == rows_b.len(),
        forall|i: int|
            0 <= i < rows_a.len() ==> same_data(
                header_a,
                #[trigger] rows_a[i],
                header_b,
                rows_b[i],
                names,
            ),
    ensures
        map_rows(rows_a, positions(header_a, names), day) == map_rows(
            rows_b,
            positions(header_b, names),
            day,
        ),
    decreases rows_a.len(),
{
    if rows_a.len() > 0 {
        lemma_schema_tolerance(
            header_a,
            rows_a.drop_last(),
            header_b,
            rows_b.drop_last(),
            names,
            day,
        );
        assert(same_data(
            header_a,
            rows_a[rows_a.len() - 1],
            header_b,
            rows_b[rows_a.len() - 1],
            names,
        ));
        lemma_schema_tolerance_row(
            header_a,
            rows_a.last(),
            header_b,
            rows_b.last(),
            names,
            day,
        );
    }
}

/// Every record that rows yield is for the day they were decoded for and has
/// a symbol, so that a store can key it.
pub proof fn lemma_mapped_rows_are_keyed(rows: Seq<Seq<Seq<char>>>, at: ColumnPositions, day: int)
    ensures
        map_rows(rows, at, day).len() <= rows.len(),
        forall|i: int|
            0 <= i < map_rows(rows, at, day).len() ==> (#[trigger] map_rows(rows, at, day)[i]).date
                == day && map_rows(rows, at, day)[i].symbol.len() > 0,
    decreases rows.len(),
{
    if rows.len() > 0 {
        lemma_mapped_rows_are_keyed(rows.drop_last(), at, day);
    }
}

} // verus!
