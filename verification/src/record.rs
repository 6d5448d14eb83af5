//! One instrument's trade summary for one trading day.

use vstd::prelude::*;
use crate::day::Day;

verus! {

/// The mathematical content of a `TradingDayRecord`.
pub struct TradingDayRow {
    pub symbol: Seq<char>,
    pub series: Seq<char>,
    pub date: int,
    pub open: Seq<char>,
    pub high: Seq<char>,
    pub low: Seq<char>,
    pub close: Seq<char>,
    pub last: Seq<char>,
    pub prev_close: Seq<char>,
    pub volume: i64,
    pub turnover: Seq<char>,
    pub trades: i64,
    pub isin: Seq<char>,
}

/// One row per symbol and trading day. Prices and turnover are kept as the
/// decimal literals that the source wrote, so that nothing is lost before
/// they reach a store.
#[derive(Debug, Clone, PartialEq, Eq)]
pub struct TradingDayRecord {
    /// Ticker, upper case, never empty in a decoded row.
    pub symbol: String,
    /// Market segment code.
    pub series: String,
    /// Trading date.
    pub date: Day,
    pub open: String,
    pub high: String,
    pub low: String,
    pub close: String,
    pub last: String,
    pub prev_close: String,
    pub volume: i64,
    pub turnover: String,
    pub trades: i64,
    /// Instrument identifier.
    pub isin: String,
}

impl View for TradingDayRecord {
    type V = TradingDayRow;

    open spec fn view(&self) -> TradingDayRow {
        TradingDayRow {
            symbol: self.symbol@,
            series: self.series@,
            date: self.date@,
            open: self.open@,
            high: self.high@,
            low: self.low@,
            close: self.close@,
            last: self.last@,
            prev_close: self.prev_close@,
            volume: self.volume,
            turnover: self.turnover@,
            trades: self.trades,
            isin: self.isin@,
        }
    }
}

/// The contents of a sequence of records.
pub open spec fn rows_of(records: Seq<TradingDayRecord>) -> Seq<TradingDayRow> {
    Seq::new(records.len(), |i: int| records[i]@)
}

impl TradingDayRow {
    /// The key under which a store holds the row: symbol and trading date.
    pub open spec fn key(self) -> (Seq<char>, int) {
        (self.symbol, self.date)
    }
}

impl TradingDayRecord {
    /// A copy with the same content.
    pub fn duplicate(&self) -> (copy: TradingDayRecord)
        ensures
            copy@ == self@,
    {
        TradingDayRecord {
            symbol: self.symbol.clone(),
            series: self.series.clone(),
            date: self.date,
            open: self.open.clone(),
            high: self.high.clone(),
            low: self.low.clone(),
            close: self.close.clone(),
            last: self.last.clone(),
            prev_close: self.prev_close.clone(),
            volume: self.volume,
            turnover: self.turnover.clone(),
            trades: self.trades,
            isin: self.isin.clone(),
        }
    }

    /// Whether this record and `other` are for the same symbol and day.
    pub fn same_key(&self, other: &TradingDayRecord) -> (same: bool)
        ensures
            same == (self@.key() == other@.key()),
    {
        proof {
            self.date.lemma_view_injective(other.date);
        }
        self.symbol == other.symbol && self.date == other.date
    }
}

} // verus!
