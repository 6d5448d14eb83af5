use indistocks::day::Day;
use indistocks::mapper::{
    decode, locate, locate_columns, map_row, map_table, validate_payload, Column, ColumnNames,
    InvalidPayloadError, Positions,
};
use indistocks::record::TradingDayRecord;
use indistocks::table::Table;

const CURRENT: &str = "TradDt,BizDt,Sgmt,Src,FinInstrmTp,FinInstrmId,ISIN,TckrSymb,SctySrs,XpryDt,FininstrmActlXpryDt,StrkPric,OptnTp,FinInstrmNm,OpnPric,HghPric,LwPric,ClsPric,LastPric,PrvsClsgPric,UndrlygPric,SttlmPric,OpnIntrst,ChngInOpnIntrst,TtlTradgVol,TtlTrfVal,TtlNbOfTxsExctd,SsnId,NewBrdLotQty,Rmks,Rsvd1,Rsvd2,Rsvd3,Rsvd4\n\
2024-01-31,2024-01-31,CM,NSE,STK,2885,INE002A01018,reliance,EQ,,,,,RELIANCE INDUSTRIES LTD,2850.00,2918.95,2845.10,2853.25,2855.00,2896.15,,2853.25,,,7654321,21876543210.55,234567,F1,1,,,,,\n\
2024-01-31,2024-01-31,CM,NSE,STK,11536,INE467B01029, TCS ,EQ,,,,,TATA CONSULTANCY SERV LT,3800.5,3825,3790.05,3815.6,3815,3799.9,,3815.6,,,1234567,4700000000.1,98765,F1,1,,,,,\n";

const LEGACY: &str = "TradDt,Symbol,Series,Extra,Open,High,Low,Close,Last,PrevClose,Volume,Turnover,Trades,Isin\n\
2024-01-31,reliance,EQ,x,2850.00,2918.95,2845.10,2853.25,2855.00,2896.15,7654321,21876543210.55,234567,INE002A01018\n\
2024-01-31, TCS ,EQ,x,3800.5,3825,3790.05,3815.6,3815,3799.9,1234567,4700000000.1,98765,INE467B01029\n";

fn day() -> Day {
    Day::from_epoch_days(19_753).unwrap()
}

fn strings(fields: &[&str]) -> Vec<String> {
    fields.iter().map(|f| f.to_string()).collect()
}

fn expected_rows() -> Vec<TradingDayRecord> {
    vec![
        TradingDayRecord {
            symbol: "RELIANCE".to_string(),
            series: "EQ".to_string(),
            date: day(),
            open: "2850.00".to_string(),
            high: "2918.95".to_string(),
            low: "2845.10".to_string(),
            close: "2853.25".to_string(),
            last: "2855.00".to_string(),
            prev_close: "2896.15".to_string(),
            volume: 7_654_321,
            turnover: "21876543210.55".to_string(),
            trades: 234_567,
            isin: "INE002A01018".to_string(),
        },
        TradingDayRecord {
            symbol: "TCS".to_string(),
            series: "EQ".to_string(),
            date: day(),
            open: "3800.5".to_string(),
            high: "3825".to_string(),
            low: "3790.05".to_string(),
            close: "3815.6".to_string(),
            last: "3815".to_string(),
            prev_close: "3799.9".to_string(),
            volume: 1_234_567,
            turnover: "4700000000.1".to_string(),
            trades: 98_765,
            isin: "INE467B01029".to_string(),
        },
    ]
}

#[test]
fn the_current_header_is_read_by_name() {
    let rows = decode(CURRENT.as_bytes(), &ColumnNames::bhavcopy(), day()).unwrap();
    assert_eq!(rows, expected_rows());
}

#[test]
fn a_header_without_the_names_is_read_by_position() {
    let rows = decode(LEGACY.as_bytes(), &ColumnNames::bhavcopy(), day()).unwrap();
    assert_eq!(rows, expected_rows());
}

#[test]
fn both_layouts_decode_to_the_same_rows() {
    let names = ColumnNames::bhavcopy();
    assert_eq!(
        decode(CURRENT.as_bytes(), &names, day()),
        decode(LEGACY.as_bytes(), &names, day())
    );
}

#[test]
fn decoding_twice_gives_the_same_rows() {
    let names = ColumnNames::bhavcopy();
    let first = decode(CURRENT.as_bytes(), &names, day());
    let second = decode(CURRENT.as_bytes(), &names, day());
    assert!(first.is_ok());
    assert_eq!(first, second);
    let bad = b"no marker here\nrow\n";
    assert_eq!(decode(bad, &names, day()), decode(bad, &names, day()));
}

#[test]
fn a_payload_without_the_marker_is_refused() {
    let names = ColumnNames::bhavcopy();
    let payload = b"Symbol,Open,Close\nABC,1,2\n";
    assert_eq!(decode(payload, &names, day()), Err(InvalidPayloadError::MissingMarker));
    assert_eq!(validate_payload(payload, "TradDt"), Err(InvalidPayloadError::MissingMarker));
    assert_eq!(validate_payload(b"<html>\n<body>Not Found</body>\n</html>", "TradDt"), Err(InvalidPayloadError::MissingMarker));
}

#[test]
fn a_payload_of_fewer_than_two_lines_is_refused() {
    let names = ColumnNames::bhavcopy();
    assert_eq!(decode(b"", &names, day()), Err(InvalidPayloadError::TooFewLines));
    assert_eq!(decode(b"TradDt,TckrSymb", &names, day()), Err(InvalidPayloadError::TooFewLines));
    assert_eq!(decode(b"TradDt,TckrSymb\n", &names, day()), Err(InvalidPayloadError::TooFewLines));
    assert_eq!(validate_payload(b"TradDt\nrow", "TradDt"), Ok(()));
    assert_eq!(validate_payload(b"TradDt\r\nrow\r\n", "TradDt"), Ok(()));
    assert_eq!(validate_payload(b"TradDt\n\n", "TradDt"), Ok(()));
}

#[test]
fn the_marker_is_sought_in_the_first_line_only() {
    assert_eq!(validate_payload(b"Symbol\nTradDt\n", "TradDt"), Err(InvalidPayloadError::MissingMarker));
    assert_eq!(validate_payload(b"xTradDtx,b\n1,2\n", "TradDt"), Ok(()));
    assert_eq!(validate_payload(b"traddt,b\n1,2\n", "TradDt"), Err(InvalidPayloadError::MissingMarker));
    assert_eq!(validate_payload(b"\xff\xfeTradDt,b\n1,2\n", "TradDt"), Ok(()));
    assert_eq!(validate_payload(b"Date,Open\n1,2\n", "Date"), Ok(()));
}

#[test]
fn text_that_is_no_utf8_is_unreadable() {
    let names = ColumnNames::bhavcopy();
    let payload = b"TradDt,TckrSymb\n2024-01-31,AB\xffC\n";
    assert_eq!(decode(payload, &names, day()), Err(InvalidPayloadError::Unreadable));
}

#[test]
fn a_number_that_cannot_be_read_becomes_zero() {
    let names = ColumnNames::bhavcopy();
    let payload = "TradDt,TckrSymb,SctySrs,OpnPric,HghPric,LwPric,ClsPric,LastPric,PrvsClsgPric,TtlTradgVol,TtlTrfVal,TtlNbOfTxsExctd,ISIN\n\
d,abc,EQ,n/a, 12.5 ,,1e3,-,1.2.3,many,inf,1.5,IN1\n";
    let rows = decode(payload.as_bytes(), &names, day()).unwrap();
    assert_eq!(rows.len(), 1);
    let row = &rows[0];
    assert_eq!(row.symbol, "ABC");
    assert_eq!(row.open, "0");
    assert_eq!(row.high, "12.5");
    assert_eq!(row.low, "0");
    assert_eq!(row.close, "1e3");
    assert_eq!(row.last, "0");
    assert_eq!(row.prev_close, "0");
    assert_eq!(row.volume, 0);
    assert_eq!(row.turnover, "inf");
    assert_eq!(row.trades, 0);
    assert_eq!(row.isin, "IN1");
    for text in [&row.open, &row.high, &row.low, &row.close, &row.last, &row.prev_close, &row.turnover] {
        assert!(text.parse::<f64>().is_ok());
    }
}

#[test]
fn rows_without_a_symbol_are_skipped() {
    let names = ColumnNames::bhavcopy();
    let payload = "TradDt,TckrSymb,SctySrs\nd,AAA,EQ\nd\nd,,EQ\nd,   ,EQ\n\nd,bbb\n";
    let rows = decode(payload.as_bytes(), &names, day()).unwrap();
    let symbols: Vec<&str> = rows.iter().map(|r| r.symbol.as_str()).collect();
    assert_eq!(symbols, vec!["AAA", "BBB"]);
    assert_eq!(rows[1].series, "");
    assert_eq!(rows[1].open, "0");
    assert_eq!(rows[1].volume, 0);
    assert_eq!(rows[1].isin, "");
}

#[test]
fn symbols_are_trimmed_and_upper_cased() {
    let at = locate_columns(&strings(&["TckrSymb"]), &ColumnNames::bhavcopy());
    let row = map_row(&strings(&["  straße \t"]), &at, day()).unwrap();
    assert_eq!(row.symbol, "STRASSE");
    assert_eq!(map_row(&strings(&["\u{a0}\u{2003}"]), &at, day()), None);
}

#[test]
fn a_column_is_found_by_its_exact_name_first() {
    let header = strings(&["a", "TckrSymb", "tckrsymb", "TckrSymb", " ISIN"]);
    assert_eq!(locate(&header, &Column::new("TckrSymb", 9)), 1);
    assert_eq!(locate(&header, &Column::new("tckrsymb", 9)), 2);
    assert_eq!(locate(&header, &Column::new("ISIN", 13)), 13);
    assert_eq!(locate(&header, &Column::new("a", 5)), 0);
    assert_eq!(locate(&strings(&[]), &Column::new("a", 5)), 5);
}

#[test]
fn positional_defaults_of_the_daily_file() {
    let at = locate_columns(&strings(&["x", "y"]), &ColumnNames::bhavcopy());
    assert_eq!(
        at,
        Positions { symbol: 1, series: 2, open: 4, high: 5, low: 6, close: 7, last: 8, prev_close: 9, volume: 10, turnover: 11, trades: 12, isin: 13 }
    );
    assert_eq!(ColumnNames::bhavcopy().marker, "TradDt");
}

#[test]
fn a_table_is_mapped_in_order() {
    let table = Table {
        header: strings(&["TckrSymb", "TtlTradgVol"]),
        records: vec![strings(&["b", "2"]), strings(&[""]), strings(&["a", "+1"]), strings(&["c", "-3"])],
    };
    let rows = map_table(&table, &ColumnNames::bhavcopy(), day());
    let got: Vec<(&str, i64)> = rows.iter().map(|r| (r.symbol.as_str(), r.volume)).collect();
    assert_eq!(got, vec![("B", 2), ("A", 1), ("C", -3)]);
}

#[test]
fn quoted_fields_and_trailing_commas_are_read() {
    let names = ColumnNames::bhavcopy();
    let payload = "TradDt,TckrSymb,FinInstrmNm,TtlTradgVol,\nd,\"m&m\",\"Mahindra, and\",\"42\",\n";
    let rows = decode(payload.as_bytes(), &names, day()).unwrap();
    assert_eq!(rows.len(), 1);
    assert_eq!(rows[0].symbol, "M&M");
    assert_eq!(rows[0].volume, 42);
}
