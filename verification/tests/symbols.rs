use indistocks::symbols::{
    normalize_symbol, parse_equity_list, screen_named_symbols, screen_symbols, search_pattern,
    symbol_is_valid, symbols_query, UnreadableListError,
};

fn strings(items: &[&str]) -> Vec<String> {
    items.iter().map(|s| s.to_string()).collect()
}

#[test]
fn symbols_are_kept_trimmed_and_in_upper_case() {
    assert_eq!(normalize_symbol("  reliance\t"), "RELIANCE");
    assert_eq!(normalize_symbol("M_m"), "M_M");
    assert_eq!(normalize_symbol("   "), "");
}

#[test]
fn a_symbol_is_made_of_letters_numbers_and_underscores() {
    for (symbol, valid) in [
        ("RELIANCE", true), ("M_M", true), ("3MINDIA", true), ("_", true), ("ÉCOLE", true), ("", false),
        ("M&M", false), ("BAJAJ-AUTO", false), ("A B", false), ("A.B", false), (" ", false),
    ] {
        assert_eq!(symbol_is_valid(symbol), valid, "symbol {:?}", symbol);
    }
}

#[test]
fn screening_parts_the_taken_from_the_refused() {
    let (accepted, rejected) = screen_symbols(&strings(&[" tcs ", "m&m", "", "infy", "bajaj-auto", "hdfc_bank"]));
    assert_eq!(accepted, strings(&["TCS", "INFY", "HDFC_BANK"]));
    assert_eq!(rejected, strings(&["M&M", "", "BAJAJ-AUTO"]));
    assert_eq!(screen_symbols(&vec![]), (vec![], vec![]));
}

#[test]
fn screening_keeps_the_trimmed_name() {
    let raw = vec![
        (" tcs ".to_string(), "  Tata Consultancy Services  ".to_string()),
        ("m&m".to_string(), "Mahindra".to_string()),
        ("infy".to_string(), String::new()),
    ];
    let (accepted, rejected) = screen_named_symbols(&raw);
    assert_eq!(
        accepted,
        vec![("TCS".to_string(), "Tata Consultancy Services".to_string()), ("INFY".to_string(), String::new())]
    );
    assert_eq!(rejected, strings(&["M&M"]));
}

#[test]
fn the_listing_query_takes_a_limit_and_then_an_offset() {
    assert_eq!(symbols_query(None, None), "SELECT symbol FROM nse_symbols ORDER BY symbol");
    assert_eq!(symbols_query(None, Some(20)), "SELECT symbol FROM nse_symbols ORDER BY symbol");
    assert_eq!(symbols_query(Some(50), None), "SELECT symbol FROM nse_symbols ORDER BY symbol LIMIT 50");
    assert_eq!(symbols_query(Some(50), Some(100)), "SELECT symbol FROM nse_symbols ORDER BY symbol LIMIT 50 OFFSET 100");
    assert_eq!(symbols_query(Some(0), Some(0)), "SELECT symbol FROM nse_symbols ORDER BY symbol LIMIT 0 OFFSET 0");
}

#[test]
fn the_search_pattern_is_in_upper_case() {
    assert_eq!(search_pattern("hdfc"), "%HDFC%");
    assert_eq!(search_pattern(""), "%%");
}

#[test]
fn the_master_list_yields_symbols_with_names() {
    let content = b"SYMBOL,NAME OF COMPANY, SERIES\nTCS, Tata Consultancy Services ,EQ\n,Nameless,EQ\nNONAME,  ,EQ\n INFY ,Infosys Limited,EQ\n";
    assert_eq!(
        parse_equity_list(content),
        Ok(vec![
            ("TCS".to_string(), "Tata Consultancy Services".to_string()),
            ("INFY".to_string(), "Infosys Limited".to_string()),
        ])
    );
    assert_eq!(parse_equity_list(b""), Ok(vec![]));
    assert_eq!(parse_equity_list(b"SYMBOL,NAME\n"), Ok(vec![]));
    assert_eq!(parse_equity_list(b"SYMBOL\nTCS\n"), Ok(vec![]));
}

#[test]
fn a_master_list_with_ragged_records_is_refused() {
    assert_eq!(parse_equity_list(b"SYMBOL,NAME\nTCS,Tata,EQ\n"), Err(UnreadableListError {}));
    assert_eq!(parse_equity_list(b"SYMBOL,NAME\nTC\xffS,Tata\n"), Err(UnreadableListError {}));
}
