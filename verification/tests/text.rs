use indistocks::text::{split_lines, text_contains};

fn chars(s: &str) -> Vec<char> {
    s.chars().collect()
}

fn lines_of(s: &str) -> Vec<String> {
    split_lines(&chars(s)).iter().map(|l| l.iter().collect()).collect()
}

#[test]
fn lines_split_as_the_standard_library_does() {
    for s in [
        "", "a", "a\n", "a\nb", "a\nb\n", "a\r\nb\r\n", "\n", "\n\n", "a\n\nb", "a\r", "a\r\n",
        "\r\n", "a\rb\nc", "a\n\r", "\r", "x\r\r\ny",
    ] {
        let expected: Vec<String> = s.lines().map(|l| l.to_string()).collect();
        assert_eq!(lines_of(s), expected, "input {:?}", s);
    }
}

#[test]
fn a_trailing_line_feed_adds_no_line() {
    assert_eq!(lines_of("head\nrow\n"), vec!["head".to_string(), "row".to_string()]);
    assert_eq!(lines_of("head\n").len(), 1);
    assert_eq!(lines_of("").len(), 0);
}

#[test]
fn substring_search() {
    for (hay, needle) in [
        ("TradDt,BizDt", "TradDt"), ("BizDt,TradDt", "TradDt"), ("TradD", "TradDt"), ("", ""),
        ("abc", ""), ("", "a"), ("aaab", "aab"), ("abab", "bab"), ("xTradDtx", "TradDt"),
        ("tradDt", "TradDt"), ("Date", "Date"), ("Dat", "Date"),
    ] {
        assert_eq!(text_contains(&chars(hay), &chars(needle)), hay.contains(needle), "{:?} in {:?}", needle, hay);
    }
}
