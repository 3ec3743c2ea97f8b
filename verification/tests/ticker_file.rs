use std::io::BufRead;
use quote_stream::producer::ticker_lines;

#[test]
fn ticker_lines_one_per_line() {
    assert_eq!(ticker_lines("AAPL\nMSFT\nTSLA\n"), vec!["AAPL", "MSFT", "TSLA"]);
    assert_eq!(ticker_lines("AAPL\nMSFT"), vec!["AAPL", "MSFT"]);
}

#[test]
fn ticker_lines_crlf_and_edges() {
    assert_eq!(ticker_lines("A\r\nB\r\n"), vec!["A", "B"]);
    assert_eq!(ticker_lines("A\r"), vec!["A\r"]);
    assert!(ticker_lines("").is_empty());
    assert_eq!(ticker_lines("\n"), vec![""]);
    assert_eq!(ticker_lines("A\n\nB"), vec!["A", "", "B"]);
}

#[test]
fn ticker_lines_agree_with_std_lines() {
    for text in ["x\ny\r\nz", "\r\n\r\n", "only", "a\rb\n", "é\nü\r\n"] {
        let expected: Vec<String> = text.as_bytes().lines().map(|l| l.unwrap()).collect();
        assert_eq!(ticker_lines(text), expected);
    }
}
