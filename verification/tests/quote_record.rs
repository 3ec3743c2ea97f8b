use quote_stream::quote::StockQuote;

fn quote_of(ticker: &str, price: &str, volume: u32, timestamp: u64) -> StockQuote {
    StockQuote { ticker: ticker.to_string(), price: price.to_string(), volume, timestamp }
}

#[test]
fn to_string_matches_documented_example() {
    let q = quote_of("AAPL", "190.5", 100, 1710000000);
    assert_eq!(q.to_string(), "AAPL|190.5|100|1710000000");
}

#[test]
fn to_string_renders_zero_and_extremes() {
    assert_eq!(quote_of("X", "1", 0, 0).to_string(), "X|1|0|0");
    assert_eq!(
        quote_of("T", "2.25", u32::MAX, u64::MAX).to_string(),
        "T|2.25|4294967295|18446744073709551615"
    );
}

#[test]
fn to_bytes_is_utf8_of_to_string() {
    let q = quote_of("AAPL", "190.5", 100, 1710000000);
    assert_eq!(q.to_bytes(), b"AAPL|190.5|100|1710000000".to_vec());
    let u = quote_of("ÄÖ", "inf", 7, 8);
    assert_eq!(u.to_bytes(), u.to_string().into_bytes());
}

#[test]
fn from_string_reads_four_fields() {
    let q = StockQuote::from_string("AAPL|190.5|100|1710000000").unwrap();
    assert_eq!(q.ticker, "AAPL");
    assert_eq!(q.price, "190.5");
    assert_eq!(q.volume, 100);
    assert_eq!(q.timestamp, 1710000000);
}

#[test]
fn from_string_round_trip() {
    let q = quote_of("MSFT", "101.75", 4321, 1720000000123);
    let back = StockQuote::from_string(&q.to_string()).unwrap();
    assert_eq!(back.ticker, q.ticker);
    assert_eq!(back.price, q.price);
    assert_eq!(back.volume, q.volume);
    assert_eq!(back.timestamp, q.timestamp);
}

#[test]
fn from_string_refuses_wrong_field_count() {
    assert!(StockQuote::from_string("AAPL|190.5|100").is_none());
    assert!(StockQuote::from_string("AAPL|190.5|100|1|2").is_none());
    assert!(StockQuote::from_string("").is_none());
}

#[test]
fn from_string_refuses_bad_numbers() {
    assert!(StockQuote::from_string("AAPL|1|x|5").is_none());
    assert!(StockQuote::from_string("AAPL|1|5|").is_none());
    assert!(StockQuote::from_string("AAPL|1|-5|5").is_none());
    assert!(StockQuote::from_string("AAPL|1|4294967296|5").is_none());
    assert!(StockQuote::from_string("AAPL|1|5|18446744073709551616").is_none());
    assert!(StockQuote::from_string("AAPL|1| 5|5").is_none());
    assert!(StockQuote::from_string("AAPL|1|+|5").is_none());
    assert!(StockQuote::from_string("AAPL|x|1|1").is_none());
    assert!(StockQuote::from_string("AAPL||1|1").is_none());
}

#[test]
fn from_string_accepts_plus_sign_and_leading_zeros() {
    let q = StockQuote::from_string("A|-1.5E+3|+007|4294967295").unwrap();
    assert_eq!(q.ticker, "A");
    assert_eq!(q.price, "-1.5E+3");
    assert_eq!(q.volume, 7);
    assert_eq!(q.timestamp, 4294967295);
    let m = StockQuote::from_string("B|1|4294967295|18446744073709551615").unwrap();
    assert_eq!(m.volume, u32::MAX);
    assert_eq!(m.timestamp, u64::MAX);
}

#[test]
fn from_string_price_grammar_like_f64() {
    let prices = [
        "1", "1.", ".5", "+1.5", "-0", "1e5", "1E-5", "2.5e+10", "inf", "-Infinity", "NaN", "nan",
        "1e400", ".", "", "e5", "1e", "1.2.3", "1,5", "0x10", " 1", "infin", "1_0", "+", "--1", "1e+",
        "١",
    ];
    for p in prices {
        let record = format!("T|{}|1|2", p);
        assert_eq!(StockQuote::from_string(&record).is_some(), p.parse::<f64>().is_ok(), "price {:?}", p);
    }
}

#[test]
fn displayed_floats_read_back() {
    for x in [190.5f64, 100.0, 1.0, 0.1 + 0.2, 1e300, -3.25, f64::INFINITY, f64::NAN, 1e-300] {
        let q = quote_of("AAPL", &x.to_string(), 1, 2);
        let back = StockQuote::from_string(&q.to_string()).unwrap();
        assert_eq!(back.price, x.to_string());
    }
}

#[test]
fn new_checks_the_price() {
    let q = StockQuote::new("AAPL".to_string(), "190.5".to_string(), 100, 1710000000).unwrap();
    assert_eq!(q.to_string(), "AAPL|190.5|100|1710000000");
    assert!(StockQuote::new("AAPL".to_string(), "abc".to_string(), 1, 1).is_none());
    assert!(StockQuote::new("AAPL".to_string(), "".to_string(), 1, 1).is_none());
}
