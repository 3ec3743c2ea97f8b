use quote_stream::generator::{is_popular, volume_range};

#[test]
fn popular_tickers() {
    assert!(is_popular("AAPL"));
    assert!(is_popular("MSFT"));
    assert!(is_popular("TSLA"));
    assert!(!is_popular("GOOG"));
    assert!(!is_popular("aapl"));
    assert!(!is_popular(""));
}

#[test]
fn volume_ranges() {
    let p = volume_range("TSLA");
    assert_eq!((p.base, p.span), (1000, 5000));
    assert_eq!(p.volume(0), 1000);
    assert_eq!(p.volume(4999), 5999);
    let o = volume_range("GOOG");
    assert_eq!((o.base, o.span), (100, 1000));
    assert_eq!(o.volume(999), 1099);
}
