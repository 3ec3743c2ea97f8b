use quote_stream::price::is_float;

#[test]
fn is_float_like_f64_from_str() {
    for s in ["0", "-.5", "5.", "1e10", "1E+10", "INF", "+nan", "Infinity", "infinityy", "e", ".e1", "1.e1", "1e1.5", "--", "  "] {
        assert_eq!(is_float(s), s.parse::<f64>().is_ok(), "{:?}", s);
    }
}
