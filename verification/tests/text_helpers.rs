use quote_stream::text::{read_decimal, split_char, split_words};

#[test]
fn split_char_like_str_split() {
    for s in ["a|b|c", "", "|", "a||", "||x"] {
        let expected: Vec<String> = s.split('|').map(|p| p.to_string()).collect();
        assert_eq!(split_char(s, '|'), expected);
    }
}

#[test]
fn split_words_like_split_whitespace() {
    for s in ["", "  a b\tc\n", "\u{3000}x\u{a0}y\u{2028}", "one"] {
        let expected: Vec<String> = s.split_whitespace().map(|p| p.to_string()).collect();
        assert_eq!(split_words(s), expected);
    }
}

#[test]
fn read_decimal_like_from_str() {
    for s in ["0", "+12", "007", "4294967295", "4294967296", "", "+", "-1", "1_0", " 1", "12a"] {
        assert_eq!(read_decimal(s, u32::MAX as u64), s.parse::<u32>().ok().map(|v| v as u64));
    }
    for s in ["18446744073709551615", "18446744073709551616", "99999999999999999999"] {
        assert_eq!(read_decimal(s, u64::MAX), s.parse::<u64>().ok());
    }
}
