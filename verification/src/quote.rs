//! The quote record: `TICKER|PRICE|VOLUME|TIMESTAMP`.
//!
//! The price travels as the text of a floating-point number (as `f64`'s
//! `Display` writes it); whoever produces a quote renders the price into that
//! text, and whoever consumes one converts it back.

use vstd::prelude::*;
use vstd::string::StrSliceExecFns;
use vstd::string::StringExecFns;
use vstd::utf8::encode_utf8;
use crate::price::{ascii_digit_run, is_float, is_float_text, lemma_decimal_texts_are_floats, lemma_float_text_lacks};
use crate::text::{canonical_decimal, lemma_canonical_decimal_unique, lemma_decimal_canonical, decimal, lemma_decimal, lemma_parse_decimal, lemma_split_last, lemma_split_piece, parse_decimal, push_char, push_decimal, read_decimal, split_char, split_on, views, is_digit};

verus! {

/// A stock quote as it travels between producer, worker and client.
pub struct StockQuote {
    /// The ticker, e.g. `AAPL`.
    pub ticker: String,
    /// The price of one share, as the text of a floating-point number.
    pub price: String,
    /// The traded volume.
    pub volume: u32,
    /// Unix timestamp, in seconds.
    pub timestamp: u64,
}

impl View for StockQuote {
    type V = (Seq<char>, Seq<char>, nat, nat);

    open spec fn view(&self) -> Self::V {
        (self.ticker@, self.price@, self.volume as nat, self.timestamp as nat)
    }
}

/// The text of a quote record.
pub open spec fn quote_text(ticker: Seq<char>, price: Seq<char>, volume: nat, timestamp: nat) -> Seq<char> {
    ticker + seq!['|'] + price + seq!['|'] + decimal(volume) + seq!['|'] + decimal(timestamp)
}

/// What reading a record gives: exactly four `|`-separated fields, of which
/// the price is a floating-point number, the volume a `u32` and the
/// timestamp a `u64` in decimal.
pub open spec fn parse_quote(s: Seq<char>) -> Option<(Seq<char>, Seq<char>, nat, nat)> {
    let parts = split_on(s, '|');
    if parts.len() == 4 && is_float_text(parts[1]) {
        match (parse_decimal(parts[2], u32::MAX as nat), parse_decimal(parts[3], u64::MAX as nat)) {
            (Some(volume), Some(timestamp)) => Some((parts[0], parts[1], volume, timestamp)),
            _ => None,
        }
    } else {
        None
    }
}

impl StockQuote {
    /// A quote, if `price` is the text of a floating-point number (what
    /// `from_string` accepts as a price).
    pub fn new(ticker: String, price: String, volume: u32, timestamp: u64) -> (r: Option<StockQuote>)
        ensures
            match r {
                Some(q) => is_float_text(price@) && q.ticker == ticker && q.price == price && q.volume
                    == volume && q.timestamp == timestamp,
                None => !is_float_text(price@),
            },
    {
        if is_float(price.as_str()) {
            Some(StockQuote { ticker, price, volume, timestamp })
        } else {
            None
        }
    }

    /// Renders the quote as `TICKER|PRICE|VOLUME|TIMESTAMP`.
    pub fn to_string(&self) -> (s: String)
        ensures
            s@ == quote_text(self.ticker@, self.price@, self.volume as nat, self.timestamp as nat),
    {
        let mut s = self.ticker.clone();
        push_char(&mut s, '|');
        s.append(self.price.as_str());
        push_char(&mut s, '|');
        push_decimal(&mut s, self.volume as u64);
        push_char(&mut s, '|');
        push_decimal(&mut s, self.timestamp);
        s
    }

    /// Reads a record `TICKER|PRICE|VOLUME|TIMESTAMP`; `None` unless there
    /// are exactly four fields and the price, volume and timestamp are numbers.
    pub fn from_string(s: &str) -> (r: Option<StockQuote>)
        ensures
            match r {
                Some(q) => parse_quote(s@) == Some(q@),
                None => parse_quote(s@) is None,
            },
    {
        let parts = split_char(s, '|');
        assert(views(parts@).len() == parts@.len());
        if parts.len() == 4 {
            assert(views(parts@)[2] == parts@[2]@);
            assert(views(parts@)[3] == parts@[3]@);
            assert(views(parts@)[0] == parts@[0]@);
            assert(views(parts@)[1] == parts@[1]@);
            if !is_float(parts[1].as_str()) {
                return None;
            }
            let volume: u64 = match read_decimal(parts[2].as_str(), u32::MAX as u64) {
                Some(v) => v,
                None => return None,
            };
            let timestamp: u64 = match read_decimal(parts[3].as_str(), u64::MAX) {
                Some(t) => t,
                None => return None,
            };
            Some(StockQuote {
                ticker: parts[0].clone(),
                price: parts[1].clone(),
                volume: volume as u32,
                timestamp,
            })
        } else {
            None
        }
    }

    /// The record as bytes: the UTF-8 encoding of `to_string`.
    pub fn to_bytes(&self) -> (b: Vec<u8>)
        ensures
            b@ == encode_utf8(quote_text(self.ticker@, self.price@, self.volume as nat, self.timestamp as nat)),
    {
        let s = self.to_string();
        s.as_str().as_bytes_vec()
    }
}

/// The fields of a record: the ticker, the price, then the volume and the
/// timestamp, each as its canonical base-ten text (digits only, no sign, no
/// padding), when neither ticker nor price holds `|`.
pub proof fn lemma_record_fields(ticker: Seq<char>, price: Seq<char>, volume: u32, timestamp: u64)
    requires
        !ticker.contains('|'),
        !price.contains('|'),
    ensures
        split_on(quote_text(ticker, price, volume as nat, timestamp as nat), '|').len() == 4,
        split_on(quote_text(ticker, price, volume as nat, timestamp as nat), '|')[0] == ticker,
        split_on(quote_text(ticker, price, volume as nat, timestamp as nat), '|')[1] == price,
        canonical_decimal(split_on(quote_text(ticker, price, volume as nat, timestamp as nat), '|')[2], volume as nat),
        canonical_decimal(split_on(quote_text(ticker, price, volume as nat, timestamp as nat), '|')[3], timestamp as nat),
{
    let v = decimal(volume as nat);
    let t = decimal(timestamp as nat);
    lemma_decimal(volume as nat);
    lemma_decimal(timestamp as nat);
    lemma_decimal_canonical(volume as nat);
    lemma_decimal_canonical(timestamp as nat);
    assert(!v.contains('|')) by {
        if v.contains('|') {
            let k: int = choose|k: int| 0 <= k < v.len() && v[k] == '|';
            assert(is_digit(v[k]));
        }
    }
    assert(!t.contains('|')) by {
        if t.contains('|') {
            let k: int = choose|k: int| 0 <= k < t.len() && t[k] == '|';
            assert(is_digit(t[k]));
        }
    }
    let s = quote_text(ticker, price, volume as nat, timestamp as nat);
    let r2 = v + seq!['|'] + t;
    let r1 = price + seq!['|'] + r2;
    assert(s =~= ticker + seq!['|'] + r1);
    lemma_split_piece(ticker, '|', r1);
    lemma_split_piece(price, '|', r2);
    lemma_split_piece(v, '|', t);
    lemma_split_last(t, '|', seq![]);
    assert(seq![] + t == t);
    assert(split_on(s, '|') =~= seq![ticker, price, v, t]);
}

/// A record read back gives the quote that was written, as long as the
/// ticker does not hold the separator `|` and the price is a number.
pub proof fn lemma_quote_round_trip(ticker: Seq<char>, price: Seq<char>, volume: u32, timestamp: u64)
    requires
        !ticker.contains('|'),
        is_float_text(price),
    ensures
        parse_quote(quote_text(ticker, price, volume as nat, timestamp as nat))
            == Some((ticker, price, volume as nat, timestamp as nat)),
{
    lemma_float_text_lacks(price, '|');
    lemma_record_fields(ticker, price, volume, timestamp);
    let f = split_on(quote_text(ticker, price, volume as nat, timestamp as nat), '|');
    lemma_canonical_decimal_unique(f[2], volume as nat);
    lemma_canonical_decimal_unique(f[3], timestamp as nat);
    lemma_parse_decimal(volume as nat, u32::MAX as nat);
    lemma_parse_decimal(timestamp as nat, u64::MAX as nat);
}

/// Every record whose price is a plain decimal `d.f` (a nonempty digit run,
/// a point, a digit run) and whose ticker holds no `|` is read back whole.
pub proof fn lemma_decimal_price_read_back(
    ticker: Seq<char>,
    d: Seq<char>,
    f: Seq<char>,
    volume: u32,
    timestamp: u64,
)
    requires
        !ticker.contains('|'),
        d.len() > 0,
        ascii_digit_run(d),
        ascii_digit_run(f),
    ensures
        parse_quote(quote_text(ticker, d + seq!['.'] + f, volume as nat, timestamp as nat))
            == Some((ticker, d + seq!['.'] + f, volume as nat, timestamp as nat)),
{
    lemma_decimal_texts_are_floats(d, f);
    lemma_quote_round_trip(ticker, d + seq!['.'] + f, volume, timestamp);
}

} // verus!
