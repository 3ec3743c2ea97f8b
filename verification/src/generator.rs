//! The decisions of the quote generator that involve no price arithmetic:
//! which tickers are popular and how large their traded volumes are.

use vstd::prelude::*;
use crate::text::{chars_eq, chars_of};

verus! {

/// The tickers that trade in larger volumes: `AAPL`, `MSFT` and `TSLA`.
pub open spec fn popular(ticker: Seq<char>) -> bool {
    ticker == seq!['A', 'A', 'P', 'L'] || ticker == seq!['M', 'S', 'F', 'T']
        || ticker == seq!['T', 'S', 'L', 'A']
}

/// Whether `ticker` is one of the popular tickers.
pub fn is_popular(ticker: &str) -> (r: bool)
    ensures
        r == popular(ticker@),
{
    let cs = chars_of(ticker);
    let a: Vec<char> = vec!['A', 'A', 'P', 'L'];
    let m: Vec<char> = vec!['M', 'S', 'F', 'T'];
    let t: Vec<char> = vec!['T', 'S', 'L', 'A'];
    assert(a@ == seq!['A', 'A', 'P', 'L']);
    assert(m@ == seq!['M', 'S', 'F', 'T']);
    assert(t@ == seq!['T', 'S', 'L', 'A']);
    chars_eq(&cs, &a) || chars_eq(&cs, &m) || chars_eq(&cs, &t)
}

/// The volumes a quote may carry: from `base` up to but excluding `base + span`.
pub struct VolumeRange {
    pub base: u32,
    pub span: u32,
}

/// Popular tickers trade 1000 to 5999 shares, the others 100 to 1099.
pub fn volume_range(ticker: &str) -> (r: VolumeRange)
    ensures
        popular(ticker@) ==> r.base == 1000 && r.span == 5000,
        !popular(ticker@) ==> r.base == 100 && r.span == 1000,
{
    if is_popular(ticker) {
        VolumeRange { base: 1000, span: 5000 }
    } else {
        VolumeRange { base: 100, span: 1000 }
    }
}

impl VolumeRange {
    /// The volume `draw` steps above the base, for a random `draw` below the span.
    pub fn volume(&self, draw: u32) -> (v: u32)
        requires
            draw < self.span,
            self.base + self.span <= u32::MAX,
        ensures
            v == self.base + draw,
            self.base <= v < self.base + self.span,
    {
        self.base + draw
    }
}

} // verus!

verus! {

/// Exactly three tickers are popular, `AAPL`, `MSFT` and `TSLA`; every other
/// ticker (so every ticker but these three gets volumes of 100 to 1099) is not.
pub proof fn lemma_popular_exactly(t: Seq<char>)
    ensures
        popular(seq!['A', 'A', 'P', 'L']),
        popular(seq!['M', 'S', 'F', 'T']),
        popular(seq!['T', 'S', 'L', 'A']),
        t != seq!['A', 'A', 'P', 'L'] && t != seq!['M', 'S', 'F', 'T'] && t != seq!['T', 'S', 'L', 'A']
            ==> !popular(t),
        popular(t) ==> t.len() == 4,
{
}

} // verus!
