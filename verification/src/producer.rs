//! The server's producer: the ticker list (one ticker per line of a text
//! file) and the schedule by which quotes of those tickers are made.

use vstd::prelude::*;
use crate::text::{chars_of, string_of, views, word_if_any};

verus! {

/// A line without the carriage return that ends a CRLF line break.
pub open spec fn strip_cr(l: Seq<char>) -> Seq<char> {
    if l.len() > 0 && l.last() == '\r' { l.drop_last() } else { l }
}

/// The lines of `s`, where `cur` is the line already begun before `s`: each
/// line ends at `\n` (a `\r` right before it is dropped); a last line that
/// no `\n` ends is kept as it is, unless it is empty.
pub open spec fn lines_from(s: Seq<char>, cur: Seq<char>) -> Seq<Seq<char>>
    decreases s.len(),
{
    if s.len() == 0 {
        word_if_any(cur)
    } else if s[0] == '\n' {
        seq![strip_cr(cur)] + lines_from(s.drop_first(), seq![])
    } else {
        lines_from(s.drop_first(), cur.push(s[0]))
    }
}

/// What `BufRead::lines` yields for the text `s`.
pub open spec fn lines(s: Seq<char>) -> Seq<Seq<char>> {
    lines_from(s, seq![])
}

/// The tickers listed in the contents of the ticker file, one per line.
pub fn ticker_lines(content: &str) -> (r: Vec<String>)
    ensures
        views(r@) == lines(content@),
{
    let cs = chars_of(content);
    let mut r: Vec<String> = Vec::new();
    let mut cur: Vec<char> = Vec::new();
    let mut i: usize = 0;
    assert(content@.skip(0) == content@);
    assert(views(r@) + lines(content@) == lines(content@));
    while i < cs.len()
        invariant
            cs@ == content@,
            i <= cs.len(),
            views(r@) + lines_from(content@.skip(i as int), cur@) == lines(content@),
        decreases cs.len() - i,
    {
        let c = cs[i];
        let ghost rest = content@.skip(i as int);
        assert(rest.drop_first() == content@.skip(i + 1));
        if c == '\n' {
            let n: usize = cur.len();
            let end: usize = if n > 0 && cur[n - 1] == '\r' { n - 1 } else { n };
            let line = string_of(&cur, 0, end);
            assert(line@ == strip_cr(cur@));
            let ghost before = views(r@);
            r.push(line);
            assert(views(r@) == before + seq![strip_cr(cur@)]);
            cur = Vec::new();
        } else {
            cur.push(c);
        }
        i = i + 1;
    }
    assert(content@.skip(i as int).len() == 0);
    if cur.len() > 0 {
        let n: usize = cur.len();
        let line = string_of(&cur, 0, n);
        assert(line@ == cur@);
        let ghost before = views(r@);
        r.push(line);
        assert(views(r@) == before + word_if_any(cur@));
    } else {
        assert(views(r@) + word_if_any(cur@) == views(r@));
    }
    r
}

} // verus!

verus! {

/// How long the producer rests after a round over all tickers: one second,
/// in milliseconds.
pub const ROUND_PERIOD_MS: u64 = 1000;

/// The producer's schedule: a quote of every ticker in the file's order, then
/// a rest of `ROUND_PERIOD_MS`, round after round, until a quote cannot be sent.
pub struct Schedule {
    /// The number of tickers.
    pub n: usize,
    /// The ticker whose quote comes next (`n` when the round is over).
    pub next: usize,
}

/// What the producer does next.
pub enum ScheduleAction {
    /// Make and send a quote of the ticker at this index.
    Generate(usize),
    /// Rest for `ROUND_PERIOD_MS`.
    Sleep,
    /// End: the last quote could not be sent.
    Stop,
}

impl Schedule {
    /// The schedule over `n` tickers, at the start of a round.
    pub fn new(n: usize) -> (s: Schedule)
        ensures
            s.n == n,
            s.next == 0,
    {
        Schedule { n, next: 0 }
    }

    /// The next thing to do, told whether the last send succeeded (`true`
    /// when nothing was sent: at the start, after a rest, or when no quote
    /// could be made).
    pub fn step(&mut self, sent_ok: bool) -> (a: ScheduleAction)
        ensures
            final(self).n == old(self).n,
            !sent_ok ==> a == ScheduleAction::Stop && final(self).next == old(self).next,
            sent_ok && old(self).next < old(self).n ==> a == ScheduleAction::Generate(old(self).next)
                && final(self).next == old(self).next + 1,
            sent_ok && old(self).next >= old(self).n ==> a == ScheduleAction::Sleep && final(self).next
                == 0,
    {
        if !sent_ok {
            ScheduleAction::Stop
        } else if self.next < self.n {
            let i = self.next;
            self.next = self.next + 1;
            ScheduleAction::Generate(i)
        } else {
            self.next = 0;
            ScheduleAction::Sleep
        }
    }
}

} // verus!

verus! {

proof fn lemma_lines_plain(x: Seq<char>, cur: Seq<char>, rest: Seq<char>)
    requires
        !x.contains('\n'),
    ensures
        lines_from(x + rest, cur) == lines_from(rest, cur + x),
    decreases x.len(),
{
    if x.len() == 0 {
        assert(x + rest == rest);
        assert(cur + x == cur);
    } else {
        assert((x + rest)[0] == x[0]);
        assert((x + rest).drop_first() == x.drop_first() + rest);
        assert(!x.drop_first().contains('\n')) by {
            if x.drop_first().contains('\n') {
                let k: int = choose|k: int| 0 <= k < x.drop_first().len() && x.drop_first()[k] == '\n';
                assert(x[k + 1] == '\n');
            }
        }
        assert(x[0] != '\n') by {
            if x[0] == '\n' {
                assert(x.contains('\n'));
            }
        }
        lemma_lines_plain(x.drop_first(), cur.push(x[0]), rest);
        assert(cur.push(x[0]) + x.drop_first() == cur + x);
    }
}

/// A line ended by `\n` is one entry, and reading goes on after it; a `\r`
/// right before the `\n` is not part of the entry.
pub proof fn lemma_lines_first(x: Seq<char>, rest: Seq<char>)
    requires
        !x.contains('\n'),
    ensures
        x.len() == 0 || x.last() != '\r' ==> lines(x + seq!['\n'] + rest) == seq![x] + lines(rest),
        lines(x + seq!['\r', '\n'] + rest) == seq![x] + lines(rest),
{
    lemma_lines_plain(x, seq![], seq!['\n'] + rest);
    assert(x + seq!['\n'] + rest == x + (seq!['\n'] + rest));
    assert(seq![] + x == x);
    let t = seq!['\n'] + rest;
    assert(t[0] == '\n');
    assert(t.drop_first() == rest);
    let xr = x.push('\r');
    assert(!xr.contains('\n')) by {
        if xr.contains('\n') {
            let k: int = choose|k: int| 0 <= k < xr.len() && xr[k] == '\n';
            if k < x.len() {
                assert(x[k] == '\n');
            }
        }
    }
    lemma_lines_plain(xr, seq![], seq!['\n'] + rest);
    assert(x + seq!['\r', '\n'] + rest == xr + (seq!['\n'] + rest));
    assert(seq![] + xr == xr);
    assert(strip_cr(xr) == x) by {
        assert(xr.drop_last() == x);
    }
}

/// A last line that no `\n` ends is one entry as it is; no text has no entry.
pub proof fn lemma_lines_last(x: Seq<char>)
    requires
        !x.contains('\n'),
    ensures
        x.len() > 0 ==> lines(x) == seq![x],
        lines(seq![]) == Seq::<Seq<char>>::empty(),
{
    lemma_lines_plain(x, seq![], seq![]);
    assert(x + seq![] == x);
    assert(seq![] + x == x);
}

/// The tickers written one per line, each ended by `\n`.
pub open spec fn one_per_line(ts: Seq<Seq<char>>) -> Seq<char>
    decreases ts.len(),
{
    if ts.len() == 0 {
        seq![]
    } else {
        ts[0] + seq!['\n'] + one_per_line(ts.drop_first())
    }
}

/// A file that lists tickers one per line gives back exactly those tickers,
/// in order, however many there are (tickers hold no `\n` and do not end in `\r`).
pub proof fn lemma_ticker_file(ts: Seq<Seq<char>>)
    requires
        forall|i: int| 0 <= i < ts.len() ==> !(#[trigger] ts[i]).contains('\n') && (ts[i].len() == 0
            || ts[i].last() != '\r'),
    ensures
        lines(one_per_line(ts)) == ts,
    decreases ts.len(),
{
    if ts.len() == 0 {
        lemma_lines_last(seq![]);
    } else {
        let rest = ts.drop_first();
        assert(!ts[0].contains('\n'));
        assert forall|i: int| 0 <= i < rest.len() implies !(#[trigger] rest[i]).contains('\n') && (rest[i].len()
            == 0 || rest[i].last() != '\r') by {
            assert(rest[i] == ts[i + 1]);
        }
        lemma_ticker_file(rest);
        lemma_lines_first(ts[0], one_per_line(rest));
        assert(ts =~= seq![ts[0]] + rest);
    }
}

} // verus!
