//! Character-level helpers shared by the wire formats.

use vstd::prelude::*;

verus! {

/// Appends one character to a `String` (`String::push`).
///
/// Trusted: the contract claims that the new contents are the old contents
/// followed by `c`, as std documents for `String::push`.
#[verifier::external_body]
pub(crate) fn push_char(s: &mut String, c: char)
    ensures
        final(s)@ == old(s)@.push(c),
{
    s.push(c);
}

/// The characters of `s`, in order.
pub fn chars_of(s: &str) -> (v: Vec<char>)
    ensures
        v@ == s@,
{
    let mut v: Vec<char> = Vec::new();
    for c in it: s.chars()
        invariant
            v@ == it.seq().take(it.index() as int),
    {
        v.push(c);
    }
    v
}

} // verus!

verus! {

/// The strings' contents, as character sequences.
pub open spec fn views(v: Seq<String>) -> Seq<Seq<char>> {
    v.map_values(|s: String| s@)
}

/// The pieces of `s` between occurrences of `d`, where `cur` is the piece
/// already begun before `s`.
pub open spec fn split_from(s: Seq<char>, d: char, cur: Seq<char>) -> Seq<Seq<char>>
    decreases s.len(),
{
    if s.len() == 0 {
        seq![cur]
    } else if s[0] == d {
        seq![cur] + split_from(s.drop_first(), d, seq![])
    } else {
        split_from(s.drop_first(), d, cur.push(s[0]))
    }
}

/// What `str::split` with a one-character pattern yields: the pieces of `s`
/// between occurrences of `d`, empty pieces included; never empty.
pub open spec fn split_on(s: Seq<char>, d: char) -> Seq<Seq<char>> {
    split_from(s, d, seq![])
}

/// Splits `s` at every occurrence of `d`.
pub fn split_char(s: &str, d: char) -> (parts: Vec<String>)
    ensures
        views(parts@) == split_on(s@, d),
{
    let cs = chars_of(s);
    let mut parts: Vec<String> = Vec::new();
    let mut cur = String::new();
    let mut i: usize = 0;
    assert(s@.skip(0) == s@);
    assert(views(parts@) + split_on(s@, d) == split_on(s@, d));
    while i < cs.len()
        invariant
            cs@ == s@,
            i <= cs.len(),
            views(parts@) + split_from(s@.skip(i as int), d, cur@) == split_on(s@, d),
        decreases cs.len() - i,
    {
        let c = cs[i];
        let ghost rest = s@.skip(i as int);
        assert(rest.drop_first() == s@.skip(i + 1));
        if c == d {
            let ghost old_parts = views(parts@);
            parts.push(cur);
            assert(views(parts@) == old_parts.push(cur@));
            cur = String::new();
        } else {
            push_char(&mut cur, c);
        }
        i = i + 1;
    }
    assert(s@.skip(i as int).len() == 0);
    let ghost before = views(parts@);
    parts.push(cur);
    assert(views(parts@) == before.push(cur@));
    parts
}

} // verus!

verus! {

/// An ASCII decimal digit.
pub open spec fn is_digit(c: char) -> bool {
    48 <= (c as u32) && (c as u32) <= 57
}

/// The value of a decimal digit character.
pub open spec fn digit_value(c: char) -> nat {
    ((c as u32) - 48) as nat
}

/// The character of a decimal digit value below ten.
pub open spec fn digit_char(d: nat) -> char {
    (d + 48) as char
}

pub open spec fn all_digits(s: Seq<char>) -> bool {
    forall|i: int| 0 <= i < s.len() ==> is_digit(#[trigger] s[i])
}

/// The number that the digits `s` denote in base ten (leading zeros allowed).
pub open spec fn digits_value(s: Seq<char>) -> nat
    decreases s.len(),
{
    if s.len() == 0 {
        0
    } else {
        digits_value(s.drop_last()) * 10 + digit_value(s.last())
    }
}

/// The shortest decimal rendering of `n`, as `Display` prints an unsigned integer.
pub open spec fn decimal(n: nat) -> Seq<char>
    decreases n,
{
    if n < 10 {
        seq![digit_char(n)]
    } else {
        decimal(n / 10).push(digit_char(n % 10))
    }
}

/// What `FromStr` of an unsigned integer type whose largest value is `max`
/// accepts: an optional `+`, then one or more ASCII digits denoting at most `max`.
pub open spec fn parse_decimal(s: Seq<char>, max: nat) -> Option<nat> {
    let body = if s.len() > 0 && s[0] == '+' { s.drop_first() } else { s };
    if body.len() > 0 && all_digits(body) && digits_value(body) <= max {
        Some(digits_value(body))
    } else {
        None
    }
}

pub proof fn lemma_digit_char(d: nat)
    requires
        d < 10,
    ensures
        is_digit(digit_char(d)),
        digit_value(digit_char(d)) == d,
        digit_char(d) != '+',
{
}

/// The decimal rendering of `n` is a nonempty run of digits that denotes `n`.
pub proof fn lemma_decimal(n: nat)
    ensures
        decimal(n).len() > 0,
        all_digits(decimal(n)),
        digits_value(decimal(n)) == n,
        decimal(n)[0] != '+',
    decreases n,
{
    if n < 10 {
        lemma_digit_char(n);
        let s = decimal(n);
        assert(s.drop_last().len() == 0);
        assert(digits_value(s.drop_last()) == 0);
        assert(digits_value(s) == digit_value(s.last()));
    } else {
        lemma_decimal(n / 10);
        lemma_digit_char(n % 10);
        let s = decimal(n);
        assert(s.drop_last() == decimal(n / 10));
        assert(s.last() == digit_char(n % 10));
        assert(digits_value(s) == (n / 10) * 10 + n % 10);
        assert(s[0] == decimal(n / 10)[0]);
    }
}

/// A decimal rendering read back with `parse_decimal` gives the number again.
pub proof fn lemma_parse_decimal(n: nat, max: nat)
    requires
        n <= max,
    ensures
        parse_decimal(decimal(n), max) == Some(n),
{
    lemma_decimal(n);
}

/// Appends the decimal rendering of `n` to `s`.
pub fn push_decimal(s: &mut String, n: u64)
    ensures
        final(s)@ == old(s)@ + decimal(n as nat),
    decreases n,
{
    let d: u64 = n % 10;
    if n >= 10 {
        push_decimal(s, n / 10);
    }
    let c = ((d as u8) + 48u8) as char;
    assert(c == digit_char(d as nat));
    push_char(s, c);
}

} // verus!

verus! {

pub(crate) proof fn lemma_digits_value_prefix(s: Seq<char>, k: int)
    requires
        all_digits(s),
        0 <= k <= s.len(),
    ensures
        digits_value(s.take(k)) <= digits_value(s),
    decreases s.len(),
{
    if k < s.len() {
        let t = s.drop_last();
        assert(s.take(k) == t.take(k));
        assert(all_digits(t));
        lemma_digits_value_prefix(t, k);
    } else {
        assert(s.take(k) == s);
    }
}

proof fn lemma_step_bound(value: nat, d: nat, max: nat)
    requires
        d <= 9,
        d <= max,
    ensures
        value > (max - d) / 10 ==> value * 10 + d > max,
        value <= (max - d) / 10 ==> value * 10 + d <= max,
{
    assert(value > (max - d) / 10 ==> value * 10 + d > max) by (nonlinear_arith)
        requires d <= max;
    assert(value <= (max - d) / 10 ==> value * 10 + d <= max) by (nonlinear_arith)
        requires d <= max;
}

/// Reads an unsigned decimal number no larger than `max`, as `FromStr` of the
/// unsigned integer type whose largest value is `max` does.
pub fn read_decimal(s: &str, max: u64) -> (r: Option<u64>)
    ensures
        match r {
            Some(v) => parse_decimal(s@, max as nat) == Some(v as nat),
            None => parse_decimal(s@, max as nat) is None,
        },
{
    let cs = chars_of(s);
    let n: usize = cs.len();
    let start: usize = if n > 0 && cs[0] == '+' { 1 } else { 0 };
    let ghost body = if s@.len() > 0 && s@[0] == '+' { s@.drop_first() } else { s@ };
    assert(body == s@.skip(start as int));
    if start == n {
        return None;
    }
    let mut value: u64 = 0;
    let mut i: usize = start;
    assert(body.take(0).len() == 0);
    while i < n
        invariant
            cs@ == s@,
            n == cs.len(),
            start <= i <= n,
            start < n,
            body == s@.skip(start as int),
            body == (if s@.len() > 0 && s@[0] == '+' { s@.drop_first() } else { s@ }),
            all_digits(body.take(i - start)),
            value as nat == digits_value(body.take(i - start)),
            value <= max,
        decreases n - i,
    {
        let c = cs[i];
        let j: usize = i - start;
        assert(body[j as int] == c);
        if !((c as u32) >= 48 && (c as u32) <= 57) {
            assert(!all_digits(body));
            assert(parse_decimal(s@, max as nat) is None);
            return None;
        }
        let d: u64 = ((c as u32) - 48) as u64;
        proof {
            if d <= max {
                lemma_step_bound(value as nat, d as nat, max as nat);
            }
        }
        if d > max || value > (max - d) / 10 {
            proof {
                let t = body.take(j + 1);
                assert(t.drop_last() == body.take(j as int));
                assert(all_digits(body) ==> digits_value(t) <= digits_value(body)) by {
                    if all_digits(body) {
                        lemma_digits_value_prefix(body, j + 1);
                    }
                }
                assert(digits_value(t) > max);
                assert(parse_decimal(s@, max as nat) is None);
            }
            return None;
        }
        let ghost t = body.take(j + 1);
        assert(t.drop_last() == body.take(j as int));
        value = value * 10 + d;
        i = i + 1;
    }
    assert(body.take(n - start) == body);
    Some(value)
}

} // verus!

verus! {

/// A piece without the delimiter extends the current piece.
pub proof fn lemma_split_plain(x: Seq<char>, d: char, cur: Seq<char>, rest: Seq<char>)
    requires
        !x.contains(d),
    ensures
        split_from(x + rest, d, cur) == split_from(rest, d, cur + x),
    decreases x.len(),
{
    if x.len() == 0 {
        assert(x + rest == rest);
        assert(cur + x == cur);
    } else {
        assert((x + rest)[0] == x[0]);
        assert((x + rest).drop_first() == x.drop_first() + rest);
        assert(!x.drop_first().contains(d)) by {
            if x.drop_first().contains(d) {
                let k: int = choose|k: int| 0 <= k < x.drop_first().len() && x.drop_first()[k] == d;
                assert(x[k + 1] == d);
            }
        }
        assert(x[0] != d) by {
            if x[0] == d {
                assert(x.contains(d));
            }
        }
        lemma_split_plain(x.drop_first(), d, cur.push(x[0]), rest);
        assert(cur.push(x[0]) + x.drop_first() == cur + x);
    }
}

/// Splitting text that ends in a piece without the delimiter.
pub proof fn lemma_split_last(x: Seq<char>, d: char, cur: Seq<char>)
    requires
        !x.contains(d),
    ensures
        split_from(x, d, cur) == seq![cur + x],
{
    lemma_split_plain(x, d, cur, seq![]);
    assert(x + seq![] == x);
}

/// Splitting text that begins with a piece without the delimiter, then the delimiter.
pub proof fn lemma_split_piece(x: Seq<char>, d: char, rest: Seq<char>)
    requires
        !x.contains(d),
    ensures
        split_on(x + seq![d] + rest, d) == seq![x] + split_on(rest, d),
{
    lemma_split_plain(x, d, seq![], seq![d] + rest);
    assert(x + seq![d] + rest == x + (seq![d] + rest));
    assert(seq![] + x == x);
    let t = seq![d] + rest;
    assert(t[0] == d);
    assert(t.drop_first() == rest);
}

} // verus!

verus! {

/// The characters `lo..hi` of `cs`, as a `String`.
pub fn string_of(cs: &Vec<char>, lo: usize, hi: usize) -> (s: String)
    requires
        lo <= hi <= cs.len(),
    ensures
        s@ == cs@.subrange(lo as int, hi as int),
{
    let mut s = String::new();
    let mut i: usize = lo;
    while i < hi
        invariant
            lo <= i <= hi,
            hi <= cs.len(),
            s@ == cs@.subrange(lo as int, i as int),
        decreases hi - i,
    {
        push_char(&mut s, cs[i]);
        assert(cs@.subrange(lo as int, i + 1) == cs@.subrange(lo as int, i as int).push(cs@[i as int]));
        i = i + 1;
    }
    s
}

/// Whether two character sequences are equal.
pub fn chars_eq(a: &Vec<char>, b: &Vec<char>) -> (r: bool)
    ensures
        r == (a@ == b@),
{
    if a.len() != b.len() {
        return false;
    }
    let mut i: usize = 0;
    while i < a.len()
        invariant
            a.len() == b.len(),
            i <= a.len(),
            forall|j: int| 0 <= j < i ==> a@[j] == b@[j],
        decreases a.len() - i,
    {
        if a[i] != b[i] {
            return false;
        }
        i = i + 1;
    }
    assert(a@ =~= b@);
    true
}

/// Unicode `White_Space`, the characters that `char::is_whitespace` accepts.
pub open spec fn is_ws(c: char) -> bool {
    let u: u32 = c as u32;
    (0x09 <= u && u <= 0x0d) || u == 0x20 || u == 0x85 || u == 0xa0 || u == 0x1680
        || (0x2000 <= u && u <= 0x200a) || u == 0x2028 || u == 0x2029 || u == 0x202f
        || u == 0x205f || u == 0x3000
}

/// Whether `c` is Unicode white space.
pub fn is_whitespace(c: char) -> (r: bool)
    ensures
        r == is_ws(c),
{
    let u: u32 = c as u32;
    (0x09 <= u && u <= 0x0d) || u == 0x20 || u == 0x85 || u == 0xa0 || u == 0x1680
        || (0x2000 <= u && u <= 0x200a) || u == 0x2028 || u == 0x2029 || u == 0x202f
        || u == 0x205f || u == 0x3000
}

/// The word begun in `cur`, if any, as a sequence of at most one word.
pub open spec fn word_if_any(cur: Seq<char>) -> Seq<Seq<char>> {
    if cur.len() == 0 { seq![] } else { seq![cur] }
}

/// The maximal runs of non-white-space characters of `s`, where `cur` is the
/// run already begun before `s`.
pub open spec fn words_from(s: Seq<char>, cur: Seq<char>) -> Seq<Seq<char>>
    decreases s.len(),
{
    if s.len() == 0 {
        word_if_any(cur)
    } else if is_ws(s[0]) {
        word_if_any(cur) + words_from(s.drop_first(), seq![])
    } else {
        words_from(s.drop_first(), cur.push(s[0]))
    }
}

/// What `str::split_whitespace` yields.
pub open spec fn words(s: Seq<char>) -> Seq<Seq<char>> {
    words_from(s, seq![])
}

/// Splits `s` into its white-space separated words.
pub fn split_words(s: &str) -> (ws: Vec<String>)
    ensures
        views(ws@) == words(s@),
{
    let cs = chars_of(s);
    let mut ws: Vec<String> = Vec::new();
    let mut cur = String::new();
    let mut i: usize = 0;
    assert(s@.skip(0) == s@);
    assert(views(ws@) + words(s@) == words(s@));
    while i < cs.len()
        invariant
            cs@ == s@,
            i <= cs.len(),
            views(ws@) + words_from(s@.skip(i as int), cur@) == words(s@),
        decreases cs.len() - i,
    {
        let c = cs[i];
        let ghost rest = s@.skip(i as int);
        assert(rest.drop_first() == s@.skip(i + 1));
        if is_whitespace(c) {
            if !cur.as_str().is_empty() {
                let ghost old_ws = views(ws@);
                ws.push(cur);
                assert(views(ws@) == old_ws + word_if_any(cur@));
            } else {
                assert(cur@.len() == 0);
                assert(views(ws@) + word_if_any(cur@) == views(ws@));
            }
            cur = String::new();
        } else {
            push_char(&mut cur, c);
        }
        i = i + 1;
    }
    assert(s@.skip(i as int).len() == 0);
    if !cur.as_str().is_empty() {
        let ghost before = views(ws@);
        ws.push(cur);
        assert(views(ws@) == before + word_if_any(cur@));
    } else {
        assert(views(ws@) + word_if_any(cur@) == views(ws@));
    }
    ws
}

} // verus!

verus! {

/// `s` holds no white space.
pub open spec fn no_ws(s: Seq<char>) -> bool {
    forall|i: int| 0 <= i < s.len() ==> !is_ws(#[trigger] s[i])
}

/// A run without white space extends the current word.
pub proof fn lemma_words_plain(x: Seq<char>, cur: Seq<char>, rest: Seq<char>)
    requires
        no_ws(x),
    ensures
        words_from(x + rest, cur) == words_from(rest, cur + x),
    decreases x.len(),
{
    if x.len() == 0 {
        assert(x + rest == rest);
        assert(cur + x == cur);
    } else {
        assert((x + rest)[0] == x[0]);
        assert((x + rest).drop_first() == x.drop_first() + rest);
        assert(!is_ws(x[0]));
        assert(no_ws(x.drop_first())) by {
            assert forall|i: int| 0 <= i < x.drop_first().len() implies !is_ws(#[trigger] x.drop_first()[i]) by {
                assert(x.drop_first()[i] == x[i + 1]);
            }
        }
        lemma_words_plain(x.drop_first(), cur.push(x[0]), rest);
        assert(cur.push(x[0]) + x.drop_first() == cur + x);
    }
}

/// The words of a nonempty run without white space, a white-space character, and the rest.
pub proof fn lemma_words_sep(x: Seq<char>, c: char, rest: Seq<char>)
    requires
        no_ws(x),
        x.len() > 0,
        is_ws(c),
    ensures
        words(x + seq![c] + rest) == seq![x] + words(rest),
{
    lemma_words_plain(x, seq![], seq![c] + rest);
    assert(x + seq![c] + rest == x + (seq![c] + rest));
    assert(seq![] + x == x);
    let t = seq![c] + rest;
    assert(t[0] == c);
    assert(t.drop_first() == rest);
}

/// The words of a run without white space: itself, unless it is empty.
pub proof fn lemma_words_last(x: Seq<char>)
    requires
        no_ws(x),
    ensures
        words(x) == word_if_any(x),
{
    lemma_words_plain(x, seq![], seq![]);
    assert(x + seq![] == x);
    assert(seq![] + x == x);
}

} // verus!

verus! {

/// `d` is the canonical base-ten text of `n`: a nonempty run of ASCII digits
/// `0`..`9`, without a leading zero unless it is the single digit `0`,
/// denoting `n`.
pub open spec fn canonical_decimal(d: Seq<char>, n: nat) -> bool {
    &&& d.len() > 0
    &&& forall|i: int| 0 <= i < d.len() ==> 48 <= (#[trigger] d[i] as u32) && (d[i] as u32) <= 57
    &&& d.len() > 1 ==> d[0] != '0'
    &&& digits_value(d) == n
}

proof fn lemma_decimal_lead(n: nat)
    ensures
        n >= 1 ==> decimal(n)[0] != '0',
        decimal(n).len() > 1 <==> n >= 10,
    decreases n,
{
    if n >= 10 {
        lemma_decimal_lead(n / 10);
        lemma_decimal(n / 10);
        assert(decimal(n)[0] == decimal(n / 10)[0]);
    }
}

/// The rendering of every number is its canonical base-ten text: only digits,
/// no sign, no padding.
pub proof fn lemma_decimal_canonical(n: nat)
    ensures
        canonical_decimal(decimal(n), n),
{
    lemma_decimal(n);
    lemma_decimal_lead(n);
    let d = decimal(n);
    assert forall|i: int| 0 <= i < d.len() implies 48 <= (#[trigger] d[i] as u32) && (d[i] as u32) <= 57 by {
        assert(is_digit(d[i]));
    }
}

/// A number has one canonical base-ten text, and it is the rendering of the number.
pub proof fn lemma_canonical_decimal_unique(d: Seq<char>, n: nat)
    requires
        canonical_decimal(d, n),
    ensures
        d == decimal(n),
    decreases d.len(),
{
    let c = d.last();
    assert(48 <= (d[d.len() - 1] as u32) <= 57);
    assert(digit_value(c) < 10);
    if d.len() == 1 {
        assert(d.drop_last().len() == 0);
        assert(digits_value(d.drop_last()) == 0);
        assert(n == digit_value(c));
        vstd::utf8::char_u32_cast(c, c as u32);
        assert(n + 48 == c as u32);
        assert(c == digit_char(n));
        assert(d =~= seq![c]);
    } else {
        let p = d.drop_last();
        let m = digits_value(p);
        assert(n == m * 10 + digit_value(c));
        assert(m == n / 10 && digit_value(c) == n % 10);
        assert(p[0] == d[0]);
        assert(all_digits(p)) by {
            assert forall|i: int| 0 <= i < p.len() implies is_digit(#[trigger] p[i]) by {
                assert(p[i] == d[i]);
            }
        }
        lemma_digits_value_prefix(p, 1);
        assert(p.take(1).drop_last().len() == 0);
        assert(digits_value(p.take(1).drop_last()) == 0);
        assert(p.take(1).last() == p[0]);
        assert(digits_value(p.take(1)) == digit_value(p[0]));
        assert(48 <= (d[0] as u32) <= 57);
        assert((p[0] as u32) != 48) by {
            if (p[0] as u32) == 48 {
                vstd::utf8::char_u32_cast(p[0], p[0] as u32);
                vstd::utf8::char_u32_cast('0', '0' as u32);
                assert(('0' as u32) == 48);
            }
        }
        assert(digit_value(p[0]) >= 1);
        assert(m >= 1);
        assert(n >= 10);
        assert(canonical_decimal(p, m)) by {
            assert forall|i: int| 0 <= i < p.len() implies 48 <= (#[trigger] p[i] as u32) && (p[i] as u32) <= 57 by {
                assert(p[i] == d[i]);
            }
        }
        lemma_canonical_decimal_unique(p, m);
        vstd::utf8::char_u32_cast(c, c as u32);
        assert(n % 10 + 48 == c as u32);
        assert(c == digit_char(n % 10));
        assert(d =~= p.push(c));
    }
}

} // verus!
