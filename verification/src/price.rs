//! The text of a price: what `f64::from_str` accepts.
//!
//! std documents the grammar, read after ASCII lowercasing:
//! `Float ::= Sign? ( 'inf' | 'infinity' | 'nan' | Number )`,
//! `Number ::= ( Digit+ | Digit+ '.' Digit* | Digit* '.' Digit+ ) Exp?`,
//! `Exp ::= 'e' Sign? Digit+`, `Sign ::= [+-]`, `Digit ::= [0-9]`.
//! Every text of that form parses (a too large value gives an infinity),
//! every other text is refused.

use vstd::prelude::*;
use crate::text::{all_digits, chars_eq, chars_of, is_digit};

verus! {

/// A character in ASCII lower case.
pub open spec fn ascii_lower(c: char) -> char {
    if 65 <= (c as u32) && (c as u32) <= 90 { ((c as u32) + 32) as char } else { c }
}

pub open spec fn lower(s: Seq<char>) -> Seq<char> {
    s.map_values(|c: char| ascii_lower(c))
}

pub open spec fn is_sign(c: char) -> bool {
    c == '+' || c == '-'
}

/// `s` without a leading sign.
pub open spec fn unsigned(s: Seq<char>) -> Seq<char> {
    if s.len() > 0 && is_sign(s[0]) { s.drop_first() } else { s }
}

/// `inf`, `infinity` or `nan`, in any case.
pub open spec fn is_special(b: Seq<char>) -> bool {
    let l = lower(b);
    l == seq!['i', 'n', 'f'] || l == seq!['i', 'n', 'f', 'i', 'n', 'i', 't', 'y'] || l == seq!['n', 'a', 'n']
}

/// The number of `.` in `m`.
pub open spec fn count_dots(m: Seq<char>) -> nat
    decreases m.len(),
{
    if m.len() == 0 {
        0
    } else {
        count_dots(m.drop_last()) + if m.last() == '.' { 1nat } else { 0nat }
    }
}

/// Digits with at most one `.`, and at least one digit.
pub open spec fn mantissa_ok(m: Seq<char>) -> bool {
    &&& forall|i: int| 0 <= i < m.len() ==> is_digit(#[trigger] m[i]) || m[i] == '.'
    &&& count_dots(m) <= 1
    &&& exists|i: int| 0 <= i < m.len() && is_digit(#[trigger] m[i])
}

/// An optional sign and one or more digits.
pub open spec fn exponent_ok(x: Seq<char>) -> bool {
    let d = unsigned(x);
    d.len() > 0 && all_digits(d)
}

pub open spec fn is_exp_mark(c: char) -> bool {
    c == 'e' || c == 'E'
}

/// The first `e` or `E` of `s` at or after `i`.
pub open spec fn first_exp_from(s: Seq<char>, i: nat) -> Option<nat>
    decreases s.len() - i,
{
    if i >= s.len() {
        None
    } else if is_exp_mark(s[i as int]) {
        Some(i)
    } else {
        first_exp_from(s, i + 1)
    }
}

/// A mantissa, then optionally an exponent.
pub open spec fn is_number(b: Seq<char>) -> bool {
    match first_exp_from(b, 0) {
        None => mantissa_ok(b),
        Some(i) => mantissa_ok(b.take(i as int)) && exponent_ok(b.skip(i + 1int)),
    }
}

/// Text that `f64::from_str` accepts.
pub open spec fn is_float_text(s: Seq<char>) -> bool {
    let b = unsigned(s);
    is_special(b) || is_number(b)
}

fn sub_vec(cs: &Vec<char>, lo: usize, hi: usize) -> (r: Vec<char>)
    requires
        lo <= hi <= cs.len(),
    ensures
        r@ == cs@.subrange(lo as int, hi as int),
{
    let mut r: Vec<char> = Vec::new();
    let mut i: usize = lo;
    while i < hi
        invariant
            lo <= i <= hi,
            hi <= cs.len(),
            r@ == cs@.subrange(lo as int, i as int),
        decreases hi - i,
    {
        r.push(cs[i]);
        assert(cs@.subrange(lo as int, i + 1) == cs@.subrange(lo as int, i as int).push(cs@[i as int]));
        i = i + 1;
    }
    r
}

fn lower_vec(cs: &Vec<char>) -> (r: Vec<char>)
    ensures
        r@ == lower(cs@),
{
    let mut r: Vec<char> = Vec::new();
    let mut i: usize = 0;
    while i < cs.len()
        invariant
            i <= cs.len(),
            r@ == lower(cs@).take(i as int),
        decreases cs.len() - i,
    {
        let c = cs[i];
        let u: u32 = c as u32;
        let l = if 65 <= u && u <= 90 { ((u + 32) as u8) as char } else { c };
        assert(l == ascii_lower(c));
        r.push(l);
        assert(lower(cs@).take(i + 1) == lower(cs@).take(i as int).push(lower(cs@)[i as int]));
        i = i + 1;
    }
    assert(lower(cs@).take(i as int) == lower(cs@));
    r
}

fn special(b: &Vec<char>) -> (r: bool)
    ensures
        r == is_special(b@),
{
    let l = lower_vec(b);
    let inf: Vec<char> = vec!['i', 'n', 'f'];
    let infinity: Vec<char> = vec!['i', 'n', 'f', 'i', 'n', 'i', 't', 'y'];
    let nan: Vec<char> = vec!['n', 'a', 'n'];
    assert(inf@ == seq!['i', 'n', 'f']);
    assert(infinity@ == seq!['i', 'n', 'f', 'i', 'n', 'i', 't', 'y']);
    assert(nan@ == seq!['n', 'a', 'n']);
    chars_eq(&l, &inf) || chars_eq(&l, &infinity) || chars_eq(&l, &nan)
}

fn mantissa_valid(m: &Vec<char>) -> (r: bool)
    ensures
        r == mantissa_ok(m@),
{
    let mut dots: usize = 0;
    let mut seen_digit = false;
    let mut i: usize = 0;
    assert(m@.take(0).len() == 0);
    while i < m.len()
        invariant
            i <= m.len(),
            dots <= i,
            dots as nat == count_dots(m@.take(i as int)),
            forall|j: int| 0 <= j < i ==> is_digit(#[trigger] m@[j]) || m@[j] == '.',
            seen_digit == exists|j: int| 0 <= j < i && is_digit(#[trigger] m@[j]),
        decreases m.len() - i,
    {
        let c = m[i];
        let u: u32 = c as u32;
        let digit = 48 <= u && u <= 57;
        if !digit && c != '.' {
            assert(!(is_digit(m@[i as int]) || m@[i as int] == '.'));
            return false;
        }
        let ghost t = m@.take(i + 1);
        assert(t.drop_last() == m@.take(i as int));
        assert(t.last() == c);
        if c == '.' {
            dots = dots + 1;
        }
        if digit {
            seen_digit = true;
        }
        i = i + 1;
    }
    assert(m@.take(i as int) == m@);
    dots <= 1 && seen_digit
}

fn exponent_valid(x: &Vec<char>) -> (r: bool)
    ensures
        r == exponent_ok(x@),
{
    let start: usize = if x.len() > 0 && (x[0] == '+' || x[0] == '-') { 1 } else { 0 };
    let d = sub_vec(x, start, x.len());
    assert(d@ == unsigned(x@));
    if d.len() == 0 {
        return false;
    }
    let mut i: usize = 0;
    while i < d.len()
        invariant
            i <= d.len(),
            d@ == unsigned(x@),
            forall|j: int| 0 <= j < i ==> is_digit(#[trigger] d@[j]),
        decreases d.len() - i,
    {
        let u: u32 = d[i] as u32;
        if !(48 <= u && u <= 57) {
            assert(!is_digit(d@[i as int]));
            return false;
        }
        i = i + 1;
    }
    true
}

fn find_exp(b: &Vec<char>) -> (r: Option<usize>)
    ensures
        match r {
            Some(i) => first_exp_from(b@, 0) == Some(i as nat) && i < b.len(),
            None => first_exp_from(b@, 0) is None,
        },
{
    let mut i: usize = 0;
    while i < b.len()
        invariant
            i <= b.len(),
            first_exp_from(b@, 0) == first_exp_from(b@, i as nat),
        decreases b.len() - i,
    {
        if b[i] == 'e' || b[i] == 'E' {
            return Some(i);
        }
        i = i + 1;
    }
    None
}

/// Whether `s` is text that `f64::from_str` accepts.
pub fn is_float(s: &str) -> (r: bool)
    ensures
        r == is_float_text(s@),
{
    let cs = chars_of(s);
    let start: usize = if cs.len() > 0 && (cs[0] == '+' || cs[0] == '-') { 1 } else { 0 };
    let b = sub_vec(&cs, start, cs.len());
    assert(b@ == unsigned(s@));
    if special(&b) {
        return true;
    }
    match find_exp(&b) {
        None => mantissa_valid(&b),
        Some(i) => {
            let m = sub_vec(&b, 0, i);
            let x = sub_vec(&b, i + 1, b.len());
            assert(m@ == b@.take(i as int));
            assert(x@ == b@.skip(i + 1));
            mantissa_valid(&m) && exponent_valid(&x)
        },
    }
}

} // verus!

verus! {

proof fn lemma_first_exp_mark(s: Seq<char>, i: nat)
    ensures
        first_exp_from(s, i) matches Some(j) ==> j < s.len() && is_exp_mark(s[j as int]),
    decreases s.len() - i,
{
    if i < s.len() && !is_exp_mark(s[i as int]) {
        lemma_first_exp_mark(s, i + 1);
    }
}

/// Every character of a float text is a sign, a digit, `.`, `e`, `E` or a letter of
/// `inf`, `infinity` or `nan`; in particular none is `c`, for any other `c`.
pub proof fn lemma_float_text_lacks(s: Seq<char>, c: char)
    requires
        is_float_text(s),
        !is_sign(c),
        !is_digit(c),
        c != '.',
        !is_exp_mark(c),
        (c as u32) < 65 || (c as u32) > 122 || (91 <= (c as u32) && (c as u32) <= 96),
    ensures
        !s.contains(c),
{
    if s.contains(c) {
        let k: int = choose|k: int| 0 <= k < s.len() && s[k] == c;
        let b = unsigned(s);
        let off: int = if s.len() > 0 && is_sign(s[0]) { 1 } else { 0 };
        assert(k >= off);
        let kb = k - off;
        assert(b[kb] == c);
        if is_special(b) {
            let l = lower(b);
            assert(l[kb] == ascii_lower(c));
            assert(ascii_lower(c) == c);
            let inf = seq!['i', 'n', 'f'];
            let infinity = seq!['i', 'n', 'f', 'i', 'n', 'i', 't', 'y'];
            let nan = seq!['n', 'a', 'n'];
            assert(forall|j: int| 0 <= j < inf.len() ==> 97 <= (#[trigger] inf[j] as u32) <= 122);
            assert(forall|j: int| 0 <= j < infinity.len() ==> 97 <= (#[trigger] infinity[j] as u32) <= 122);
            assert(forall|j: int| 0 <= j < nan.len() ==> 97 <= (#[trigger] nan[j] as u32) <= 122);
            assert(97 <= (l[kb] as u32) <= 122);
            assert(false);
        } else {
            lemma_first_exp_mark(b, 0);
            match first_exp_from(b, 0) {
                None => {
                    assert(is_digit(b[kb]) || b[kb] == '.');
                    assert(false);
                },
                Some(i) => {
                    if kb < i {
                        assert(b.take(i as int)[kb] == c);
                        assert(false);
                    } else if kb == i {
                        assert(is_exp_mark(b[kb]));
                        assert(false);
                    } else {
                        let x = b.skip(i + 1int);
                        let xi = kb - i - 1;
                        assert(x[xi] == c);
                        let xoff: int = if x.len() > 0 && is_sign(x[0]) { 1 } else { 0 };
                        assert(xi >= xoff);
                        assert(unsigned(x)[xi - xoff] == c);
                        assert(false);
                    }
                },
            }
        }
    }
}

} // verus!

verus! {

/// Every character of `s` is an ASCII digit `0`..`9`.
pub open spec fn ascii_digit_run(s: Seq<char>) -> bool {
    forall|i: int| 0 <= i < s.len() ==> 48 <= (#[trigger] s[i] as u32) && (s[i] as u32) <= 57
}

proof fn lemma_count_dots_concat(a: Seq<char>, b: Seq<char>)
    ensures
        count_dots(a + b) == count_dots(a) + count_dots(b),
    decreases b.len(),
{
    if b.len() == 0 {
        assert(a + b == a);
    } else {
        lemma_count_dots_concat(a, b.drop_last());
        assert((a + b).drop_last() == a + b.drop_last());
        assert((a + b).last() == b.last());
    }
}

proof fn lemma_count_dots_digits(d: Seq<char>)
    requires
        ascii_digit_run(d),
    ensures
        count_dots(d) == 0,
    decreases d.len(),
{
    if d.len() > 0 {
        assert(ascii_digit_run(d.drop_last()));
        lemma_count_dots_digits(d.drop_last());
        assert(48 <= (d[d.len() - 1] as u32));
    }
}

proof fn lemma_no_exp_mark(s: Seq<char>, i: nat)
    requires
        forall|j: int| i <= j < s.len() ==> !is_exp_mark(#[trigger] s[j]),
    ensures
        first_exp_from(s, i) is None,
    decreases s.len() - i,
{
    if i < s.len() {
        lemma_no_exp_mark(s, i + 1);
    }
}

proof fn lemma_exp_mark_at(s: Seq<char>, i: nat, k: nat)
    requires
        i <= k < s.len(),
        is_exp_mark(s[k as int]),
        forall|j: int| i <= j < k ==> !is_exp_mark(#[trigger] s[j]),
    ensures
        first_exp_from(s, i) == Some(k),
    decreases k - i,
{
    if i < k {
        lemma_exp_mark_at(s, i + 1, k);
    }
}

/// The mantissa `d`, `d.f` or `.d`, for digit runs `d` (nonempty) and `f`.
proof fn lemma_mantissas(d: Seq<char>, f: Seq<char>)
    requires
        d.len() > 0,
        ascii_digit_run(d),
        ascii_digit_run(f),
    ensures
        mantissa_ok(d),
        mantissa_ok(d + seq!['.'] + f),
        mantissa_ok(seq!['.'] + d),
{
    lemma_count_dots_digits(d);
    lemma_count_dots_digits(f);
    assert(is_digit(d[0]));
    let m = d + seq!['.'] + f;
    lemma_count_dots_concat(d + seq!['.'], f);
    lemma_count_dots_concat(d, seq!['.']);
    assert(count_dots(seq!['.']) == 1) by {
        let one = seq!['.'];
        assert(one.drop_last().len() == 0);
        assert(count_dots(one.drop_last()) == 0);
        assert(one.last() == '.');
    }
    assert(m[0] == d[0]);
    assert forall|i: int| 0 <= i < m.len() implies is_digit(#[trigger] m[i]) || m[i] == '.' by {
        if i < d.len() {
            assert(m[i] == d[i]);
        } else if i > d.len() {
            assert(m[i] == f[i - d.len() - 1]);
        }
    }
    let n = seq!['.'] + d;
    lemma_count_dots_concat(seq!['.'], d);
    assert(n[1] == d[0]);
    assert forall|i: int| 0 <= i < n.len() implies is_digit(#[trigger] n[i]) || n[i] == '.' by {
        if i > 0 {
            assert(n[i] == d[i - 1]);
        }
    }
}

proof fn lemma_plain_number(m: Seq<char>)
    requires
        mantissa_ok(m),
    ensures
        is_number(m),
{
    assert forall|j: int| 0 <= j < m.len() implies !is_exp_mark(#[trigger] m[j]) by {
        assert(is_digit(m[j]) || m[j] == '.');
    }
    lemma_no_exp_mark(m, 0);
}

/// Decimal texts are prices: for a nonempty digit run `d` and a digit run
/// `f`, the texts `d`, `d.f`, `.d`, each with or without a leading `+` or
/// `-`, and `d.f` followed by an exponent `e-d`, `E+d` or `ed`, are all
/// floating-point numbers.
pub proof fn lemma_decimal_texts_are_floats(d: Seq<char>, f: Seq<char>)
    requires
        d.len() > 0,
        ascii_digit_run(d),
        ascii_digit_run(f),
    ensures
        is_float_text(d),
        is_float_text(d + seq!['.'] + f),
        is_float_text(seq!['.'] + d),
        is_float_text(seq!['-'] + d + seq!['.'] + f),
        is_float_text(seq!['+'] + d + seq!['.'] + f),
        is_float_text(d + seq!['.'] + f + seq!['e', '-'] + d),
        is_float_text(d + seq!['.'] + f + seq!['E', '+'] + d),
        is_float_text(d + seq!['.'] + f + seq!['e'] + d),
{
    lemma_mantissas(d, f);
    assert(is_digit(d[0]));
    let m = d + seq!['.'] + f;
    assert(m[0] == d[0]);
    lemma_plain_number(d);
    lemma_plain_number(m);
    lemma_plain_number(seq!['.'] + d);
    assert(unsigned(d) == d);
    assert(unsigned(m) == m);
    assert(unsigned(seq!['.'] + d) == seq!['.'] + d);
    assert(unsigned(seq!['-'] + d + seq!['.'] + f) == m);
    assert(unsigned(seq!['+'] + d + seq!['.'] + f) == m);
    assert(all_digits(d));
    assert forall|j: int| 0 <= j < m.len() implies !is_exp_mark(#[trigger] m[j]) by {
        assert(is_digit(m[j]) || m[j] == '.');
    }
    let ex: Seq<Seq<char>> = seq![seq!['e', '-'], seq!['E', '+'], seq!['e']];
    assert forall|k: int| 0 <= k < 3 implies is_float_text(#[trigger] (m + ex[k] + d)) by {
        let b = m + ex[k] + d;
        assert(b[0] == m[0]);
        assert(unsigned(b) == b);
        assert(b[m.len() as int] == ex[k][0]);
        lemma_exp_mark_at(b, 0, m.len());
        assert(b.take(m.len() as int) == m);
        let x = b.skip(m.len() + 1int);
        if k == 2 {
            assert(x == d);
            assert(unsigned(x) == d);
        } else {
            assert(x == seq![ex[k][1]] + d);
            assert(unsigned(x) == d);
        }
    }
    assert(m + ex[0] + d == d + seq!['.'] + f + seq!['e', '-'] + d);
    assert(m + ex[1] + d == d + seq!['.'] + f + seq!['E', '+'] + d);
    assert(m + ex[2] + d == d + seq!['.'] + f + seq!['e'] + d);
}

/// `inf`, `infinity` and `nan` are prices in any letter case and with any sign;
/// the empty text, a lone `.` and a lone sign are not.
pub proof fn lemma_special_and_refused_texts()
    ensures
        is_float_text(seq!['i', 'n', 'f']),
        is_float_text(seq!['-', 'i', 'n', 'f']),
        is_float_text(seq!['I', 'n', 'f', 'i', 'n', 'i', 't', 'y']),
        is_float_text(seq!['N', 'a', 'N']),
        is_float_text(seq!['+', 'n', 'a', 'n']),
        !is_float_text(seq![]),
        !is_float_text(seq!['.']),
        !is_float_text(seq!['-']),
{
    assert(lower(seq!['i', 'n', 'f']) =~= seq!['i', 'n', 'f']);
    assert(unsigned(seq!['-', 'i', 'n', 'f']) =~= seq!['i', 'n', 'f']);
    assert(lower(seq!['I', 'n', 'f', 'i', 'n', 'i', 't', 'y']) =~= seq!['i', 'n', 'f', 'i', 'n', 'i', 't', 'y']);
    assert(lower(seq!['N', 'a', 'N']) =~= seq!['n', 'a', 'n']);
    assert(unsigned(seq!['+', 'n', 'a', 'n']) =~= seq!['n', 'a', 'n']);
    assert(lower(seq!['n', 'a', 'n']) =~= seq!['n', 'a', 'n']);
    let e: Seq<char> = seq![];
    assert(unsigned(e) == e);
    assert(lower(e).len() == 0);
    lemma_no_exp_mark(e, 0);
    let dot = seq!['.'];
    assert(unsigned(dot) == dot);
    assert(lower(dot) =~= seq!['.']);
    assert(!is_exp_mark(dot[0]));
    lemma_no_exp_mark(dot, 0);
    assert(!is_digit(dot[0]));
    let minus = seq!['-'];
    assert(unsigned(minus) =~= e);
}

} // verus!
