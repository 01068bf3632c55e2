//! Reading numbers out of decimal text.

use crate::readout::{all_digits, digit_of, is_digit, value};
use crate::units::least;
use vstd::prelude::*;

verus! {

/// The characters of a string.
pub fn chars_of(s: &str) -> (r: Vec<char>)
    ensures
        r@ == s@,
{
    let mut r: Vec<char> = Vec::new();
    for c in it: s.chars()
        invariant
            r@ == s@.take(it.index() as int),
            it.seq() == s@,
    {
        assert(s@.take(it.index() as int + 1) =~= s@.take(it.index() as int).push(c));
        r.push(c);
    }
    assert(s@.take(s@.len() as int) =~= s@);
    r
}

/// The first place from `from` on where `a` or `b` stands, or the end.
pub open spec fn first_of(s: Seq<char>, from: int, a: char, b: char) -> int
    decreases s.len() - from,
{
    if from >= s.len() {
        s.len() as int
    } else if s[from] == a || s[from] == b {
        from
    } else {
        first_of(s, from + 1, a, b)
    }
}

/// An unsigned 64-bit number as text: digits, with an optional plus sign.
pub open spec fn whole_number(s: Seq<char>) -> Option<int> {
    let body = if s.len() > 0 && s[0] == '+' { s.skip(1) } else { s };
    if body.len() > 0 && all_digits(body) && value(body) <= u64::MAX {
        Some(value(body))
    } else {
        None
    }
}

/// The largest magnitude that `decimal_units` yields.
pub const UNITS_CAP: i64 = 0x4000_0000_0000_0000;

/// The largest exponent that makes a difference.
pub const EXPONENT_CAP: i64 = 10_000;

/// The first `n` digits of `ds`, continued with zeros.
pub open spec fn leading(ds: Seq<char>, n: int) -> Seq<char> {
    Seq::new(if n < 0 { 0 } else { n as nat }, |i: int| if i < ds.len() { ds[i] } else { '0' })
}

/// The digits `ds`, with the decimal point after the first `point` of them,
/// in billionths, rounded to the nearest, halves up.
pub open spec fn units_of_digits(ds: Seq<char>, point: int) -> int {
    let cut = point + 9;
    let up: int = if 0 <= cut < ds.len() && digit_of(ds[cut]) >= 5 { 1 } else { 0 };
    least(value(leading(ds, cut)) + up, UNITS_CAP as int)
}

/// A sign and what follows it.
pub open spec fn unsigned_part(s: Seq<char>) -> Seq<char> {
    if s.len() > 0 && (s[0] == '+' || s[0] == '-') { s.skip(1) } else { s }
}

pub open spec fn is_negative(s: Seq<char>) -> bool {
    s.len() > 0 && s[0] == '-'
}

/// The exponent that stands after the `e` at `at`; 0 where there is none.
pub open spec fn exponent(b: Seq<char>, at: int) -> Option<int> {
    if at >= b.len() {
        Some(0)
    } else {
        let e = b.skip(at + 1);
        let ds = unsigned_part(e);
        if ds.len() == 0 || !all_digits(ds) {
            None
        } else {
            let v = least(value(ds), EXPONENT_CAP as int);
            Some(if is_negative(e) { -v } else { v })
        }
    }
}

/// An unsigned decimal number (`12`, `12.5`, `.5`, `12.`, `1.25e1`) in
/// billionths, held to `UNITS_CAP`.
pub open spec fn unsigned_units(b: Seq<char>) -> Option<int> {
    let at = first_of(b, 0, 'e', 'E');
    let mantissa = b.take(at);
    let dot = first_of(mantissa, 0, '.', '.');
    let whole = mantissa.take(dot);
    let part = if dot < mantissa.len() { mantissa.skip(dot + 1) } else { Seq::empty() };
    let ds = whole + part;
    if ds.len() == 0 || !all_digits(ds) {
        None
    } else {
        match exponent(b, at) {
            None => None,
            Some(e) => Some(units_of_digits(ds, whole.len() + e)),
        }
    }
}

/// Whether a text is a word, given in small letters and in capitals, however
/// the two are mixed.
pub open spec fn spells(s: Seq<char>, word: Seq<char>, capitals: Seq<char>) -> bool {
    s.len() == word.len() && forall|i: int|
        0 <= i < s.len() ==> #[trigger] s[i] == word[i] || s[i] == capitals[i]
}

/// What the words that stand for numbers stand for: infinity is as large as a
/// number gets, and what is no number counts as nothing.
pub open spec fn word_units(b: Seq<char>) -> Option<int> {
    if spells(b, "inf"@, "INF"@) || spells(b, "infinity"@, "INFINITY"@) {
        Some(UNITS_CAP as int)
    } else if spells(b, "nan"@, "NAN"@) {
        Some(0)
    } else {
        None
    }
}

/// A decimal number with an optional sign, in billionths.
pub open spec fn decimal_units(s: Seq<char>) -> Option<int> {
    let b = unsigned_part(s);
    match if word_units(b) is Some { word_units(b) } else { unsigned_units(b) } {
        None => None,
        Some(v) => Some(if is_negative(s) { -v } else { v }),
    }
}

proof fn lemma_first_of(s: Seq<char>, from: int, a: char, b: char)
    requires
        0 <= from <= s.len(),
    ensures
        from <= first_of(s, from, a, b) <= s.len(),
    decreases s.len() - from,
{
    if from < s.len() && s[from] != a && s[from] != b {
        lemma_first_of(s, from + 1, a, b);
    }
}

/// `first_of` from the start.
pub fn find(s: &Vec<char>, a: char, b: char) -> (r: usize)
    ensures
        r == first_of(s@, 0, a, b),
        r <= s@.len(),
{
    let mut i: usize = 0;
    while i < s.len()
        invariant
            i <= s@.len(),
            first_of(s@, 0, a, b) == first_of(s@, i as int, a, b),
        decreases s@.len() - i,
    {
        if s[i] == a || s[i] == b {
            return i;
        }
        i = i + 1;
    }
    i
}

fn check_digits(s: &Vec<char>) -> (r: bool)
    ensures
        r == all_digits(s@),
{
    let mut i: usize = 0;
    while i < s.len()
        invariant
            i <= s@.len(),
            forall|k: int| 0 <= k < i ==> is_digit(#[trigger] s@[k]),
        decreases s@.len() - i,
    {
        if s[i] < '0' || s[i] > '9' {
            assert(!is_digit(s@[i as int]));
            return false;
        }
        i = i + 1;
    }
    true
}

fn sub_chars(s: &Vec<char>, from: usize, to: usize) -> (r: Vec<char>)
    requires
        from <= to <= s@.len(),
    ensures
        r@ == s@.subrange(from as int, to as int),
{
    let mut r: Vec<char> = Vec::new();
    let mut i: usize = from;
    while i < to
        invariant
            from <= i <= to <= s@.len(),
            r@ == s@.subrange(from as int, i as int),
        decreases to - i,
    {
        r.push(s[i]);
        i = i + 1;
        assert(r@ =~= s@.subrange(from as int, i as int));
    }
    r
}

proof fn lemma_value_nonneg(s: Seq<char>)
    requires
        all_digits(s),
    ensures
        value(s) >= 0,
    decreases s.len(),
{
    if s.len() > 0 {
        assert forall|i: int| 0 <= i < s.drop_last().len() implies is_digit(
            #[trigger] s.drop_last()[i],
        ) by {
            assert(is_digit(s[i]));
        }
        lemma_value_nonneg(s.drop_last());
        assert(is_digit(s[s.len() - 1]));
    }
}

proof fn lemma_value_grows(s: Seq<char>, c: char)
    requires
        all_digits(s),
        is_digit(c),
    ensures
        value(s.push(c)) == 10 * value(s) + digit_of(c),
        all_digits(s.push(c)),
{
    assert(s.push(c).drop_last() =~= s);
}

/// `value` of the first `n` digits continued with zeros, held to `cap`.
fn leading_value(ds: &Vec<char>, n: i128, cap: u64) -> (r: u64)
    requires
        all_digits(ds@),
        cap > 0,
    ensures
        r == least(value(leading(ds@, n as int)), cap as int),
{
    let most: u128 = cap as u128;
    let mut acc: u128 = 0;
    let mut i: i128 = 0;
    assert(leading(ds@, 0) =~= Seq::empty());
    assert(n < 0 ==> leading(ds@, n as int) =~= Seq::empty());
    while i < n && i < ds.len() as i128
        invariant
            all_digits(ds@),
            cap > 0,
            most == cap,
            0 <= i,
            n >= 0 ==> i <= n,
            n < 0 ==> i == 0,
            i <= ds@.len(),
            all_digits(leading(ds@, i as int)),
            acc == least(value(leading(ds@, i as int)), cap as int),
        decreases ds@.len() - i,
    {
        let c = ds[i as usize];
        assert(is_digit(ds@[i as int]));
        let d: u128 = (c as u64 - '0' as u64) as u128;
        proof {
            assert(leading(ds@, i + 1) =~= leading(ds@, i as int).push(c));
            lemma_value_nonneg(leading(ds@, i as int));
            lemma_value_grows(leading(ds@, i as int), c);
        }
        acc = acc * 10 + d;
        if acc > most {
            acc = most;
        }
        i = i + 1;
    }
    while i < n && acc > 0 && acc < most
        invariant
            all_digits(ds@),
            cap > 0,
            most == cap,
            0 <= i,
            n >= 0 ==> i <= n,
            n < 0 ==> i == 0,
            i < n ==> i >= ds@.len(),
            all_digits(leading(ds@, i as int)),
            acc == least(value(leading(ds@, i as int)), cap as int),
        decreases n - i,
    {
        proof {
            assert(leading(ds@, i + 1) =~= leading(ds@, i as int).push('0'));
            lemma_value_nonneg(leading(ds@, i as int));
            lemma_value_grows(leading(ds@, i as int), '0');
        }
        acc = acc * 10;
        if acc > most {
            acc = most;
        }
        i = i + 1;
    }
    proof {
        lemma_value_nonneg(leading(ds@, i as int));
        if i < n {
            lemma_zeros_keep(ds@, i as int, n as int);
        }
    }
    acc as u64
}

/// Trailing zeros keep a value of 0 at 0 and never lower another.
proof fn lemma_zeros_keep(ds: Seq<char>, i: int, n: int)
    requires
        all_digits(ds),
        ds.len() <= i <= n,
    ensures
        value(leading(ds, n)) >= value(leading(ds, i)),
        value(leading(ds, i)) == 0 ==> value(leading(ds, n)) == 0,
        value(leading(ds, i)) >= 0,
    decreases n - i,
{
    lemma_leading_digits(ds, n);
    lemma_leading_digits(ds, i);
    lemma_value_nonneg(leading(ds, i));
    if i < n {
        lemma_zeros_keep(ds, i, n - 1);
        lemma_leading_digits(ds, n - 1);
        lemma_value_nonneg(leading(ds, n - 1));
        assert(leading(ds, n) =~= leading(ds, n - 1).push('0'));
        lemma_value_grows(leading(ds, n - 1), '0');
    }
}

proof fn lemma_leading_digits(ds: Seq<char>, n: int)
    requires
        all_digits(ds),
    ensures
        all_digits(leading(ds, n)),
{
    assert forall|k: int| 0 <= k < leading(ds, n).len() implies is_digit(
        #[trigger] leading(ds, n)[k],
    ) by {
        if k < ds.len() {
            assert(is_digit(ds[k]));
        }
    }
}

/// A whole number held to `cap`.
fn capped_value(ds: &Vec<char>, cap: u64) -> (r: u64)
    requires
        all_digits(ds@),
        0 < cap <= 0x1000_0000_0000_0000,
    ensures
        r == least(value(ds@), cap as int),
{
    let r: u64 = leading_value(ds, ds.len() as i128, cap);
    assert(leading(ds@, ds@.len() as int) =~= ds@);
    r
}

/// Reads an unsigned whole number.
pub fn parse_whole(s: &str) -> (r: Option<u64>)
    ensures
        match r {
            Some(v) => whole_number(s@) == Some(v as int),
            None => whole_number(s@) is None,
        },
{
    let all = chars_of(s);
    let start: usize = if all.len() > 0 && all[0] == '+' {
        1
    } else {
        0
    };
    let body = sub_chars(&all, start, all.len());
    assert(body@ =~= if s@.len() > 0 && s@[0] == '+' { s@.skip(1) } else { s@ });
    if body.len() == 0 || !check_digits(&body) {
        return None;
    }
    let mut acc: u64 = 0;
    let mut i: usize = 0;
    assert(body@.take(0) =~= Seq::empty());
    while i < body.len()
        invariant
            i <= body@.len(),
            body@ == (if s@.len() > 0 && s@[0] == '+' { s@.skip(1) } else { s@ }),
            all_digits(body@),
            acc == value(body@.take(i as int)),
            all_digits(body@.take(i as int)),
        decreases body@.len() - i,
    {
        let c = body[i];
        assert(is_digit(body@[i as int]));
        let d: u64 = c as u64 - '0' as u64;
        proof {
            assert(body@.take(i + 1) =~= body@.take(i as int).push(c));
            lemma_value_grows(body@.take(i as int), c);
        }
        if acc > (u64::MAX - d) / 10 {
            proof {
                lemma_value_monotone(body@, i + 1, body@.len() as int);
                assert(body@.take(body@.len() as int) =~= body@);
            }
            return None;
        }
        acc = acc * 10 + d;
        i = i + 1;
    }
    assert(body@.take(body@.len() as int) =~= body@);
    Some(acc)
}

proof fn lemma_value_monotone(s: Seq<char>, i: int, j: int)
    requires
        all_digits(s),
        0 <= i <= j <= s.len(),
    ensures
        value(s.take(i)) <= value(s.take(j)),
    decreases j - i,
{
    if i < j {
        lemma_value_monotone(s, i, j - 1);
        assert(s.take(j) =~= s.take(j - 1).push(s[j - 1]));
        assert(all_digits(s.take(j - 1)));
        lemma_value_nonneg(s.take(j - 1));
        lemma_value_grows(s.take(j - 1), s[j - 1]);
    }
}

fn parse_exponent(b: &Vec<char>, at: usize) -> (r: Option<i64>)
    requires
        at <= b@.len(),
    ensures
        match r {
            Some(v) => exponent(b@, at as int) == Some(v as int) && -EXPONENT_CAP <= v
                <= EXPONENT_CAP,
            None => exponent(b@, at as int) is None,
        },
{
    if at >= b.len() {
        return Some(0);
    }
    let e = sub_chars(b, at + 1, b.len());
    assert(e@ =~= b@.skip(at + 1));
    let signed = e.len() > 0 && (e[0] == '+' || e[0] == '-');
    let negative = e.len() > 0 && e[0] == '-';
    let ds = sub_chars(
        &e,
        if signed {
            1
        } else {
            0
        },
        e.len(),
    );
    assert(ds@ =~= unsigned_part(e@));
    if ds.len() == 0 || !check_digits(&ds) {
        return None;
    }
    proof {
        lemma_value_nonneg(ds@);
    }
    let v: i64 = capped_value(&ds, EXPONENT_CAP as u64) as i64;
    Some(
        if negative {
            -v
        } else {
            v
        },
    )
}

fn parse_unsigned(b: &Vec<char>) -> (r: Option<i64>)
    ensures
        match r {
            Some(v) => unsigned_units(b@) == Some(v as int) && 0 <= v <= UNITS_CAP,
            None => unsigned_units(b@) is None,
        },
{
    let at: usize = find(b, 'e', 'E');
    let mantissa = sub_chars(b, 0, at);
    assert(mantissa@ =~= b@.take(at as int));
    let dot: usize = find(&mantissa, '.', '.');
    let mut ds = sub_chars(&mantissa, 0, dot);
    let ghost whole = ds@;
    assert(whole =~= mantissa@.take(dot as int));
    if dot < mantissa.len() {
        let mut part = sub_chars(&mantissa, dot + 1, mantissa.len());
        assert(part@ =~= mantissa@.skip(dot + 1));
        ds.append(&mut part);
    } else {
        assert(ds@ =~= whole + Seq::<char>::empty());
    }
    if ds.len() == 0 || !check_digits(&ds) {
        return None;
    }
    match parse_exponent(b, at) {
        None => None,
        Some(e) => {
            let cut: i128 = dot as i128 + e as i128 + 9;
            let lead: i64 = leading_value(&ds, cut, UNITS_CAP as u64) as i64;
            proof {
                lemma_leading_digits(ds@, cut as int);
                lemma_value_nonneg(leading(ds@, cut as int));
            }
            let up: i64 = if cut >= 0 && cut < ds.len() as i128 && ds[cut as usize] >= '5' {
                1
            } else {
                0
            };
            assert(0 <= cut < ds@.len() ==> is_digit(ds@[cut as int]));
            let v: i64 = if lead + up > UNITS_CAP {
                UNITS_CAP
            } else {
                lead + up
            };
            Some(v)
        },
    }
}

/// `spells`.
fn is_word(s: &Vec<char>, word: &str, capitals: &str) -> (r: bool)
    requires
        word@.len() == capitals@.len(),
    ensures
        r == spells(s@, word@, capitals@),
{
    let w = chars_of(word);
    let c = chars_of(capitals);
    if s.len() != w.len() {
        return false;
    }
    let mut i: usize = 0;
    while i < s.len()
        invariant
            i <= s@.len(),
            s@.len() == w@.len() == c@.len(),
            w@ == word@,
            c@ == capitals@,
            forall|k: int| 0 <= k < i ==> #[trigger] s@[k] == word@[k] || s@[k] == capitals@[k],
        decreases s@.len() - i,
    {
        if s[i] != w[i] && s[i] != c[i] {
            return false;
        }
        i = i + 1;
    }
    true
}

/// Reads a decimal number into billionths.
pub fn parse_decimal(s: &str) -> (r: Option<i64>)
    ensures
        match r {
            Some(v) => decimal_units(s@) == Some(v as int) && -UNITS_CAP <= v <= UNITS_CAP,
            None => decimal_units(s@) is None,
        },
{
    let all = chars_of(s);
    let signed = all.len() > 0 && (all[0] == '+' || all[0] == '-');
    let negative = all.len() > 0 && all[0] == '-';
    let body = sub_chars(
        &all,
        if signed {
            1
        } else {
            0
        },
        all.len(),
    );
    assert(body@ =~= unsigned_part(s@));
    proof {
        reveal_strlit("inf");
        reveal_strlit("INF");
        reveal_strlit("infinity");
        reveal_strlit("INFINITY");
        reveal_strlit("nan");
        reveal_strlit("NAN");
    }
    let read = if is_word(&body, "inf", "INF") || is_word(&body, "infinity", "INFINITY") {
        Some(UNITS_CAP)
    } else if is_word(&body, "nan", "NAN") {
        Some(0)
    } else {
        parse_unsigned(&body)
    };
    match read {
        None => None,
        Some(v) => Some(
            if negative {
                -v
            } else {
                v
            },
        ),
    }
}

} // verus!
