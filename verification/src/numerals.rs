//! Numbers as text, seen from outside: what is written reads back, to the
//! nearest last place, and what is read is what stands there.

use crate::parse::{
    decimal_units, first_of, is_negative, leading, unsigned_part, unsigned_units, whole_number, word_units, UNITS_CAP,
};
use crate::probe::rate;
use crate::readout::{
    all_digits, digit_char, digit_of, digits, digits_read_back, fixed, is_digit, nearest_even,
    padded, power_of_ten, size_text, ten_to, time_text, value,
};
use crate::units::{round_div_is_nearest, ONE, TIME_LIMIT};
use vstd::prelude::*;

verus! {

/// The number of two runs of digits, one after the other.
pub proof fn digits_stand_in_order(a: Seq<char>, b: Seq<char>)
    ensures
        value(a + b) == value(a) * power_of_ten(b.len()) + value(b),
    decreases b.len(),
{
    if b.len() == 0 {
        assert(a + b =~= a);
        assert(value(a) * 1 == value(a));
    } else {
        let c = b.drop_last();
        digits_stand_in_order(a, c);
        assert((a + b).drop_last() =~= a + c);
        assert((a + b).last() == b.last());
        let (v, p) = (value(a), power_of_ten(c.len()) as int);
        assert(power_of_ten(b.len()) == 10 * p);
        assert(10 * (v * p) == v * (10 * p)) by (nonlinear_arith);
    }
}

/// A number filled up with zeros reads back as itself, and is as long as was
/// asked for where that is enough.
pub proof fn padding_reads_back(n: nat, width: nat)
    ensures
        all_digits(padded(n, width)),
        value(padded(n, width)) == n,
        padded(n, width).len() >= width,
        padded(n, width).len() >= 1,
        width >= 1 && n < power_of_ten(width) ==> padded(n, width).len() == width,
    decreases n + width,
{
    if n < 10 && width <= 1 {
        let d = digit_char(n as int);
        assert(padded(n, width) =~= seq![d]);
        assert(seq![d].drop_last() =~= Seq::<char>::empty());
        assert(value(Seq::<char>::empty()) == 0);
        assert(seq![d].last() == d);
        assert(is_digit(d) && digit_of(d) == n);
    } else {
        let w: nat = if width == 0 { 0 } else { (width - 1) as nat };
        padding_reads_back(n / 10, w);
        let front = padded(n / 10, w);
        let d = digit_char((n % 10) as int);
        assert(padded(n, width) == front.push(d));
        assert(front.push(d).drop_last() =~= front);
        assert(is_digit(d) && digit_of(d) == n % 10);
        if width >= 1 && n < power_of_ten(width) {
            assert(power_of_ten(width) == 10 * power_of_ten(w));
            if w == 0 {
                assert(power_of_ten(0) == 1);
                assert(n < 10);
                assert(false);
            }
            assert(n / 10 < power_of_ten(w));
        }
    }
}

/// Whether `q` is `n / d`, to the nearest whole.
pub open spec fn is_nearest(q: int, n: int, d: int) -> bool {
    2 * (q * d - n) <= d && 2 * (n - q * d) <= d
}

proof fn lemma_nearest_even(n: nat, d: nat)
    requires
        d > 0,
    ensures
        is_nearest(nearest_even(n, d) as int, n as int, d as int),
{
    vstd::arithmetic::div_mod::lemma_fundamental_div_mod(n as int, d as int);
    vstd::arithmetic::div_mod::lemma_mod_bound(n as int, d as int);
    let (q, r) = (n as int / d as int, n as int % d as int);
    assert((q + 1) * d == q * d + d && q * d == d * q) by (nonlinear_arith);
}

/// A quotient written with one, two or three places: a dot stands before the
/// last `places` digits, and without the dot the digits are the quotient in
/// units of the last place, to the nearest. Without places there is no dot.
pub proof fn decimals_are_to_the_nearest_place(num: nat, den: nat, places: nat)
    requires
        den > 0,
        places <= 3,
    ensures
        ({
            let t = fixed(num, den, places);
            let k = t.len() - places - 1;
            let n = num * power_of_ten(places);
            &&& places == 0 ==> all_digits(t) && is_nearest(value(t), num as int, den as int)
            &&& places > 0 ==> {
                &&& k >= 1
                &&& t[k] == '.'
                &&& all_digits(t.take(k) + t.skip(k + 1))
                &&& is_nearest(value(t.take(k) + t.skip(k + 1)), n as int, den as int)
            }
        }),
{
    reveal_with_fuel(power_of_ten, 4);
    let p = ten_to(places);
    assert(p == power_of_ten(places));
    let q = nearest_even(num * p, den);
    lemma_nearest_even(num * p, den);
    if places == 0 {
        digits_read_back(q);
        assert(num * 1 == num);
    } else {
        let (a, b) = (digits(q / p), padded(q % p, places));
        digits_read_back(q / p);
        padding_reads_back(q % p, places);
        let t = fixed(num, den, places);
        let k = t.len() - places - 1;
        assert(t =~= a.push('.') + b);
        assert(t.take(k) =~= a);
        assert(t.skip(k + 1) =~= b);
        digits_stand_in_order(a, b);
        vstd::arithmetic::div_mod::lemma_fundamental_div_mod(q as int, p as int);
        assert(value(a) * p == p * (q / p)) by (nonlinear_arith)
            requires
                value(a) == q / p,
        ;
    }
}

/// A time reads as minutes, seconds and milliseconds, to the nearest
/// millisecond: `mm:ss.mmm`. A time before the start reads as the start.
pub proof fn times_read_as_minutes_and_seconds(t: int)
    ensures
        ({
            let s = time_text(t);
            let k = s.len() - 7;
            let at = if t < 0 { 0 } else { t };
            let ms = 60_000 * value(s.take(k)) + 1_000 * value(s.subrange(k + 1, k + 3)) + value(
                s.skip(k + 4),
            );
            &&& k >= 2
            &&& s[k] == ':' && s[k + 3] == '.'
            &&& all_digits(s.take(k)) && all_digits(s.subrange(k + 1, k + 3)) && all_digits(
                s.skip(k + 4),
            )
            &&& is_nearest(ms, at, 1_000_000)
        }),
{
    let at = if t < 0 { 0 } else { t };
    let m = at / 60_000_000_000;
    let rest = at % 60_000_000_000;
    let ms = nearest_even(rest as nat, 1_000_000);
    lemma_nearest_even(rest as nat, 1_000_000);
    reveal_with_fuel(power_of_ten, 4);
    let (a, b, c) = (padded(m as nat, 2), padded(ms / 1_000, 2), padded(ms % 1_000, 3));
    padding_reads_back(m as nat, 2);
    padding_reads_back(ms / 1_000, 2);
    padding_reads_back(ms % 1_000, 3);
    let s = time_text(t);
    assert(s =~= a.push(':') + b.push('.') + c);
    let k = s.len() - 7;
    assert(s.take(k) =~= a);
    assert(s.subrange(k + 1, k + 3) =~= b);
    assert(s.skip(k + 4) =~= c);
}

/// A file's size reads in mebibytes to one place, and from one gibibyte on in
/// gibibytes to two.
pub proof fn sizes_read_in_binary_units(bytes: nat)
    ensures
        bytes < 1_073_741_824 ==> size_text(bytes) == fixed(bytes, 1_048_576, 1) + " MiB"@,
        bytes >= 1_073_741_824 ==> size_text(bytes) == fixed(bytes, 1_073_741_824, 2) + " GiB"@,
{
}

/// No digit is one of the other characters of a number.
proof fn lemma_no_mark(s: Seq<char>, from: int, a: char, b: char)
    requires
        all_digits(s),
        !is_digit(a),
        !is_digit(b),
        0 <= from <= s.len(),
    ensures
        first_of(s, from, a, b) == s.len(),
    decreases s.len() - from,
{
    if from < s.len() {
        assert(is_digit(s[from]));
        lemma_no_mark(s, from + 1, a, b);
    }
}

/// The first mark of a text stands after the marks it lacks.
proof fn lemma_mark_at(s: Seq<char>, from: int, k: int, a: char, b: char)
    requires
        0 <= from <= k < s.len(),
        s[k] == a || s[k] == b,
        forall|i: int| from <= i < k ==> #[trigger] s[i] != a && s[i] != b,
    ensures
        first_of(s, from, a, b) == k,
    decreases k - from,
{
    if from < k {
        lemma_mark_at(s, from + 1, k, a, b);
    }
}

/// Digits continued with zeros.
proof fn lemma_leading(ds: Seq<char>, n: int)
    requires
        n >= ds.len(),
    ensures
        value(leading(ds, n)) == value(ds) * power_of_ten((n - ds.len()) as nat),
    decreases n,
{
    if n == ds.len() {
        assert(leading(ds, n) =~= ds);
        assert(value(ds) * 1 == value(ds));
    } else {
        lemma_leading(ds, n - 1);
        assert(leading(ds, n).drop_last() =~= leading(ds, n - 1));
        assert(leading(ds, n).last() == '0');
        let (v, p) = (value(ds), power_of_ten((n - 1 - ds.len()) as nat) as int);
        assert(power_of_ten((n - ds.len()) as nat) == 10 * p);
        assert(10 * (v * p) == v * (10 * p)) by (nonlinear_arith);
    }
}

proof fn lemma_not_a_word(s: Seq<char>)
    requires
        s.len() > 0,
        is_digit(s[0]),
    ensures
        word_units(s) is None,
{
    reveal_strlit("inf");
    reveal_strlit("INF");
    reveal_strlit("infinity");
    reveal_strlit("INFINITY");
    reveal_strlit("nan");
    reveal_strlit("NAN");
    assert(s[0] != 'i' && s[0] != 'I' && s[0] != 'n' && s[0] != 'N');
}

/// A decimal number is read as what it says, in billionths: its digits, moved up
/// by the places it has less than nine. Before it a minus makes it negative.
pub proof fn decimals_are_read_as_they_stand(whole: Seq<char>, part: Seq<char>)
    requires
        all_digits(whole),
        all_digits(part),
        whole.len() >= 1,
        part.len() <= 9,
        value(whole + part) * power_of_ten((9 - part.len()) as nat) <= UNITS_CAP,
    ensures
        ({
            let v = value(whole + part) * power_of_ten((9 - part.len()) as nat);
            let s = whole.push('.') + part;
            &&& decimal_units(s) == Some(v)
            &&& decimal_units(seq!['-'] + s) == Some(-v)
            &&& part.len() == 0 ==> decimal_units(whole) == Some(v)
        }),
{
    let s = whole.push('.') + part;
    let k = whole.len() as int;
    let v = value(whole + part) * power_of_ten((9 - part.len()) as nat);
    assert(forall|i: int| 0 <= i < k ==> s[i] == whole[i]);
    assert forall|i: int| 0 <= i < s.len() implies #[trigger] s[i] != 'e' && s[i] != 'E' by {
        if i < k {
            assert(is_digit(whole[i]));
        } else if i > k {
            assert(is_digit(part[i - k - 1]));
        }
    }
    lemma_absent(s, 0, 'e', 'E');
    assert(s.take(s.len() as int) =~= s);
    assert forall|i: int| 0 <= i < k implies #[trigger] s[i] != '.' by {
        assert(is_digit(whole[i]));
    }
    lemma_mark_at(s, 0, k, '.', '.');
    assert(s.take(k) =~= whole);
    assert(s.skip(k + 1) =~= part);
    let ds = whole + part;
    assert forall|i: int| 0 <= i < ds.len() implies is_digit(#[trigger] ds[i]) by {
        if i < k {
            assert(ds[i] == whole[i]);
        } else {
            assert(ds[i] == part[i - k]);
        }
    }
    lemma_leading(ds, k + 9);
    assert(unsigned_units(s) == Some(v));
    assert(is_digit(whole[0]) && s[0] == whole[0]);
    lemma_not_a_word(s);
    assert(unsigned_part(s) == s && !is_negative(s));
    let m = seq!['-'] + s;
    assert(m.skip(1) =~= s);
    if part.len() == 0 {
        lemma_no_mark(whole, 0, 'e', 'E');
        assert(whole.take(k) =~= whole);
        lemma_no_mark(whole, 0, '.', '.');
        assert(whole + Seq::<char>::empty() =~= whole);
        assert(whole + part =~= whole);
        lemma_not_a_word(whole);
    }
}

proof fn lemma_absent(s: Seq<char>, from: int, a: char, b: char)
    requires
        0 <= from <= s.len(),
        forall|i: int| from <= i < s.len() ==> #[trigger] s[i] != a && s[i] != b,
    ensures
        first_of(s, from, a, b) == s.len(),
    decreases s.len() - from,
{
    if from < s.len() {
        lemma_absent(s, from + 1, a, b);
    }
}

/// A whole number that fits 64 bits reads back as it was written.
pub proof fn whole_numbers_read_back(n: nat)
    ensures
        n <= u64::MAX ==> whole_number(digits(n)) == Some(n as int),
        n > u64::MAX ==> whole_number(digits(n)) is None,
{
    digits_read_back(n);
    assert(is_digit(digits(n)[0]));
}

/// A frame rate written as a fraction of whole numbers is their quotient, to the
/// nearest billionth of a frame a second. A fraction of 0, or over 0, is none.
pub proof fn a_rate_is_its_fraction(num: nat, den: nat)
    requires
        num <= 4_000_000_000,
        den <= 4_000_000_000,
    ensures
        ({
            let r = rate(digits(num).push('/') + digits(den));
            &&& num == 0 || den == 0 ==> r is None
            &&& 0 < num <= 1_000_000_000 && den > 0 ==> (r matches Some(v) && is_nearest(
                v,
                (num * 1_000_000_000) as int,
                den as int,
            ))
        }),
{
    let (a, b) = (digits(num), digits(den));
    digits_read_back(num);
    digits_read_back(den);
    let s = a.push('/') + b;
    let k = a.len() as int;
    assert forall|i: int| 0 <= i < k implies #[trigger] s[i] != '/' by {
        assert(s[i] == a[i] && is_digit(a[i]));
    }
    lemma_mark_at(s, 0, k, '/', '/');
    assert(s.take(k) =~= a);
    assert(s.skip(k + 1) =~= b);
    reveal_with_fuel(power_of_ten, 10);
    assert(a + Seq::<char>::empty() =~= a);
    assert(b + Seq::<char>::empty() =~= b);
    decimals_are_read_as_they_stand(a, Seq::empty());
    decimals_are_read_as_they_stand(b, Seq::empty());
    if num > 0 && den > 0 {
        let (n, d) = (num * 1_000_000_000, den * 1_000_000_000);
        round_div_is_nearest(n * ONE, d as int);
        let v = crate::units::round_div(n * ONE, d as int);
        assert(2 * (v * den - n) <= den && 2 * (n - v * den) <= den) by (nonlinear_arith)
            requires
                2 * d * v <= 2 * (n * 1_000_000_000) + d,
                2 * (n * 1_000_000_000) + d < 2 * d * v + 2 * d,
                d == den * 1_000_000_000,
        ;
        if num <= 1_000_000_000 {
            crate::units::round_div_sign(n * ONE, d as int);
            assert(v <= TIME_LIMIT) by (nonlinear_arith)
                requires
                    2 * (v * den - n) <= den,
                    den >= 1,
                    n <= 1_000_000_000 * 1_000_000_000,
                    TIME_LIMIT == 0x1000_0000_0000_0000,
            ;
        }
    }
}

/// What is cut short keeps its beginning, or its end, and says with a mark where
/// it was cut.
pub proof fn cut_text_keeps_what_it_can(s: Seq<char>, limit: nat, i: int)
    requires
        limit >= 1,
        s.len() > limit,
        0 <= i < limit - 1,
    ensures
        ({
            let (a, b) = (crate::readout::clipped(s, limit), crate::readout::clipped_left(s, limit));
            &&& a.len() == limit && b.len() == limit
            &&& a[i] == s[i] && a.last() == '…'
            &&& b[i + 1] == s[s.len() - limit + 1 + i] && b[0] == '…'
        }),
{
}

/// A negative number reads as a minus and its size.
pub proof fn negative_numbers_have_a_minus(n: int)
    requires
        n < 0,
    ensures
        ({
            let s = crate::readout::signed_digits(n);
            &&& s[0] == '-'
            &&& all_digits(s.skip(1)) && value(s.skip(1)) == -n
        }),
{
    let d = digits((-n) as nat);
    digits_read_back((-n) as nat);
    assert(crate::readout::signed_digits(n).skip(1) =~= d);
}

/// An exponent moves the point: each step of it is a factor of ten.
pub proof fn exponents_move_the_point(whole: Seq<char>, k: nat)
    requires
        all_digits(whole),
        whole.len() >= 1,
        k <= 9,
        value(whole) >= 0,
        value(whole) * power_of_ten(9 + k) <= UNITS_CAP,
    ensures
        decimal_units(whole.push('e') + digits(k)) == Some(value(whole) * power_of_ten(9 + k)),
        decimal_units(whole.push('E') + digits(k)) == Some(value(whole) * power_of_ten(9 + k)),
{
    lemma_exponent(whole, k, 'e');
    lemma_exponent(whole, k, 'E');
}

proof fn lemma_exponent(whole: Seq<char>, k: nat, e: char)
    requires
        all_digits(whole),
        whole.len() >= 1,
        k <= 9,
        e == 'e' || e == 'E',
        value(whole) * power_of_ten(9 + k) <= UNITS_CAP,
    ensures
        decimal_units(whole.push(e) + digits(k)) == Some(value(whole) * power_of_ten(9 + k)),
{
    digits_read_back(k);
    let ds = digits(k);
    let s = whole.push(e) + ds;
    let n = whole.len() as int;
    assert forall|i: int| 0 <= i < n implies #[trigger] s[i] != 'e' && s[i] != 'E' by {
        assert(s[i] == whole[i] && is_digit(whole[i]));
    }
    lemma_mark_at(s, 0, n, 'e', 'E');
    assert(s.take(n) =~= whole);
    lemma_no_mark(whole, 0, '.', '.');
    assert(whole.take(n) =~= whole);
    assert(whole + Seq::<char>::empty() =~= whole);
    assert(s.skip(n + 1) =~= ds);
    assert(is_digit(ds[0]));
    assert(unsigned_part(ds) == ds && !is_negative(ds));
    lemma_leading(whole, n + k + 9);
    assert(s[0] == whole[0] && is_digit(whole[0]));
    lemma_not_a_word(s);
}

} // verus!
