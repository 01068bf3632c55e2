//! Turning numbers and names into the text of the readouts, and decimal text
//! back into numbers.

use crate::units::{max, most, ONE};
use vstd::prelude::*;
use vstd::string::StrSliceExecFns;
use vstd::string::StringExecFns;

verus! {

/// `String::push`: appends one character to the end.
pub assume_specification[ String::push ](s: &mut String, c: char)
    ensures
        final(s)@ == old(s)@.push(c),
;

/// The character of a decimal digit.
pub open spec fn digit_char(d: int) -> char {
    if d == 0 {
        '0'
    } else if d == 1 {
        '1'
    } else if d == 2 {
        '2'
    } else if d == 3 {
        '3'
    } else if d == 4 {
        '4'
    } else if d == 5 {
        '5'
    } else if d == 6 {
        '6'
    } else if d == 7 {
        '7'
    } else if d == 8 {
        '8'
    } else {
        '9'
    }
}

/// A number in decimal, without leading zeros.
pub open spec fn digits(n: nat) -> Seq<char>
    decreases n,
{
    if n < 10 {
        seq![digit_char(n as int)]
    } else {
        digits(n / 10).push(digit_char((n % 10) as int))
    }
}

/// A number in decimal, with a minus sign where it is negative.
pub open spec fn signed_digits(n: int) -> Seq<char> {
    if n < 0 {
        seq!['-'] + digits((-n) as nat)
    } else {
        digits(n as nat)
    }
}

/// A number in decimal, filled up with zeros on the left to `width` digits.
pub open spec fn padded(n: nat, width: nat) -> Seq<char>
    decreases n + width,
{
    if n < 10 && width <= 1 {
        seq![digit_char(n as int)]
    } else {
        padded(n / 10, if width == 0 { 0 } else { (width - 1) as nat }).push(
            digit_char((n % 10) as int),
        )
    }
}

/// The integer nearest to `num / den`, a tie going to the even neighbour.
pub open spec fn nearest_even(num: nat, den: nat) -> nat {
    let q = num / den;
    let r = num % den;
    if 2 * r > den || (2 * r == den && q % 2 == 1) {
        q + 1
    } else {
        q
    }
}

/// 10 to the power of `places`, up to three places.
pub open spec fn ten_to(places: nat) -> nat {
    if places == 0 {
        1
    } else if places == 1 {
        10
    } else if places == 2 {
        100
    } else {
        1_000
    }
}

/// `num / den` in decimal with that many places.
pub open spec fn fixed(num: nat, den: nat, places: nat) -> Seq<char> {
    let q = nearest_even(num * ten_to(places), den);
    if places == 0 {
        digits(q)
    } else {
        digits(q / ten_to(places)).push('.') + padded(q % ten_to(places), places)
    }
}

/// Whether a character is a decimal digit.
pub open spec fn is_digit(c: char) -> bool {
    '0' <= c && c <= '9'
}

/// What a digit stands for.
pub open spec fn digit_of(c: char) -> int {
    c as int - '0' as int
}

/// Whether every character is a decimal digit.
pub open spec fn all_digits(s: Seq<char>) -> bool {
    forall|i: int| 0 <= i < s.len() ==> is_digit(#[trigger] s[i])
}

/// The number that a run of decimal digits stands for.
pub open spec fn value(s: Seq<char>) -> int
    decreases s.len(),
{
    if s.len() == 0 {
        0
    } else {
        10 * value(s.drop_last()) + digit_of(s.last())
    }
}

/// A number written in decimal reads back as itself.
pub proof fn digits_read_back(n: nat)
    ensures
        all_digits(digits(n)),
        value(digits(n)) == n,
        digits(n).len() >= 1,
    decreases n,
{
    if n >= 10 {
        digits_read_back(n / 10);
        let front = digits(n / 10);
        let d = digit_char((n % 10) as int);
        assert(digits(n) == front.push(d));
        assert(front.push(d).drop_last() =~= front);
        assert(is_digit(d) && digit_of(d) == n % 10);
    } else {
        let d = digit_char(n as int);
        assert(digits(n).drop_last() =~= Seq::<char>::empty());
        assert(value(Seq::<char>::empty()) == 0);
        assert(is_digit(d) && digit_of(d) == n);
    }
}

/// 10 to the power of `k`.
pub open spec fn power_of_ten(k: nat) -> nat
    decreases k,
{
    if k == 0 {
        1
    } else {
        10 * power_of_ten((k - 1) as nat)
    }
}

/// A number below 10 to the power of `k` has at most `k` digits, and filling
/// it up to at most that many makes it no longer.
pub proof fn digits_are_few(n: nat, width: nat, k: nat)
    requires
        n < power_of_ten(k),
        1 <= k,
        width <= k,
    ensures
        digits(n).len() <= k,
        padded(n, width).len() <= k,
    decreases k,
{
    if k == 1 {
        assert(power_of_ten(1) == 10 * power_of_ten(0));
        assert(n < 10);
    } else {
        assert(n / 10 < power_of_ten((k - 1) as nat));
        digits_are_few(n / 10, if width == 0 { 0 } else { (width - 1) as nat }, (k - 1) as nat);
    }
}

/// A 64-bit number, or one just above, has at most 20 digits.
pub proof fn lemma_wide_digits(n: nat)
    requires
        n <= 0x1_0000_0000_0000_0000,
    ensures
        digits(n).len() <= 20,
        padded(n, 3).len() <= 20,
        padded(n, 2).len() <= 20,
{
    reveal_with_fuel(power_of_ten, 21);
    digits_are_few(n, 3, 20);
    digits_are_few(n, 2, 20);
}

/// A decimal of a 64-bit number is short.
pub proof fn lemma_fixed_is_short(num: nat, den: nat, places: nat)
    requires
        num <= u64::MAX,
        den >= 1_000,
        places <= 3,
    ensures
        fixed(num, den, places).len() <= 24,
{
    let k = ten_to(places);
    let q = nearest_even(num * k, den);
    assert((num * k) / den <= num) by (nonlinear_arith)
        requires
            k <= 1_000,
            den >= 1_000,
            num >= 0,
    ;
    lemma_wide_digits(q);
    if places > 0 {
        assert(q / k <= q) by (nonlinear_arith)
            requires
                k >= 1,
                q >= 0,
        ;
        lemma_wide_digits(q / k);
        assert(q % k < k);
        reveal_with_fuel(power_of_ten, 4);
        digits_are_few(q % k, places, places);
    }
}

/// A time is a short text.
pub proof fn lemma_time_is_short(t: int)
    requires
        t <= i64::MAX,
    ensures
        time_text(t).len() <= 64,
{
    let u = most(t, 0);
    let ms = nearest_even((u % (60 * ONE)) as nat, 1_000_000);
    assert(ms <= 60_000);
    lemma_wide_digits((u / (60 * ONE)) as nat);
    lemma_wide_digits(ms / 1_000);
    lemma_wide_digits(ms % 1_000);
}

fn to_digit(d: u64) -> (c: char)
    requires
        d < 10,
    ensures
        c == digit_char(d as int),
{
    if d == 0 {
        '0'
    } else if d == 1 {
        '1'
    } else if d == 2 {
        '2'
    } else if d == 3 {
        '3'
    } else if d == 4 {
        '4'
    } else if d == 5 {
        '5'
    } else if d == 6 {
        '6'
    } else if d == 7 {
        '7'
    } else if d == 8 {
        '8'
    } else {
        '9'
    }
}

/// Appends a number.
pub fn push_number(out: &mut String, n: u64)
    ensures
        final(out)@ == old(out)@ + digits(n as nat),
    decreases n,
{
    let ghost before = out@;
    if n < 10 {
        out.push(to_digit(n));
        assert(out@ =~= before + digits(n as nat));
    } else {
        push_number(out, n / 10);
        out.push(to_digit(n % 10));
        assert(out@ =~= before + digits(n as nat));
    }
}

/// Appends a number that may be negative.
pub fn push_signed(out: &mut String, n: i64)
    ensures
        final(out)@ == old(out)@ + signed_digits(n as int),
{
    let ghost before = out@;
    if n < 0 {
        out.push('-');
        let m: u64 = if n == i64::MIN {
            0x8000_0000_0000_0000
        } else {
            (-n) as u64
        };
        push_number(out, m);
        assert(out@ =~= before + signed_digits(n as int));
    } else {
        push_number(out, n as u64);
    }
}

/// Appends a number filled up with zeros to `width` digits.
pub fn push_padded(out: &mut String, n: u64, width: usize)
    ensures
        final(out)@ == old(out)@ + padded(n as nat, width as nat),
    decreases n + width,
{
    let ghost before = out@;
    if n < 10 && width <= 1 {
        out.push(to_digit(n));
    } else {
        push_padded(
            out,
            n / 10,
            if width == 0 {
                0
            } else {
                width - 1
            },
        );
        out.push(to_digit(n % 10));
    }
    assert(out@ =~= before + padded(n as nat, width as nat));
}

fn round_even(num: u128, den: u128) -> (r: u128)
    requires
        0 < den <= 0x1_0000_0000_0000_0000,
        num <= 0x1_0000_0000_0000_0000_0000_0000,
    ensures
        r == nearest_even(num as nat, den as nat),
{
    let q: u128 = num / den;
    let r: u128 = num % den;
    proof {
        vstd::arithmetic::div_mod::lemma_mod_bound(num as int, den as int);
        assert(q <= num) by (nonlinear_arith)
            requires
                q == num / den,
                den > 0,
        ;
    }
    if 2 * r > den || (2 * r == den && q % 2 == 1) {
        q + 1
    } else {
        q
    }
}

/// Appends `num / den` in decimal with that many places.
pub fn push_fixed(out: &mut String, num: u64, den: u64, places: usize)
    requires
        den >= 1_000,
        places <= 3,
    ensures
        final(out)@ == old(out)@ + fixed(num as nat, den as nat, places as nat),
{
    let ghost before = out@;
    let k: u128 = if places == 0 {
        1
    } else if places == 1 {
        10
    } else if places == 2 {
        100
    } else {
        1_000
    };
    let ghost shifted: nat = num as nat * ten_to(places as nat);
    assert(num * k <= 0x1_0000_0000_0000_0000_0000_0000) by (nonlinear_arith)
        requires
            num <= 0xffff_ffff_ffff_ffff,
            k <= 1_000,
    ;
    let q: u128 = round_even(num as u128 * k, den as u128);
    proof {
        let a = shifted as int;
        let d = den as int;
        assert(a / d <= num) by (nonlinear_arith)
            requires
                a <= num * 1_000,
                a >= 0,
                d >= 1_000,
        ;
        assert(q <= num + 1);
    }
    if places == 0 {
        push_wide(out, q);
    } else {
        push_wide(out, q / k);
        out.push('.');
        push_padded(out, (q % k) as u64, places);
    }
    assert(out@ =~= before + fixed(num as nat, den as nat, places as nat));
}

/// Appends a number just above what 64 bits hold.
fn push_wide(out: &mut String, n: u128)
    requires
        n <= 0x1_0000_0000_0000_0000,
    ensures
        final(out)@ == old(out)@ + digits(n as nat),
{
    let ghost before = out@;
    if n <= 0xffff_ffff_ffff_ffff {
        push_number(out, n as u64);
    } else {
        push_number(out, (n / 10) as u64);
        out.push(to_digit((n % 10) as u64));
        assert(out@ =~= before + digits(n as nat));
    }
}

/// A playback time as minutes, seconds and thousandths.
pub open spec fn time_text(t: int) -> Seq<char> {
    let t = most(t, 0);
    let minutes = t / (60 * ONE);
    let ms = nearest_even((t % (60 * ONE)) as nat, 1_000_000);
    padded(minutes as nat, 2).push(':') + padded(ms / 1_000, 2).push('.') + padded(ms % 1_000, 3)
}

pub fn fmt_time(t: i64) -> (r: String)
    ensures
        r@ == time_text(t as int),
{
    let t: i64 = max(t, 0);
    let minutes: i64 = t / (60 * ONE);
    let ms: u128 = round_even((t % (60 * ONE)) as u128, 1_000_000);
    assert(ms <= 60_000);
    let mut out = String::new();
    push_padded(&mut out, minutes as u64, 2);
    out.push(':');
    push_padded(&mut out, (ms / 1_000) as u64, 2);
    out.push('.');
    push_padded(&mut out, (ms % 1_000) as u64, 3);
    assert(out@ =~= time_text(t as int));
    out
}

/// A file size in binary megabytes or gigabytes.
pub open spec fn size_text(bytes: nat) -> Seq<char> {
    if bytes >= 0x4000_0000 {
        fixed(bytes, 0x4000_0000, 2) + " GiB"@
    } else {
        fixed(bytes, 0x10_0000, 1) + " MiB"@
    }
}

pub fn fmt_size(bytes: u64) -> (r: String)
    ensures
        r@ == size_text(bytes as nat),
{
    let mut out = String::new();
    if bytes >= 0x4000_0000 {
        push_fixed(&mut out, bytes, 0x4000_0000, 2);
        out.append(" GiB");
    } else {
        push_fixed(&mut out, bytes, 0x10_0000, 1);
        out.append(" MiB");
    }
    assert(out@ =~= size_text(bytes as nat));
    out
}

/// A run clipped to `limit` characters, the cut marked with an ellipsis.
pub open spec fn clipped(s: Seq<char>, limit: nat) -> Seq<char> {
    if s.len() <= limit {
        s
    } else {
        s.take(most(limit - 1, 0)).push('…')
    }
}

/// The same, but keeping the tail (for paths, where the leaf matters).
pub open spec fn clipped_left(s: Seq<char>, limit: nat) -> Seq<char> {
    if s.len() <= limit {
        s
    } else {
        seq!['…'] + s.skip(s.len() - most(limit - 1, 0))
    }
}

/// Clip a run to `limit` characters, marking the cut with an ellipsis.
pub fn ellipsize(s: &str, limit: usize) -> (r: String)
    ensures
        r@ == clipped(s@, limit as nat),
{
    if s.unicode_len() <= limit {
        return s.to_owned();
    }
    let keep: usize = limit.saturating_sub(1);
    let mut r = s.substring_char(0, keep).to_owned();
    r.push('…');
    assert(r@ =~= clipped(s@, limit as nat));
    r
}

/// Same, but keeps the tail.
pub fn ellipsize_left(s: &str, limit: usize) -> (r: String)
    ensures
        r@ == clipped_left(s@, limit as nat),
{
    let n: usize = s.unicode_len();
    if n <= limit {
        return s.to_owned();
    }
    let skip: usize = n - limit.saturating_sub(1);
    let mut r = String::new();
    r.push('…');
    r.append(s.substring_char(skip, n));
    assert(r@ =~= clipped_left(s@, limit as nat));
    r
}

/// A clipped run is as long as the limit allows, and a run within the limit
/// is left alone.
pub proof fn clipping_respects_the_limit(s: Seq<char>, limit: nat)
    requires
        limit >= 1,
    ensures
        clipped(s, limit).len() <= limit,
        clipped_left(s, limit).len() <= limit,
        s.len() <= limit ==> clipped(s, limit) == s && clipped_left(s, limit) == s,
        s.len() > limit ==> clipped(s, limit).len() == limit && clipped_left(s, limit).len()
            == limit,
{
}

} // verus!
