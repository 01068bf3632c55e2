//! The integer units everything else is measured in, and the few rounding
//! operations on them.
//!
//! Lengths (screen pixels and image pixels alike) are integers in
//! hundred-thousandths of a pixel: `PX` is one pixel. Ratios (zoom, speed,
//! opacity, a position inside the picture) and times are integers in
//! billionths: `ONE` is the ratio 1, and it is also one second. Every product
//! and quotient is rounded to the nearest unit, halves upwards, by
//! `round_div`.

use vstd::prelude::*;

verus! {

/// One pixel.
pub const PX: i64 = 100_000;

/// The ratio 1, and one second.
pub const ONE: i64 = 1_000_000_000;

/// Bound on every time the player handles (about 36 years).
pub const TIME_LIMIT: i64 = 0x1000_0000_0000_0000;

/// Bound on the operands of `scale`.
pub const SCALE_LIMIT: i64 = 0x2000_0000_0000;

/// The integer nearest to `n / d`, halves upwards.
#[verifier::opaque]
pub open spec fn round_div(n: int, d: int) -> int {
    (2 * n + d) / (2 * d)
}

/// The integer nearest to `n / d`, halves away from zero.
pub open spec fn round_away(n: int, d: int) -> int {
    if n >= 0 { round_div(n, d) } else { -round_div(-n, d) }
}

/// `v` times the ratio `k`.
pub open spec fn scaled(v: int, k: int) -> int {
    round_div(v * k, ONE as int)
}

/// `a / b` as a ratio.
pub open spec fn ratio_of(a: int, b: int) -> int {
    round_div(a * ONE, b)
}

/// The smaller of two values.
pub open spec fn least(a: int, b: int) -> int {
    if a <= b { a } else { b }
}

/// The larger of two values.
pub open spec fn most(a: int, b: int) -> int {
    if a >= b { a } else { b }
}

/// `v` held between `lo` and `hi`.
pub open spec fn held(v: int, lo: int, hi: int) -> int {
    if v < lo { lo } else if v > hi { hi } else { v }
}

/// Whether a time lies inside the range the player handles.
pub open spec fn time_ok(t: int) -> bool {
    -TIME_LIMIT <= t <= TIME_LIMIT
}

/// `n / d` lies within half a unit of `round_div(n, d)`, and no other
/// integer does (but for the tie, which goes up).
pub proof fn round_div_is_nearest(n: int, d: int)
    requires
        d > 0,
    ensures
        2 * d * round_div(n, d) <= 2 * n + d,
        2 * n + d < 2 * d * round_div(n, d) + 2 * d,
{
    reveal(round_div);
    vstd::arithmetic::div_mod::lemma_fundamental_div_mod(2 * n + d, 2 * d);
    vstd::arithmetic::div_mod::lemma_mod_bound(2 * n + d, 2 * d);
}

/// A bound on the quotient bounds the rounded quotient.
pub proof fn round_div_bounds(n: int, d: int, lo: int, hi: int)
    requires
        d > 0,
        lo * d <= n <= hi * d,
    ensures
        lo <= round_div(n, d) <= hi,
{
    round_div_is_nearest(n, d);
    let q = round_div(n, d);
    assert(lo <= q) by (nonlinear_arith)
        requires
            d > 0,
            lo * d <= n,
            2 * n + d < 2 * d * q + 2 * d,
    ;
    assert(q <= hi) by (nonlinear_arith)
        requires
            d > 0,
            n <= hi * d,
            2 * d * q <= 2 * n + d,
    ;
}

/// A whole quotient is kept as it is.
pub proof fn round_div_exact(q: int, d: int)
    requires
        d > 0,
    ensures
        round_div(q * d, d) == q,
{
    round_div_bounds(q * d, d, q, q);
}

/// A ratio of at most 1 does not lengthen, and the ratio 1 changes nothing.
pub proof fn scaled_within(v: int, k: int)
    requires
        v >= 0,
        0 <= k <= ONE,
    ensures
        0 <= scaled(v, k) <= v,
        k == ONE ==> scaled(v, k) == v,
{
    assert(0 <= v * k && v * k <= v * ONE) by (nonlinear_arith)
        requires
            v >= 0,
            0 <= k <= ONE,
    ;
    round_div_bounds(v * k, ONE as int, 0, v);
    if k == ONE {
        round_div_exact(v, ONE as int);
    }
}

/// `round_div`.
pub fn div_round(n: i128, d: i128) -> (r: i128)
    requires
        0 < d <= 0x1_0000_0000_0000_0000_0000_0000,
        -0x1000_0000_0000_0000_0000_0000_0000_0000 <= n
            <= 0x1000_0000_0000_0000_0000_0000_0000_0000,
    ensures
        r == round_div(n as int, d as int),
{
    proof {
        reveal(round_div);
    }
    let a: i128 = 2 * n + d;
    let b: i128 = 2 * d;
    if a >= 0 {
        a / b
    } else {
        let c: i128 = (-a + b - 1) / b;
        proof {
            let (ai, bi, ci) = (a as int, b as int, c as int);
            vstd::arithmetic::div_mod::lemma_fundamental_div_mod(-ai + bi - 1, bi);
            vstd::arithmetic::div_mod::lemma_mod_bound(-ai + bi - 1, bi);
            let rem = (-ai + bi - 1) % bi;
            assert(bi * ci + rem == -ai + bi - 1);
            assert(ai == bi * (-ci) + (bi - 1 - rem)) by (nonlinear_arith)
                requires
                    bi * ci + rem == -ai + bi - 1,
            ;
            vstd::arithmetic::div_mod::lemma_fundamental_div_mod_converse(
                ai,
                bi,
                -ci,
                bi - 1 - rem,
            );
        }
        -c
    }
}

/// `round_away`.
pub fn div_round_away(n: i128, d: i128) -> (r: i128)
    requires
        0 < d <= 0x1_0000_0000_0000_0000_0000_0000,
        -0x1000_0000_0000_0000_0000_0000_0000_0000 <= n
            <= 0x1000_0000_0000_0000_0000_0000_0000_0000,
    ensures
        r == round_away(n as int, d as int),
{
    if n >= 0 {
        div_round(n, d)
    } else {
        proof {
            round_div_sign(-n, d as int);
        }
        -div_round(-n, d)
    }
}

/// What rounds a quantity that is not negative is not negative, nor larger.
pub proof fn round_div_sign(n: int, d: int)
    requires
        n >= 0,
        d > 0,
    ensures
        0 <= round_div(n, d) <= n,
{
    assert(n <= n * d) by (nonlinear_arith)
        requires
            n >= 0,
            d >= 1,
    ;
    round_div_bounds(n, d, 0, n);
}

/// `scaled`.
pub fn scale(v: i64, k: i64) -> (r: i64)
    requires
        -SCALE_LIMIT <= v <= SCALE_LIMIT,
        -SCALE_LIMIT <= k <= SCALE_LIMIT,
    ensures
        r == scaled(v as int, k as int),
{
    assert(-0x400_0000_0000_0000_0000_0000 <= v * k <= 0x400_0000_0000_0000_0000_0000)
        by (nonlinear_arith)
        requires
            -0x2000_0000_0000 <= v <= 0x2000_0000_0000,
            -0x2000_0000_0000 <= k <= 0x2000_0000_0000,
    ;
    proof {
        round_div_bounds(v * k, ONE as int, i64::MIN as int, i64::MAX as int);
    }
    div_round((v as i128) * (k as i128), ONE as i128) as i64
}

/// `least`.
pub fn min(a: i64, b: i64) -> (r: i64)
    ensures
        r == least(a as int, b as int),
{
    if a <= b {
        a
    } else {
        b
    }
}

/// `most`.
pub fn max(a: i64, b: i64) -> (r: i64)
    ensures
        r == most(a as int, b as int),
{
    if a >= b {
        a
    } else {
        b
    }
}

/// `held`.
pub fn clamp(v: i64, lo: i64, hi: i64) -> (r: i64)
    ensures
        r == held(v as int, lo as int, hi as int),
{
    if v < lo {
        lo
    } else if v > hi {
        hi
    } else {
        v
    }
}

} // verus!
