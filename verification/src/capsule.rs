//! The capsule a round brush sweeps between two points.

use crate::units::{least, most};
use vstd::prelude::*;

verus! {

/// `(cx, cy)` lies within `radius` of the point that is `n / m` of the way
/// from `from` to `to`.
pub open spec fn near_at(
    from: (int, int),
    to: (int, int),
    radius: int,
    cx: int,
    cy: int,
    n: int,
    m: int,
) -> bool {
    let x = m * (cx - from.0) - n * (to.0 - from.0);
    let y = m * (cy - from.1) - n * (to.1 - from.1);
    x * x + y * y <= (m * radius) * (m * radius)
}

/// `(cx, cy)` lies in the capsule that a circle of that radius sweeps on its
/// way from `from` to `to`: near enough to some point of the way.
pub open spec fn swept(from: (int, int), to: (int, int), radius: int, cx: int, cy: int) -> bool {
    exists|n: int, m: int|
        0 <= n <= m && 0 < m && #[trigger] near_at(from, to, radius, cx, cy, n, m)
}

/// The test that decides `swept` without leaving the integers: the distance
/// to the nearer end, or, beside the segment, the distance to its line.
spec fn near_segment(from: (int, int), to: (int, int), radius: int, cx: int, cy: int) -> bool {
    let (dx, dy) = (to.0 - from.0, to.1 - from.1);
    let (px, py) = (cx - from.0, cy - from.1);
    let len2 = dx * dx + dy * dy;
    let dot = px * dx + py * dy;
    if dot <= 0 {
        px * px + py * py <= radius * radius
    } else if dot >= len2 {
        (px - dx) * (px - dx) + (py - dy) * (py - dy) <= radius * radius
    } else {
        let cross = px * dy - py * dx;
        cross * cross <= radius * radius * len2
    }
}

/// The integer test finds a point of the segment that is near enough.
proof fn lemma_near_segment_is_swept(
    from: (int, int),
    to: (int, int),
    radius: int,
    cx: int,
    cy: int,
)
    requires
        near_segment(from, to, radius, cx, cy),
    ensures
        swept(from, to, radius, cx, cy),
{
    let (dx, dy) = (to.0 - from.0, to.1 - from.1);
    let (px, py) = (cx - from.0, cy - from.1);
    let len2 = dx * dx + dy * dy;
    let dot = px * dx + py * dy;
    if dot <= 0 {
        assert(1 * px - 0 * dx == px && 1 * py - 0 * dy == py && 1 * radius == radius);
        assert(near_at(from, to, radius, cx, cy, 0, 1));
    } else if dot >= len2 {
        assert(1 * px - 1 * dx == px - dx && 1 * py - 1 * dy == py - dy && 1 * radius == radius);
        assert(near_at(from, to, radius, cx, cy, 1, 1));
    } else {
        let cross = px * dy - py * dx;
        lemma_foot(px, py, dx, dy, dot, len2, cross);
        let c2 = cross * cross;
        let r2 = radius * radius;
        assert(len2 * c2 <= len2 * (r2 * len2)) by {
            vstd::arithmetic::mul::lemma_mul_inequality(c2, r2 * len2, len2);
            vstd::arithmetic::mul::lemma_mul_is_commutative(c2, len2);
            vstd::arithmetic::mul::lemma_mul_is_commutative(r2 * len2, len2);
        }
        lemma_regroup(len2, radius);
        assert(near_at(from, to, radius, cx, cy, dot, len2));
    }
}

proof fn lemma_regroup(m: int, r: int)
    ensures
        (m * r) * (m * r) == m * ((r * r) * m),
{
    assert((m * r) * (m * r) == m * ((r * r) * m)) by (nonlinear_arith);
}

/// Squared distance to the foot of the perpendicular, cleared of fractions.
proof fn lemma_foot(px: int, py: int, dx: int, dy: int, dot: int, len2: int, cross: int)
    requires
        dot == px * dx + py * dy,
        len2 == dx * dx + dy * dy,
        cross == px * dy - py * dx,
    ensures
        (len2 * px - dot * dx) * (len2 * px - dot * dx) + (len2 * py - dot * dy) * (len2 * py - dot
            * dy) == len2 * (cross * cross),
{
    let x = len2 * px - dot * dx;
    let y = len2 * py - dot * dy;
    assert(x == dy * cross) by (nonlinear_arith)
        requires
            x == len2 * px - dot * dx,
            dot == px * dx + py * dy,
            len2 == dx * dx + dy * dy,
            cross == px * dy - py * dx,
    ;
    assert(y == -dx * cross) by (nonlinear_arith)
        requires
            y == len2 * py - dot * dy,
            dot == px * dx + py * dy,
            len2 == dx * dx + dy * dy,
            cross == px * dy - py * dx,
    ;
    assert(x * x + y * y == len2 * (cross * cross)) by (nonlinear_arith)
        requires
            x == dy * cross,
            y == -dx * cross,
            len2 == dx * dx + dy * dy,
    ;
}

proof fn lemma_swap(a: int, b: int, c: int, d: int)
    ensures
        (a * b) * (c * d) == (a * c) * (b * d),
{
    assert((a * b) * (c * d) == (a * c) * (b * d)) by (nonlinear_arith);
}

proof fn lemma_square_of_sum(a: int, b: int)
    ensures
        (a + b) * (a + b) == a * a + 2 * (a * b) + b * b,
        (a - b) * (a - b) == a * a - 2 * (a * b) + b * b,
{
    assert((a + b) * (a + b) == a * a + 2 * (a * b) + b * b) by (nonlinear_arith);
    assert((a - b) * (a - b) == a * a - 2 * (a * b) + b * b) by (nonlinear_arith);
}

proof fn lemma_spread(k: int, a: int, b: int)
    ensures
        k * (a + b) == k * a + k * b,
        k * (a - b) == k * a - k * b,
{
    assert(k * (a + b) == k * a + k * b) by (nonlinear_arith);
    assert(k * (a - b) == k * a - k * b) by (nonlinear_arith);
}

/// Squared distance to the point `n / m` of the way, cleared of fractions.
proof fn lemma_expand(px: int, py: int, dx: int, dy: int, n: int, m: int)
    ensures
        (m * px - n * dx) * (m * px - n * dx) + (m * py - n * dy) * (m * py - n * dy) == (m * m) * (
        px * px + py * py) - 2 * ((m * n) * (px * dx + py * dy)) + (n * n) * (dx * dx + dy * dy),
{
    lemma_expand_axis(px, dx, n, m);
    lemma_expand_axis(py, dy, n, m);
    lemma_spread(m * m, px * px, py * py);
    lemma_spread(m * n, px * dx, py * dy);
    lemma_spread(n * n, dx * dx, dy * dy);
}

proof fn lemma_expand_axis(p: int, d: int, n: int, m: int)
    ensures
        (m * p - n * d) * (m * p - n * d) == (m * m) * (p * p) - 2 * ((m * n) * (p * d)) + (n * n)
            * (d * d),
{
    lemma_square_of_sum(m * p, n * d);
    lemma_swap(m, p, m, p);
    lemma_swap(m, p, n, d);
    lemma_swap(n, d, n, d);
}

/// Lagrange's identity in the plane.
proof fn lemma_lagrange(px: int, py: int, dx: int, dy: int)
    ensures
        (dx * dx + dy * dy) * (px * px + py * py) == (px * dx + py * dy) * (px * dx + py * dy) + (px
            * dy - py * dx) * (px * dy - py * dx),
{
    let (a, b) = (dx * dx, dy * dy);
    let (c, d) = (px * px, py * py);
    assert((a + b) * (c + d) == a * c + a * d + b * c + b * d) by (nonlinear_arith);
    lemma_square_of_sum(px * dx, py * dy);
    lemma_square_of_sum(px * dy, py * dx);
    lemma_swap(px, dx, px, dx);
    lemma_swap(py, dy, py, dy);
    lemma_swap(px, dy, px, dy);
    lemma_swap(py, dx, py, dx);
    lemma_swap(px, dx, py, dy);
    lemma_swap(px, dy, py, dx);
    vstd::arithmetic::mul::lemma_mul_is_commutative(a, c);
    vstd::arithmetic::mul::lemma_mul_is_commutative(a, d);
    vstd::arithmetic::mul::lemma_mul_is_commutative(b, c);
    vstd::arithmetic::mul::lemma_mul_is_commutative(b, d);
    vstd::arithmetic::mul::lemma_mul_is_commutative(dx, dy);
}

/// No point of the segment is near enough where the integer test fails.
proof fn lemma_swept_is_near_segment(
    from: (int, int),
    to: (int, int),
    radius: int,
    cx: int,
    cy: int,
)
    requires
        swept(from, to, radius, cx, cy),
    ensures
        near_segment(from, to, radius, cx, cy),
{
    let (n, m) = choose|n: int, m: int|
        0 <= n <= m && 0 < m && #[trigger] near_at(from, to, radius, cx, cy, n, m);
    let (dx, dy) = (to.0 - from.0, to.1 - from.1);
    let (px, py) = (cx - from.0, cy - from.1);
    let len2 = dx * dx + dy * dy;
    let dot = px * dx + py * dy;
    let pp = px * px + py * py;
    let r2 = radius * radius;
    let f = (m * m) * pp - 2 * ((m * n) * dot) + (n * n) * len2;
    lemma_expand(px, py, dx, dy, n, m);
    assert((m * radius) * (m * radius) == (m * m) * r2) by (nonlinear_arith)
        requires
            r2 == radius * radius,
    ;
    assert(f <= (m * m) * r2);
    assert(len2 >= 0) by (nonlinear_arith)
        requires
            len2 == dx * dx + dy * dy,
    ;
    assert(m * m > 0) by (nonlinear_arith)
        requires
            m > 0,
    ;
    if dot <= 0 {
        lemma_before_start(n, m, dot, len2);
        lemma_cancel(m * m, pp, r2);
    } else if dot >= len2 {
        let e = (px - dx) * (px - dx) + (py - dy) * (py - dy);
        lemma_expand(px, py, dx, dy, 1, 1);
        assert(e == pp - 2 * dot + len2);
        lemma_past_end(n, m, dot, len2, pp);
        assert((m * m) * e <= f);
        lemma_cancel(m * m, e, r2);
    } else {
        let cross = px * dy - py * dx;
        let c2 = cross * cross;
        lemma_lagrange(px, py, dx, dy);
        lemma_beside(n, m, dot, len2, pp, c2);
        assert((m * m) * c2 <= len2 * f);
        assert(len2 * f <= len2 * ((m * m) * r2)) by (nonlinear_arith)
            requires
                f <= (m * m) * r2,
                len2 >= 0,
        ;
        assert(len2 * ((m * m) * r2) == (m * m) * (r2 * len2)) by (nonlinear_arith);
        lemma_cancel(m * m, c2, r2 * len2);
    }
}

proof fn lemma_cancel(k: int, a: int, b: int)
    requires
        k > 0,
        k * a <= k * b,
    ensures
        a <= b,
{
    vstd::arithmetic::mul::lemma_mul_is_commutative(k, a);
    vstd::arithmetic::mul::lemma_mul_is_commutative(k, b);
    vstd::arithmetic::mul::lemma_mul_inequality_converse(a, b, k);
}

proof fn lemma_before_start(n: int, m: int, dot: int, len2: int)
    requires
        0 <= n,
        0 < m,
        dot <= 0,
        len2 >= 0,
    ensures
        -2 * ((m * n) * dot) + (n * n) * len2 >= 0,
{
    assert(m * n >= 0 && n * n >= 0) by (nonlinear_arith)
        requires
            0 <= n,
            0 < m,
    ;
    let a = m * n;
    let b = n * n;
    assert(-2 * (a * dot) >= 0) by (nonlinear_arith)
        requires
            a >= 0,
            dot <= 0,
    ;
    assert(b * len2 >= 0) by (nonlinear_arith)
        requires
            b >= 0,
            len2 >= 0,
    ;
}

proof fn lemma_past_end(n: int, m: int, dot: int, len2: int, pp: int)
    requires
        0 <= n <= m,
        0 < m,
        dot >= len2,
        len2 >= 0,
    ensures
        (m * m) * (pp - 2 * dot + len2) <= (m * m) * pp - 2 * ((m * n) * dot) + (n * n) * len2,
{
    let u = m - n;
    let g = dot - len2;
    let mu = m * u;
    let uu = u * u;
    assert(mu >= 0 && uu >= 0) by (nonlinear_arith)
        requires
            u >= 0,
            m > 0,
            mu == m * u,
            uu == u * u,
    ;
    assert(mu * g >= 0) by (nonlinear_arith)
        requires
            mu >= 0,
            g >= 0,
    ;
    assert(uu * len2 >= 0) by (nonlinear_arith)
        requires
            uu >= 0,
            len2 >= 0,
    ;
    let (mm, mn, nn) = (m * m, m * n, n * n);
    lemma_spread(mm, pp - 2 * dot, len2);
    lemma_spread(mm, pp, 2 * dot);
    assert(mm * (2 * dot) == 2 * (mm * dot)) by (nonlinear_arith);
    lemma_spread(m, m, n);
    assert(mu == mm - mn);
    lemma_spread(mu, dot, len2);
    vstd::arithmetic::mul::lemma_mul_is_distributive_sub_other_way(dot, mm, mn);
    vstd::arithmetic::mul::lemma_mul_is_distributive_sub_other_way(len2, mm, mn);
    lemma_square_of_sum(m, n);
    assert(uu == mm - 2 * mn + nn);
    assert((mm - 2 * mn + nn) * len2 == mm * len2 - 2 * (mn * len2) + nn * len2)
        by (nonlinear_arith);
}

proof fn lemma_beside(n: int, m: int, dot: int, len2: int, pp: int, c2: int)
    requires
        len2 * pp == dot * dot + c2,
    ensures
        (m * m) * c2 <= len2 * ((m * m) * pp - 2 * ((m * n) * dot) + (n * n) * len2),
{
    let g = n * len2 - m * dot;
    assert(g * g >= 0) by (nonlinear_arith);
    lemma_square_of_sum(n * len2, m * dot);
    lemma_swap(n, len2, n, len2);
    lemma_swap(m, dot, m, dot);
    lemma_swap(n, len2, m, dot);
    vstd::arithmetic::mul::lemma_mul_is_commutative(n, m);
    vstd::arithmetic::mul::lemma_mul_is_commutative(len2, dot);
    let a = (m * m) * pp;
    let b = (m * n) * dot;
    let c = (n * n) * len2;
    assert(len2 * (a - 2 * b + c) == len2 * a - 2 * (len2 * b) + len2 * c) by (nonlinear_arith);
    assert(len2 * a == (m * m) * (len2 * pp)) by (nonlinear_arith)
        requires
            a == (m * m) * pp,
    ;
    assert(len2 * b == (m * n) * (dot * len2)) by (nonlinear_arith)
        requires
            b == (m * n) * dot,
    ;
    assert(len2 * c == (n * n) * (len2 * len2)) by (nonlinear_arith)
        requires
            c == (n * n) * len2,
    ;
    assert((m * m) * (dot * dot + c2) == (m * m) * (dot * dot) + (m * m) * c2)
        by (nonlinear_arith);
}

/// Whatever a stroke covers lies within `radius` of the box round its ends.
pub proof fn swept_in_box(from: (int, int), to: (int, int), radius: int, cx: int, cy: int)
    requires
        radius >= 0,
        swept(from, to, radius, cx, cy),
    ensures
        least(from.0, to.0) - radius <= cx <= most(from.0, to.0) + radius,
        least(from.1, to.1) - radius <= cy <= most(from.1, to.1) + radius,
{
    let (n, m) = choose|n: int, m: int|
        0 <= n <= m && 0 < m && #[trigger] near_at(from, to, radius, cx, cy, n, m);
    let (dx, dy) = (to.0 - from.0, to.1 - from.1);
    let (px, py) = (cx - from.0, cy - from.1);
    let x = m * px - n * dx;
    let y = m * py - n * dy;
    lemma_axis_in_box(px, dx, x, y, n, m, radius);
    lemma_axis_in_box(py, dy, y, x, n, m, radius);
}

proof fn lemma_axis_in_box(p: int, d: int, x: int, y: int, n: int, m: int, r: int)
    requires
        r >= 0,
        0 <= n <= m,
        0 < m,
        x == m * p - n * d,
        x * x + y * y <= (m * r) * (m * r),
    ensures
        d >= 0 ==> -r <= p <= d + r,
        d <= 0 ==> d - r <= p <= r,
{
    let k = m * r;
    assert(k >= 0 && y * y >= 0) by (nonlinear_arith)
        requires
            k == m * r,
            m > 0,
            r >= 0,
    ;
    assert(-k <= x <= k) by (nonlinear_arith)
        requires
            x * x <= k * k,
            k >= 0,
    ;
    if d >= 0 {
        assert(0 <= n * d <= m * d) by (nonlinear_arith)
            requires
                0 <= n <= m,
                d >= 0,
        ;
        assert(m * (-r) <= m * p && m * p <= m * (d + r)) by (nonlinear_arith)
            requires
                -(m * r) <= m * p - n * d,
                m * p - n * d <= m * r,
                0 <= n * d <= m * d,
        ;
        lemma_cancel(m, -r, p);
        lemma_cancel(m, p, d + r);
    }
    if d <= 0 {
        assert(m * d <= n * d <= 0) by (nonlinear_arith)
            requires
                0 <= n <= m,
                d <= 0,
        ;
        assert(m * (d - r) <= m * p && m * p <= m * r) by (nonlinear_arith)
            requires
                -(m * r) <= m * p - n * d,
                m * p - n * d <= m * r,
                m * d <= n * d <= 0,
        ;
        lemma_cancel(m, d - r, p);
        lemma_cancel(m, p, r);
    }
}

/// How far a stroke's numbers lie apart at most.
const REACH: i128 = 0xffff_ffff_ffff_ffff;

/// A product of two such distances: whether it is below 0, and its size.
fn signed_product(a: i128, b: i128) -> (r: (bool, u128))
    requires
        -REACH <= a <= REACH,
        -REACH <= b <= REACH,
    ensures
        a * b == if r.0 { -(r.1 as int) } else { r.1 as int },
        a == b ==> !r.0,
{
    let x: u128 = if a < 0 {
        (-a) as u128
    } else {
        a as u128
    };
    let y: u128 = if b < 0 {
        (-b) as u128
    } else {
        b as u128
    };
    assert(0 <= x * y <= 0xffff_ffff_ffff_ffff_ffff_ffff_ffff_ffff) by (nonlinear_arith)
        requires
            x <= 0xffff_ffff_ffff_ffff,
            y <= 0xffff_ffff_ffff_ffff,
    ;
    assert((-(x as int)) * y == -(x * y) && x * (-(y as int)) == -(x * y) && (-(x as int)) * (-(
    y as int)) == x * y) by (nonlinear_arith);
    ((a < 0) != (b < 0), x * y)
}

/// Whether `a * b + c * d` is at most 0.
fn sum_at_most_zero(a: i128, b: i128, c: i128, d: i128) -> (r: bool)
    requires
        -REACH <= a <= REACH,
        -REACH <= b <= REACH,
        -REACH <= c <= REACH,
        -REACH <= d <= REACH,
    ensures
        r == (a * b + c * d <= 0),
{
    let x = signed_product(a, b);
    let y = signed_product(c, d);
    if x.0 && y.0 {
        true
    } else if x.0 {
        y.1 <= x.1
    } else if y.0 {
        x.1 <= y.1
    } else {
        x.1 == 0 && y.1 == 0
    }
}

/// Whether `a * a + b * b` is at most `r * r`.
fn within(a: i128, b: i128, r: i128) -> (b_in: bool)
    requires
        -REACH <= a <= REACH,
        -REACH <= b <= REACH,
        -REACH <= r <= REACH,
    ensures
        b_in == (a * a + b * b <= r * r),
{
    let x = signed_product(a, a);
    let y = signed_product(b, b);
    let z = signed_product(r, r);
    x.1 <= z.1 && y.1 <= z.1 - x.1
}

/// Whether `a * b - c * d` squared is at most `r * r * (b * b + d * d)`.
fn beside(a: i128, b: i128, c: i128, d: i128, r: i128) -> (b_in: bool)
    requires
        -REACH <= a <= REACH,
        -REACH <= b <= REACH,
        -REACH <= c <= REACH,
        -REACH <= d <= REACH,
        -REACH <= r <= REACH,
    ensures
        b_in == ((a * b - c * d) * (a * b - c * d) <= r * r * (d * d + b * b)),
{
    let x = signed_product(a, b);
    let y = signed_product(c, d);
    let cross = if x.0 != y.0 {
        wide_sum(x.1, y.1)
    } else if x.1 >= y.1 {
        wide_sum(x.1 - y.1, 0)
    } else {
        wide_sum(y.1 - x.1, 0)
    };
    let bb = signed_product(b, b);
    let dd = signed_product(d, d);
    let rr = signed_product(r, r);
    let len2 = wide_sum(dd.1, bb.1);
    let r2 = wide_sum(rr.1, 0);
    let ghost (k, n) = (a * b - c * d, wide(cross));
    assert(n == k || n == -k);
    assert(n * n == k * k) by (nonlinear_arith)
        requires
            n == k || n == -k,
    ;
    wide_at_most(wide_times(cross, cross), wide_times(r2, len2))
}

/// Whether a stroke of that radius covers `(cx, cy)`.
pub fn in_capsule(from: (i64, i64), to: (i64, i64), radius: i64, cx: i64, cy: i64) -> (r: bool)
    requires
        0 <= cx <= 0x2_0000_0000_0000,
        0 <= cy <= 0x2_0000_0000_0000,
    ensures
        r == swept(
            (from.0 as int, from.1 as int),
            (to.0 as int, to.1 as int),
            radius as int,
            cx as int,
            cy as int,
        ),
{
    proof {
        let f = (from.0 as int, from.1 as int);
        let g = (to.0 as int, to.1 as int);
        if near_segment(f, g, radius as int, cx as int, cy as int) {
            lemma_near_segment_is_swept(f, g, radius as int, cx as int, cy as int);
        }
        if swept(f, g, radius as int, cx as int, cy as int) {
            lemma_swept_is_near_segment(f, g, radius as int, cx as int, cy as int);
        }
    }
    let dx: i128 = to.0 as i128 - from.0 as i128;
    let dy: i128 = to.1 as i128 - from.1 as i128;
    let px: i128 = cx as i128 - from.0 as i128;
    let py: i128 = cy as i128 - from.1 as i128;
    let (qx, qy) = (px - dx, py - dy);
    let r: i128 = radius as i128;
    proof {
        lemma_spread(dx as int, px as int, dx as int);
        lemma_spread(dy as int, py as int, dy as int);
        vstd::arithmetic::mul::lemma_mul_is_commutative(dx as int, px - dx);
        vstd::arithmetic::mul::lemma_mul_is_commutative(dy as int, py - dy);
        vstd::arithmetic::mul::lemma_mul_is_commutative(dx as int, px as int);
        vstd::arithmetic::mul::lemma_mul_is_commutative(dy as int, py as int);
        assert((-qx) * dx == -(qx * dx) && (-qy) * dy == -(qy * dy)) by (nonlinear_arith);
    }
    if sum_at_most_zero(px, dx, py, dy) {
        within(px, py, r)
    } else if sum_at_most_zero(-qx, dx, -qy, dy) {
        within(qx, qy, r)
    } else {
        beside(px, dy, py, dx, r)
    }
}

/// Half the bits of a wide factor.
const HALF: u128 = 0x4000_0000_0000_0000;

/// Bound on the factors of a wide product.
const WHOLE: u128 = 0x1000_0000_0000_0000_0000_0000_0000_0000;

proof fn lemma_halves(a1: int, a0: int, b1: int, b0: int)
    requires
        0 <= a1 < HALF,
        0 <= a0 < HALF,
        0 <= b1 < HALF,
        0 <= b0 < HALF,
    ensures
        (a1 * HALF + a0) * (b1 * HALF + b0) == (a1 * b1) * WHOLE + (a1 * b0 + a0 * b1) * HALF + a0
            * b0,
        0 <= a1 * b1 < WHOLE,
        0 <= a1 * b0 < WHOLE,
        0 <= a0 * b1 < WHOLE,
        0 <= a0 * b0 < WHOLE,
{
    let h = HALF as int;
    let (a, b) = (a1 * h, b1 * h);
    assert((a + a0) * (b + b0) == a * b + a * b0 + a0 * b + a0 * b0) by (nonlinear_arith);
    lemma_swap(a1, h, b1, h);
    lemma_swap(a1, h, b0, 1);
    lemma_swap(a0, 1, b1, h);
    assert(a * b == (a1 * b1) * WHOLE);
    assert(a * b0 == (a1 * b0) * h);
    assert(a0 * b == (a0 * b1) * h);
    vstd::arithmetic::mul::lemma_mul_is_distributive_add_other_way(h, a1 * b0, a0 * b1);
    lemma_half_product(a1, b1);
    lemma_half_product(a1, b0);
    lemma_half_product(a0, b1);
    lemma_half_product(a0, b0);
}

proof fn lemma_half_product(a: int, b: int)
    requires
        0 <= a < HALF,
        0 <= b < HALF,
    ensures
        0 <= a * b < WHOLE,
{
    assert(0 <= a * b < 0x1000_0000_0000_0000_0000_0000_0000_0000) by (nonlinear_arith)
        requires
            0 <= a < 0x4000_0000_0000_0000,
            0 <= b < 0x4000_0000_0000_0000,
    ;
}

/// The product of two wide factors, in units of `WHOLE` and what is left.
fn wide_product(a: u128, b: u128) -> (r: (u128, u128))
    requires
        a < WHOLE,
        b < WHOLE,
    ensures
        r.0 * WHOLE + r.1 == a * b,
        r.1 < WHOLE,
{
    let (a1, a0) = (a / HALF, a % HALF);
    let (b1, b0) = (b / HALF, b % HALF);
    proof {
        lemma_halves(a1 as int, a0 as int, b1 as int, b0 as int);
        assert(a == a1 * HALF + a0 && b == b1 * HALF + b0);
    }
    let mid: u128 = a1 * b0 + a0 * b1;
    let (m1, m0) = (mid / HALF, mid % HALF);
    let low: u128 = a0 * b0 + m0 * HALF;
    (a1 * b1 + m1 + low / WHOLE, low % WHOLE)
}

/// A number of a few more bits: how often it holds `WHOLE`, and what is left.
#[derive(Clone, Copy)]
struct Wide {
    hi: u128,
    lo: u128,
}

spec fn wide(a: Wide) -> int {
    a.hi * WHOLE + a.lo
}

spec fn wide_ok(a: Wide) -> bool {
    a.hi <= 0x40 && a.lo < WHOLE
}

fn wide_sum(a: u128, b: u128) -> (r: Wide)
    ensures
        wide(r) == a + b,
        wide_ok(r),
{
    let lo: u128 = a % WHOLE + b % WHOLE;
    Wide { hi: a / WHOLE + b / WHOLE + lo / WHOLE, lo: lo % WHOLE }
}

/// A product of two such numbers, in three digits to the base `WHOLE`.
struct Digits {
    d2: u128,
    d1: u128,
    d0: u128,
}

spec fn digits(a: Digits) -> int {
    a.d2 * (WHOLE * WHOLE) + a.d1 * WHOLE + a.d0
}

proof fn lemma_wide_product(ah: int, al: int, bh: int, bl: int)
    ensures
        (ah * WHOLE + al) * (bh * WHOLE + bl) == (ah * bh) * (WHOLE * WHOLE) + (ah * bl) * WHOLE + (
        al * bh) * WHOLE + al * bl,
{
    let h = WHOLE as int;
    let (a, b) = (ah * h, bh * h);
    assert((a + al) * (b + bl) == a * b + a * bl + al * b + al * bl) by (nonlinear_arith);
    lemma_swap(ah, h, bh, h);
    lemma_swap(ah, h, bl, 1);
    lemma_swap(al, 1, bh, h);
    assert(a * b == (ah * bh) * (h * h));
    assert(a * bl == (ah * bl) * h);
    assert(al * b == (al * bh) * h);
}

fn wide_times(a: Wide, b: Wide) -> (r: Digits)
    requires
        wide_ok(a),
        wide_ok(b),
    ensures
        digits(r) == wide(a) * wide(b),
        r.d0 < WHOLE,
        r.d1 < WHOLE,
{
    let p = wide_product(a.lo, b.lo);
    let x = wide_product(a.hi, b.lo);
    let y = wide_product(a.lo, b.hi);
    proof {
        lemma_wide_product(a.hi as int, a.lo as int, b.hi as int, b.lo as int);
        lemma_high(a.lo as int, b.lo as int, p.0 as int, p.1 as int);
        lemma_high(a.hi as int, b.lo as int, x.0 as int, x.1 as int);
        lemma_high(a.lo as int, b.hi as int, y.0 as int, y.1 as int);
        assert(0 <= a.hi * b.hi <= 0x1000) by (nonlinear_arith)
            requires
                a.hi <= 0x40,
                b.hi <= 0x40,
        ;
    }
    let s: u128 = p.0 + x.1 + y.1;
    Digits { d2: a.hi * b.hi + x.0 + y.0 + s / WHOLE, d1: s % WHOLE, d0: p.1 }
}

proof fn lemma_high(a: int, b: int, hi: int, lo: int)
    requires
        0 <= a < WHOLE,
        0 <= b < WHOLE,
        0 <= hi,
        0 <= lo < WHOLE,
        hi * WHOLE + lo == a * b,
    ensures
        hi < WHOLE,
{
    let h = WHOLE as int;
    assert(a * b < h * h) by (nonlinear_arith)
        requires
            0 <= a < h,
            0 <= b < h,
    ;
    assert(hi < h) by (nonlinear_arith)
        requires
            hi * h <= a * b,
            a * b < h * h,
            h > 0,
    ;
}

/// The first digits decide.
proof fn lemma_digits(a: Digits, b: Digits)
    requires
        a.d0 < WHOLE,
        a.d1 < WHOLE,
        b.d0 < WHOLE,
        b.d1 < WHOLE,
        a.d2 < b.d2,
    ensures
        digits(a) < digits(b),
{
    let h = WHOLE as int;
    let hh = h * h;
    assert((a.d2 + 1) * hh <= b.d2 * hh) by (nonlinear_arith)
        requires
            a.d2 + 1 <= b.d2,
            hh == h * h,
    ;
    assert((a.d2 + 1) * hh == a.d2 * hh + hh) by (nonlinear_arith);
    assert(a.d1 * h + h <= hh) by (nonlinear_arith)
        requires
            a.d1 + 1 <= h,
            hh == h * h,
            h > 0,
    ;
}

fn wide_at_most(a: Digits, b: Digits) -> (r: bool)
    requires
        a.d0 < WHOLE,
        a.d1 < WHOLE,
        b.d0 < WHOLE,
        b.d1 < WHOLE,
    ensures
        r == (digits(a) <= digits(b)),
{
    proof {
        if a.d2 < b.d2 {
            lemma_digits(a, b);
        }
        if b.d2 < a.d2 {
            lemma_digits(b, a);
        }
    }
    a.d2 < b.d2 || (a.d2 == b.d2 && (a.d1 < b.d1 || (a.d1 == b.d1 && a.d0 <= b.d0)))
}

} // verus!
