//! Zooming in on a point: the picture's edges never have to move it.

use crate::geometry::{
    a_zoom_holds_the_point_under_the_pointer, center_for, half, half_view, panned, share, spot,
    zoom_ok, CELL_LIMIT,
};
use crate::units::{held, round_div_bounds, round_div_is_nearest, scaled, ONE};
use vstd::prelude::*;

verus! {

/// One axis of a zoom from `zoom` to `new` round the pointer at `at`, over a
/// picture of `len` that lies at `from` when it is not zoomed, the view's
/// middle at `c`: the pointer is over the picture, and the view inside it.
pub open spec fn zooms_in(c: int, at: int, from: int, len: int, zoom: int, new: int) -> bool {
    &&& 0 < len <= CELL_LIMIT
    &&& zoom_ok(zoom)
    &&& zoom_ok(new)
    &&& zoom <= new
    &&& half_view(zoom) <= c <= ONE - half_view(zoom)
    &&& from <= at <= from + len
}

/// The content point under the pointer.
pub open spec fn pointed_at(c: int, at: int, from: int, len: int, zoom: int) -> int {
    let w = scaled(len, zoom);
    spot(at, from + half(len) - scaled(w, c), w)
}

/// The zoomed length, cleared of its fraction.
proof fn lemma_zoomed_length(len: int, zoom: int)
    requires
        0 < len <= CELL_LIMIT,
        zoom_ok(zoom),
    ensures
        2 * (ONE * scaled(len, zoom)) <= 2 * (len * zoom) + ONE,
        2 * (len * zoom) < 2 * (ONE * scaled(len, zoom)) + ONE,
        scaled(len, zoom) >= len,
{
    round_div_is_nearest(len * zoom, ONE as int);
    assert(len * ONE <= len * zoom <= (32 * len) * ONE) by (nonlinear_arith)
        requires
            0 < len,
            ONE <= zoom <= 32 * ONE,
            ONE == 1_000_000_000,
    ;
    round_div_bounds(len * zoom, ONE as int, len, 32 * len);
}

/// The view takes as much of the picture as the zoom says: what `half_view`
/// is of the ratio, `len` is of the length, but for rounding.
proof fn lemma_view_of_length(len: int, zoom: int, k: int)
    requires
        0 < len <= CELL_LIMIT,
        zoom_ok(zoom),
        k > 0,
    ensures
        ({
            let p = scaled(len, zoom) * k;
            let l = (len * ONE) * k;
            let o = ONE * k;
            &&& 4 * (p * half_view(zoom)) >= 2 * l - o - 2 * p
            &&& 2 * l >= 4 * (p * half_view(zoom)) - 2 * p - o
        }),
{
    let one = ONE as int;
    let w = scaled(len, zoom);
    let h = half_view(zoom);
    lemma_zoomed_length(len, zoom);
    round_div_is_nearest(one * one, 2 * zoom);
    let zh = zoom * h;
    assert(2 * zh <= one * one + zoom && one * one - zoom < 2 * zh) by (nonlinear_arith)
        requires
            zh == zoom * h,
            2 * (2 * zoom) * h <= 2 * (one * one) + 2 * zoom,
            2 * (one * one) + 2 * zoom < 2 * (2 * zoom) * h + 2 * (2 * zoom),
    ;
    lemma_view_step(w, len, zoom, h, zh, one);
    let p = w * k;
    let l = (len * one) * k;
    let a = 4 * (w * h) - 2 * (len * one) + one + 2 * w;
    let b = 2 * (len * one) - 4 * (w * h) + 2 * w + one;
    assert(a * k >= 0 && b * k >= 0) by (nonlinear_arith)
        requires
            a >= 0,
            b >= 0,
            k > 0,
    ;
    let (wh, lo) = (w * h, len * one);
    assert(a * k == 4 * (wh * k) - 2 * (lo * k) + one * k + 2 * (w * k)) by (nonlinear_arith)
        requires
            a == 4 * wh - 2 * lo + one + 2 * w,
    ;
    assert(b * k == 2 * (lo * k) - 4 * (wh * k) + 2 * (w * k) + one * k) by (nonlinear_arith)
        requires
            b == 2 * lo - 4 * wh + 2 * w + one,
    ;
    assert(p * h == wh * k) by (nonlinear_arith)
        requires
            p == w * k,
            wh == w * h,
    ;
}

proof fn lemma_view_step(w: int, len: int, zoom: int, h: int, zh: int, one: int)
    requires
        w > 0,
        one > 0,
        zoom >= one,
        zh == zoom * h,
        2 * zh <= one * one + zoom,
        one * one - zoom < 2 * zh,
        2 * (one * w) <= 2 * (len * zoom) + one,
        2 * (len * zoom) < 2 * (one * w) + one,
    ensures
        4 * (w * h) - 2 * (len * one) + one + 2 * w >= 0,
        2 * (len * one) - 4 * (w * h) + 2 * w + one >= 0,
{
    let wzh = w * zh;
    let ow = one * w;
    let oo = one * one;
    let lz = len * zoom;
    assert(2 * wzh <= w * oo + w * zoom && w * oo - w * zoom <= 2 * wzh) by (nonlinear_arith)
        requires
            w > 0,
            wzh == w * zh,
            2 * zh <= oo + zoom,
            oo - zoom < 2 * zh,
    ;
    assert(one * ow == w * oo) by (nonlinear_arith)
        requires
            ow == one * w,
            oo == one * one,
    ;
    assert(2 * (one * ow) <= 2 * (one * lz) + oo && 2 * (one * lz) <= 2 * (one * ow) + oo)
        by (nonlinear_arith)
        requires
            one > 0,
            oo == one * one,
            2 * ow <= 2 * lz + one,
            2 * lz < 2 * ow + one,
    ;
    assert(oo <= one * zoom) by (nonlinear_arith)
        requires
            oo == one * one,
            zoom >= one,
            one > 0,
    ;
    let a = 4 * (w * h) - 2 * (len * one) + one + 2 * w;
    let b = 2 * (len * one) - 4 * (w * h) + 2 * w + one;
    let (wh, lo) = (w * h, len * one);
    assert(zoom * wh == wzh) by (nonlinear_arith)
        requires
            wh == w * h,
            zh == zoom * h,
            wzh == w * zh,
    ;
    assert(zoom * lo == one * lz) by (nonlinear_arith)
        requires
            lo == len * one,
            lz == len * zoom,
    ;
    assert(zoom * w == w * zoom && zoom * one == one * zoom) by (nonlinear_arith);
    assert(zoom * a == 4 * (zoom * wh) - 2 * (zoom * lo) + zoom * one + 2 * (zoom * w))
        by (nonlinear_arith)
        requires
            a == 4 * wh - 2 * lo + one + 2 * w,
    ;
    assert(zoom * b == 2 * (zoom * lo) - 4 * (zoom * wh) + 2 * (zoom * w) + zoom * one)
        by (nonlinear_arith)
        requires
            b == 2 * lo - 4 * wh + 2 * w + one,
    ;
    assert(a >= 0) by (nonlinear_arith)
        requires
            zoom * a >= 0,
            zoom > 0,
    ;
    assert(b >= 0) by (nonlinear_arith)
        requires
            zoom * b >= 0,
            zoom > 0,
    ;
}

/// A longer zoom shows less of the picture, and a longer picture.
proof fn lemma_longer_zoom(len: int, zoom: int, new: int)
    requires
        0 < len <= CELL_LIMIT,
        zoom_ok(zoom),
        zoom_ok(new),
        zoom <= new,
    ensures
        scaled(len, zoom) <= scaled(len, new),
        half_view(new) <= half_view(zoom),
        2 * half_view(new) <= ONE,
{
    let one = ONE as int;
    round_div_is_nearest(len * zoom, one);
    round_div_is_nearest(len * new, one);
    assert(len * zoom <= len * new) by (nonlinear_arith)
        requires
            zoom <= new,
            len > 0,
    ;
    let (h, g) = (half_view(zoom), half_view(new));
    round_div_is_nearest(one * one, 2 * zoom);
    round_div_is_nearest(one * one, 2 * new);
    crate::geometry::lemma_half_view(new);
    crate::geometry::lemma_half_view(zoom);
    if g > h {
        let (d, e) = (2 * zoom, 2 * new);
        assert(2 * e * (h + 1) <= 2 * e * g && 2 * d * h + d <= 2 * e * h + e) by (nonlinear_arith)
            requires
                g >= h + 1,
                h >= 0,
                0 < d <= e,
        ;
        assert(2 * e * (h + 1) == 2 * e * h + 2 * e) by (nonlinear_arith);
    }
}

/// The view's middle that a zoom in asks for keeps the view inside the
/// picture, but for rounding.
proof fn lemma_zoom_in(c: int, at: int, from: int, len: int, zoom: int, new: int)
    requires
        zooms_in(c, at, from, len, zoom, new),
    ensures
        ({
            let w = scaled(len, zoom);
            let x = center_for(pointed_at(c, at, from, len, zoom), at, from, len, new);
            &&& 4 * (w * (half_view(new) - x)) <= 8 * w + 5 * ONE
            &&& 4 * (w * (x - (ONE - half_view(new)))) <= 8 * w + 5 * ONE
        }),
{
    let one = ONE as int;
    let w = scaled(len, zoom);
    let v = scaled(len, new);
    let (h, g) = (half_view(zoom), half_view(new));
    lemma_zoomed_length(len, zoom);
    lemma_zoomed_length(len, new);
    lemma_longer_zoom(len, zoom, new);
    lemma_view_of_length(len, zoom, v);
    lemma_view_of_length(len, new, w);
    round_div_is_nearest(len, 2);
    let d = from + half(len) - at;
    assert(-len <= 2 * d <= len + 1);
    let sc = scaled(w, c);
    let s = share(sc - d, w);
    let p = share(d, v);
    let u = pointed_at(c, at, from, len, zoom);
    let x = u + p;
    assert(u == held(s, 0, one)) by {
        assert(at - (from + half(len) - sc) == sc - d);
    }
    round_div_is_nearest(w * c, one);
    round_div_is_nearest((sc - d) * one, w);
    round_div_is_nearest(d * one, v);
    let q = w * v;
    assert(q > 0) by (nonlinear_arith)
        requires
            q == w * v,
            w > 0,
            v > 0,
    ;
    assert(v * w == q) by (nonlinear_arith)
        requires
            q == w * v,
    ;
    // Each rounding, brought to the one denominator `2 * q`.
    let dv = (d * one) * v;
    let dw = (d * one) * w;
    let (lw, lv) = ((len * one) * w, (len * one) * v);
    let (ow, ov) = (one * w, one * v);
    lemma_share_scaled(w, v, c, sc, d, s, one);
    assert(2 * (q * p) <= 2 * dw + q && 2 * dw <= 2 * (q * p) + q) by (nonlinear_arith)
        requires
            w > 0,
            q == w * v,
            dw == (d * one) * w,
            2 * v * p <= 2 * (d * one) + v,
            2 * (d * one) + v < 2 * v * p + 2 * v,
    ;
    // The pointer is over the picture.
    let over = one * (v - w);
    assert(dv - dw == d * over) by (nonlinear_arith)
        requires
            dv == (d * one) * v,
            dw == (d * one) * w,
            over == one * (v - w),
    ;
    assert(lv - lw == len * over) by (nonlinear_arith)
        requires
            lv == (len * one) * v,
            lw == (len * one) * w,
            over == one * (v - w),
    ;
    assert(over == ov - ow) by (nonlinear_arith)
        requires
            over == one * (v - w),
            ov == one * v,
            ow == one * w,
    ;
    assert(over >= 0) by (nonlinear_arith)
        requires
            over == one * (v - w),
            one > 0,
            v >= w,
    ;
    assert(2 * (d * over) <= len * over + over && -(len * over) <= 2 * (d * over))
        by (nonlinear_arith)
        requires
            over >= 0,
            -len <= 2 * d <= len + 1,
    ;
    assert(2 * dw <= lw + ow && -lw <= 2 * dw) by (nonlinear_arith)
        requires
            dw == (d * one) * w,
            lw == (len * one) * w,
            ow == one * w,
            one > 0,
            w > 0,
            -len <= 2 * d <= len + 1,
    ;
    assert(ow > 0 && ov > 0) by (nonlinear_arith)
        requires
            ow == one * w,
            ov == one * v,
            one > 0,
            w > 0,
            v > 0,
    ;
    assert(q * h <= q * c && q * c <= q * (one - h)) by (nonlinear_arith)
        requires
            q > 0,
            h <= c <= one - h,
    ;
    assert(q * (one - h) == q * one - q * h && q * (one - g) == q * one - q * g) by (nonlinear_arith);
    assert(2 * (q * g) <= q * one) by (nonlinear_arith)
        requires
            q > 0,
            2 * g <= one,
    ;
    assert(q * x == q * u + q * p) by (nonlinear_arith)
        requires
            x == u + p,
    ;
    if s > one {
        assert(q * u == q * one);
        assert(q * u <= q * s) by (nonlinear_arith)
            requires
                u <= s,
                q > 0,
        ;
    } else if s < 0 {
        assert(q * u == 0) by (nonlinear_arith)
            requires
                u == 0,
        ;
        assert(q * u >= q * s) by (nonlinear_arith)
            requires
                u >= s,
                q > 0,
        ;
    }
    assert(4 * (q * x) >= 4 * (q * g) - 8 * q - 5 * ov);
    assert(4 * (q * x) <= 4 * (q * (one - g)) + 8 * q + 5 * ov);
    lemma_drop_factor(w, v, q, g, x, one, ov);
    lemma_drop_factor(w, v, q, x, one - g, one, ov);
}

/// The share of the pointer's place, brought to the denominator `2 * w * v`.
proof fn lemma_share_scaled(w: int, v: int, c: int, sc: int, d: int, s: int, one: int)
    requires
        w > 0,
        v > 0,
        one > 0,
        2 * one * sc <= 2 * (w * c) + one,
        2 * (w * c) + one < 2 * one * sc + 2 * one,
        2 * w * s <= 2 * ((sc - d) * one) + w,
        2 * ((sc - d) * one) + w < 2 * w * s + 2 * w,
    ensures
        2 * ((w * v) * s) <= 2 * ((w * v) * c) + one * v - 2 * ((d * one) * v) + w * v,
        2 * ((w * v) * s) >= 2 * ((w * v) * c) - one * v - 2 * ((d * one) * v) - w * v,
{
    let (ws, so, wc, e) = (w * s, sc * one, w * c, d * one);
    assert((sc - d) * one == so - e) by (nonlinear_arith)
        requires
            so == sc * one,
            e == d * one,
    ;
    assert(2 * w * s == 2 * ws && 2 * one * sc == 2 * so) by (nonlinear_arith)
        requires
            ws == w * s,
            so == sc * one,
    ;
    assert(2 * ws <= 2 * wc + one - 2 * e + w && 2 * ws >= 2 * wc - one - 2 * e - w);
    assert((w * v) * s == ws * v && (w * v) * c == wc * v) by (nonlinear_arith)
        requires
            ws == w * s,
            wc == w * c,
    ;
    assert(2 * (ws * v) <= 2 * (wc * v) + one * v - 2 * (e * v) + w * v && 2 * (ws * v) >= 2 * (wc
        * v) - one * v - 2 * (e * v) - w * v) by (nonlinear_arith)
        requires
            v > 0,
            2 * ws <= 2 * wc + one - 2 * e + w,
            2 * ws >= 2 * wc - one - 2 * e - w,
    ;
}

proof fn lemma_drop_factor(w: int, v: int, q: int, a: int, b: int, one: int, ov: int)
    requires
        v > 0,
        q == w * v,
        ov == one * v,
        4 * (q * b) >= 4 * (q * a) - 8 * q - 5 * ov,
    ensures
        4 * (w * (a - b)) <= 8 * w + 5 * one,
{
    let t = 4 * (w * (a - b)) - 8 * w - 5 * one;
    assert(t * v == 4 * (q * a) - 4 * (q * b) - 8 * q - 5 * ov) by (nonlinear_arith)
        requires
            q == w * v,
            ov == one * v,
            t == 4 * (w * (a - b)) - 8 * w - 5 * one,
    ;
    assert(t <= 0) by (nonlinear_arith)
        requires
            t * v <= 0,
            v > 0,
    ;
}

/// A small move of the view's middle moves the picture little.
proof fn lemma_small_move(v: int, w: int, a: int, b: int)
    requires
        v >= w > 0,
        a >= b,
        4 * (w * (a - b)) <= 8 * w + 5 * ONE,
    ensures
        0 <= scaled(v, a) - scaled(v, b) <= 4 + 2 * (v / (ONE as int)) + 2 * (v / w),
{
    let one = ONE as int;
    let e = a - b;
    let (cl, k) = (v / one, v / w);
    vstd::arithmetic::div_mod::lemma_fundamental_div_mod(v, one);
    vstd::arithmetic::div_mod::lemma_mod_bound(v, one);
    vstd::arithmetic::div_mod::lemma_fundamental_div_mod(v, w);
    vstd::arithmetic::div_mod::lemma_mod_bound(v, w);
    assert(v <= one * (cl + 1) && v <= w * (k + 1)) by (nonlinear_arith)
        requires
            v == one * cl + v % one,
            v % one < one,
            v == w * k + v % w,
            v % w < w,
    ;
    assert(cl >= 0 && k >= 0) by {
        vstd::arithmetic::div_mod::lemma_div_pos_is_pos(v, one);
        vstd::arithmetic::div_mod::lemma_div_pos_is_pos(v, w);
    }
    let ve = v * e;
    let f = one * (2 * cl + 2 * k + 4);
    let we = w * e;
    assert(4 * (we * v) <= 8 * (w * v) + 5 * (one * v)) by (nonlinear_arith)
        requires
            4 * we <= 8 * w + 5 * one,
            v > 0,
    ;
    let ow = one * w;
    assert(w * v <= ow * (cl + 1)) by (nonlinear_arith)
        requires
            v <= one * (cl + 1),
            w > 0,
            ow == one * w,
    ;
    assert(one * v <= ow * (k + 1)) by (nonlinear_arith)
        requires
            v <= w * (k + 1),
            one > 0,
            ow == one * w,
    ;
    assert(8 * (ow * (cl + 1)) + 5 * (ow * (k + 1)) <= 4 * (ow * (2 * cl + 2 * k + 4)))
        by (nonlinear_arith)
        requires
            ow > 0,
            cl >= 0,
            k >= 0,
    ;
    assert(we * v == w * ve && ow * (2 * cl + 2 * k + 4) == w * f) by (nonlinear_arith)
        requires
            we == w * e,
            ve == v * e,
            ow == one * w,
            f == one * (2 * cl + 2 * k + 4),
    ;
    assert(ve <= f) by (nonlinear_arith)
        requires
            w * ve <= w * f,
            w > 0,
    ;
    assert(ve >= 0 && v * a == v * b + ve) by (nonlinear_arith)
        requires
            ve == v * e,
            e == a - b,
            e >= 0,
            v > 0,
    ;
    round_div_is_nearest(v * a, one);
    round_div_is_nearest(v * b, one);
}

/// Zooming in keeps the content point under the pointer where it is: along
/// one axis, with the pointer over the picture, the point lies under the
/// pointer again at the new zoom, but for rounding.
pub proof fn a_zoom_in_holds_the_point_under_the_pointer(
    c: int,
    at: int,
    from: int,
    len: int,
    zoom: int,
    new: int,
)
    requires
        zooms_in(c, at, from, len, zoom, new),
    ensures
        ({
            let w = scaled(len, zoom);
            let v = scaled(len, new);
            let u = pointed_at(c, at, from, len, zoom);
            let m = panned(center_for(u, at, from, len, new), new);
            let x = from + half(len) - scaled(v, m);
            let e = 6 + 3 * (v / (ONE as int)) + 2 * (v / w);
            -e <= x + scaled(v, u) - at <= e
        }),
{
    let w = scaled(len, zoom);
    let v = scaled(len, new);
    let u = pointed_at(c, at, from, len, zoom);
    let y = center_for(u, at, from, len, new);
    let m = panned(y, new);
    lemma_zoomed_length(len, zoom);
    lemma_longer_zoom(len, zoom, new);
    lemma_zoom_in(c, at, from, len, zoom, new);
    a_zoom_holds_the_point_under_the_pointer(u, at, from, len, new);
    if m >= y {
        if m == y {
            assert(w * (m - y) == 0) by (nonlinear_arith)
                requires
                    m == y,
            ;
        }
        lemma_small_move(v, w, m, y);
    } else {
        lemma_small_move(v, w, y, m);
    }
}

} // verus!
