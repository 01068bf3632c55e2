//! Where the picture sits: the fit into its cell, and the zoom and pan that
//! every video shares.

use crate::items::RectPx;
use crate::units::{
    div_round, held, ratio_of, round_div, round_div_bounds, round_div_exact, round_div_is_nearest,
    scaled, ONE,
};
use vstd::prelude::*;

verus! {

/// The strongest zoom.
pub const ZOOM_MAX: i64 = 32_000_000_000;

/// A zoom counts as one only from here on.
pub const ZOOM_MIN: i64 = 1_001_000_000;

/// Bound on the sides of a window or cell.
pub const CELL_LIMIT: i64 = 0x1_0000_0000;

/// Half of a length, rounded.
pub open spec fn half(v: int) -> int {
    round_div(v, 2)
}

/// A rectangle from its numbers.
pub open spec fn rect(x: int, y: int, w: int, h: int) -> RectPx {
    RectPx { x: x as i64, y: y as i64, w: w as i64, h: h as i64 }
}

/// Whether a cell lies in the range that windows have.
pub open spec fn cell_ok(c: RectPx) -> bool {
    &&& -CELL_LIMIT <= c.x && c.x + c.w <= 2 * CELL_LIMIT
    &&& -CELL_LIMIT <= c.y && c.y + c.h <= 2 * CELL_LIMIT
    &&& 0 <= c.w <= CELL_LIMIT
    &&& 0 <= c.h <= CELL_LIMIT
}

/// Whether a picture of these dimensions is one.
pub open spec fn dims_ok(dims: (u32, u32)) -> bool {
    dims.0 >= 1 && dims.1 >= 1
}

/// The size of the largest picture of that shape that the cell holds: one
/// side of it is the cell's.
pub open spec fn fitted(dims: (u32, u32), w: int, h: int) -> (int, int) {
    if w * dims.1 <= h * dims.0 {
        (w, round_div(w * dims.1, dims.0 as int))
    } else {
        (round_div(h * dims.0, dims.1 as int), h)
    }
}

/// That picture, in the middle of the cell.
pub open spec fn fit(dims: (u32, u32), c: RectPx) -> RectPx {
    let (fw, fh) = fitted(dims, c.w as int, c.h as int);
    rect(c.x + half(c.w - fw), c.y + half(c.h - fh), fw, fh)
}

proof fn lemma_half(v: int)
    ensures
        2 * half(v) == v || 2 * half(v) == v + 1,
{
    round_div_is_nearest(v, 2);
}

/// The fitted picture lies inside its cell, and fills it one way.
pub proof fn the_fit_stays_inside(dims: (u32, u32), c: RectPx)
    requires
        dims_ok(dims),
        cell_ok(c),
    ensures
        ({
            let r = fit(dims, c);
            let (fw, fh) = fitted(dims, c.w as int, c.h as int);
            &&& r.w == fw && r.h == fh
            &&& 0 <= r.w <= c.w && 0 <= r.h <= c.h
            &&& r.w == c.w || r.h == c.h
            &&& c.x <= r.x && r.x + r.w <= c.x + c.w
            &&& c.y <= r.y && r.y + r.h <= c.y + c.h
            &&& cell_ok(r)
        }),
{
    let (w, h) = (c.w as int, c.h as int);
    let (dw, dh) = (dims.0 as int, dims.1 as int);
    assert(w * dh >= 0 && h * dw >= 0) by (nonlinear_arith)
        requires
            w >= 0,
            h >= 0,
            dw >= 1,
            dh >= 1,
    ;
    if w * dh <= h * dw {
        assert(0 * dw <= w * dh);
        round_div_bounds(w * dh, dw, 0, h);
    } else {
        round_div_bounds(h * dw, dh, 0, w);
    }
    let (fw, fh) = fitted(dims, w, h);
    lemma_half(w - fw);
    lemma_half(h - fh);
}

/// The fitted picture is centred: the margins on either side differ by at
/// most one unit.
pub proof fn the_fit_is_centred(dims: (u32, u32), c: RectPx)
    requires
        dims_ok(dims),
        cell_ok(c),
    ensures
        ({
            let r = fit(dims, c);
            &&& 0 <= (r.x - c.x) - ((c.x + c.w) - (r.x + r.w)) <= 1
            &&& 0 <= (r.y - c.y) - ((c.y + c.h) - (r.y + r.h)) <= 1
        }),
{
    the_fit_stays_inside(dims, c);
    let (fw, fh) = fitted(dims, c.w as int, c.h as int);
    lemma_half(c.w - fw);
    lemma_half(c.h - fh);
}

/// The largest picture of that shape inside the cell, centred.
pub fn fit_rect(dims: (u32, u32), c: RectPx) -> (r: RectPx)
    requires
        dims_ok(dims),
        cell_ok(c),
    ensures
        r == fit(dims, c),
        cell_ok(r),
        r.w <= c.w,
        r.h <= c.h,
{
    proof {
        the_fit_stays_inside(dims, c);
        let (w, h) = (c.w as int, c.h as int);
        let (dw, dh) = (dims.0 as int, dims.1 as int);
        assert(0 <= w * dh <= 0x1_0000_0000_0000_0000 && 0 <= h * dw <= 0x1_0000_0000_0000_0000)
            by (nonlinear_arith)
            requires
                0 <= w <= 0x1_0000_0000,
                0 <= h <= 0x1_0000_0000,
                1 <= dw <= 0xffff_ffff,
                1 <= dh <= 0xffff_ffff,
        ;
    }
    let (dw, dh): (i128, i128) = (dims.0 as i128, dims.1 as i128);
    let (across, down): (i128, i128) = (c.w as i128 * dh, c.h as i128 * dw);
    let (fw, fh): (i64, i64) = if across <= down {
        (c.w, div_round(across, dw) as i64)
    } else {
        (div_round(down, dh) as i64, c.h)
    };
    RectPx { x: c.x + halve(c.w - fw), y: c.y + halve(c.h - fh), w: fw, h: fh }
}

/// `half`.
pub fn halve(v: i64) -> (r: i64)
    requires
        -0x2000_0000_0000_0000 <= v <= 0x2000_0000_0000_0000,
    ensures
        r == half(v as int),
        2 * r == v || 2 * r == v + 1,
{
    proof {
        lemma_half(v as int);
    }
    if v >= 0 {
        (v + 1) / 2
    } else {
        -((-v) / 2)
    }
}

/// The picture scaled by `zoom` with the content point `center` at the
/// middle of `base`: the one transform every video shares.
pub open spec fn zoomed(base: RectPx, zoom: int, center: (int, int)) -> RectPx {
    let w = scaled(base.w as int, zoom);
    let h = scaled(base.h as int, zoom);
    rect(
        base.x + half(base.w as int) - scaled(w, center.0),
        base.y + half(base.h as int) - scaled(h, center.1),
        w,
        h,
    )
}

/// Half the width of the view, as a ratio of the zoomed picture's.
pub open spec fn half_view(zoom: int) -> int {
    round_div(ONE * ONE, 2 * zoom)
}

/// A coordinate of the view's middle held so that the view stays inside the
/// picture.
pub open spec fn panned(v: int, zoom: int) -> int {
    held(v, half_view(zoom), ONE - half_view(zoom))
}

pub open spec fn zoom_ok(zoom: int) -> bool {
    ONE <= zoom <= ZOOM_MAX
}

/// Whether the view's middle keeps the view inside the picture.
pub open spec fn center_ok(zoom: int, center: (int, int)) -> bool {
    &&& half_view(zoom) <= center.0 <= ONE - half_view(zoom)
    &&& half_view(zoom) <= center.1 <= ONE - half_view(zoom)
}

/// The view takes at most the whole picture.
pub proof fn lemma_half_view(zoom: int)
    requires
        zoom_ok(zoom),
    ensures
        0 <= half_view(zoom) <= ONE / 2,
        half_view(ONE as int) == ONE / 2,
{
    assert((ONE / 2) * (2 * zoom) >= ONE * ONE) by (nonlinear_arith)
        requires
            zoom >= ONE,
            ONE == 1_000_000_000,
    ;
    round_div_bounds(ONE * ONE, 2 * zoom, 0, ONE as int / 2);
    round_div_exact(ONE as int / 2, 2 * ONE);
}

proof fn lemma_zoomed_sides(v: int, zoom: int, c: int)
    requires
        0 <= v <= CELL_LIMIT,
        zoom_ok(zoom),
        0 <= c <= ONE,
    ensures
        v <= scaled(v, zoom) <= 32 * CELL_LIMIT,
        0 <= scaled(scaled(v, zoom), c) <= scaled(v, zoom),
{
    assert(v * ONE <= v * zoom && v * zoom <= (32 * v) * ONE) by (nonlinear_arith)
        requires
            0 <= v,
            ONE <= zoom <= 32 * ONE,
            ONE == 1_000_000_000,
    ;
    round_div_bounds(v * zoom, ONE as int, v, 32 * v);
    crate::units::scaled_within(scaled(v, zoom), c);
}

/// The zoomed rect is in range, and at least as large as its base.
pub proof fn lemma_zoomed_bounds(base: RectPx, zoom: int, center: (int, int))
    requires
        cell_ok(base),
        zoom_ok(zoom),
        0 <= center.0 <= ONE,
        0 <= center.1 <= ONE,
    ensures
        ({
            let r = zoomed(base, zoom, center);
            &&& r.w == scaled(base.w as int, zoom) && r.h == scaled(base.h as int, zoom)
            &&& r.x == base.x + half(base.w as int) - scaled(r.w as int, center.0)
            &&& r.y == base.y + half(base.h as int) - scaled(r.h as int, center.1)
            &&& base.w <= r.w <= 32 * CELL_LIMIT && base.h <= r.h <= 32 * CELL_LIMIT
            &&& -35 * CELL_LIMIT <= r.x <= 35 * CELL_LIMIT
            &&& -35 * CELL_LIMIT <= r.y <= 35 * CELL_LIMIT
        }),
{
    lemma_zoomed_sides(base.w as int, zoom, center.0);
    lemma_zoomed_sides(base.h as int, zoom, center.1);
    lemma_half(base.w as int);
    lemma_half(base.h as int);
}

/// `zoomed`.
pub fn zoom_rect(base: RectPx, zoom: i64, center: (i64, i64)) -> (r: RectPx)
    requires
        cell_ok(base),
        zoom_ok(zoom as int),
        0 <= center.0 <= ONE,
        0 <= center.1 <= ONE,
    ensures
        r == zoomed(base, zoom as int, (center.0 as int, center.1 as int)),
        base.w <= r.w <= 32 * CELL_LIMIT,
        base.h <= r.h <= 32 * CELL_LIMIT,
        -35 * CELL_LIMIT <= r.x <= 35 * CELL_LIMIT,
        -35 * CELL_LIMIT <= r.y <= 35 * CELL_LIMIT,
{
    proof {
        lemma_zoomed_bounds(base, zoom as int, (center.0 as int, center.1 as int));
        lemma_half(base.w as int);
        lemma_half(base.h as int);
    }
    let w: i64 = crate::units::scale(base.w, zoom);
    let h: i64 = crate::units::scale(base.h, zoom);
    RectPx {
        x: base.x + halve(base.w) - crate::units::scale(w, center.0),
        y: base.y + halve(base.h) - crate::units::scale(h, center.1),
        w,
        h,
    }
}

/// `half_view`.
pub fn view_half(zoom: i64) -> (r: i64)
    requires
        zoom_ok(zoom as int),
    ensures
        r == half_view(zoom as int),
        0 <= r <= ONE / 2,
{
    proof {
        lemma_half_view(zoom as int);
    }
    div_round(ONE as i128 * ONE as i128, 2 * zoom as i128) as i64
}

/// `panned`.
pub fn clamp_center(v: i128, zoom: i64) -> (r: i64)
    requires
        zoom_ok(zoom as int),
    ensures
        r == panned(v as int, zoom as int),
        half_view(zoom as int) <= r <= ONE - half_view(zoom as int),
        0 <= r <= ONE,
{
    let lo: i64 = view_half(zoom);
    let hi: i64 = ONE - lo;
    if v < lo as i128 {
        lo
    } else if v > hi as i128 {
        hi
    } else {
        v as i64
    }
}

/// `a / b` as a ratio, `b` taken as at least one unit.
pub open spec fn share(a: int, b: int) -> int {
    ratio_of(a, if b < 1 { 1 } else { b })
}

/// `share`.
pub fn share_of(a: i64, b: i64) -> (r: i128)
    ensures
        r == share(a as int, b as int),
        -0x1_0000_0000_0000_0000_0000_0000 <= r <= 0x1_0000_0000_0000_0000_0000_0000,
{
    let d: i64 = if b < 1 {
        1
    } else {
        b
    };
    assert(-0x1_0000_0000_0000_0000_0000_0000 <= a * ONE <= 0x1_0000_0000_0000_0000_0000_0000);
    proof {
        let m = 0x1_0000_0000_0000_0000_0000_0000int;
        assert(m <= m * d && -m * d <= -m) by (nonlinear_arith)
            requires
                d >= 1,
                m > 0,
        ;
        round_div_bounds(a * ONE, d as int, -m, m);
    }
    div_round(a as i128 * ONE as i128, d as i128)
}

/// Where on the picture, as a ratio, a coordinate lies; beyond the edges,
/// the edge.
pub open spec fn spot(v: int, from: int, len: int) -> int {
    held(share(v - from, len), 0, ONE as int)
}

/// `spot`.
pub fn spot_of(v: i64, from: i64, len: i64) -> (r: i64)
    requires
        -0x2000_0000_0000_0000 <= v <= 0x2000_0000_0000_0000,
        -0x2000_0000_0000_0000 <= from <= 0x2000_0000_0000_0000,
    ensures
        r == spot(v as int, from as int, len as int),
        0 <= r <= ONE,
{
    let s: i128 = share_of(v - from, len);
    if s < 0 {
        0
    } else if s > ONE as i128 {
        ONE
    } else {
        s as i64
    }
}

/// Where the view's middle has to be for the content point `u` to lie at the
/// coordinate `at`: along one axis, with the base reaching from `from` over
/// `len`.
pub open spec fn center_for(u: int, at: int, from: int, len: int, zoom: int) -> int {
    u + share(from + half(len) - at, scaled(len, zoom))
}

/// `center_for`, held to the picture.
pub fn center_at(u: i64, at: i64, from: i64, len: i64, zoom: i64) -> (r: i64)
    requires
        zoom_ok(zoom as int),
        0 <= u <= ONE,
        -0x2000_0000_0000 <= at <= 0x2000_0000_0000,
        -CELL_LIMIT <= from <= 2 * CELL_LIMIT,
        0 <= len <= CELL_LIMIT,
    ensures
        r == panned(
            center_for(u as int, at as int, from as int, len as int, zoom as int),
            zoom as int,
        ),
        half_view(zoom as int) <= r <= ONE - half_view(zoom as int),
        0 <= r <= ONE,
{
    let w: i64 = crate::units::scale(len, zoom);
    let s: i128 = share_of(from + halve(len) - at, w);
    clamp_center(u as i128 + s, zoom)
}

/// The view's middle after a pan by `d` along one axis, held to the picture.
pub fn pan_by(c: i64, d: i64, len: i64, zoom: i64) -> (r: i64)
    requires
        zoom_ok(zoom as int),
        0 <= c <= ONE,
        0 <= len <= CELL_LIMIT,
    ensures
        r == panned(c - share(d as int, scaled(len as int, zoom as int)), zoom as int),
        half_view(zoom as int) <= r <= ONE - half_view(zoom as int),
        0 <= r <= ONE,
{
    let w: i64 = crate::units::scale(len, zoom);
    let s: i128 = share_of(d, w);
    clamp_center(c as i128 - s, zoom)
}

/// At zoom 1 the view is the whole picture: the middle is pinned to the
/// picture's middle, and the zoomed rect is the base.
pub proof fn at_fit_the_view_is_the_base(base: RectPx, v: int)
    requires
        cell_ok(base),
    ensures
        panned(v, ONE as int) == ONE / 2,
        zoomed(base, ONE as int, (ONE as int / 2, ONE as int / 2)) == base,
{
    lemma_half_view(ONE as int);
    let mid = ONE as int / 2;
    lemma_zoomed_bounds(base, ONE as int, (mid, mid));
    round_div_exact(base.w as int, ONE as int);
    round_div_exact(base.h as int, ONE as int);
    lemma_half_scaled(base.w as int);
    lemma_half_scaled(base.h as int);
}

proof fn lemma_half_scaled(w: int)
    ensures
        scaled(w, ONE as int / 2) == half(w),
{
    let h = half(w);
    lemma_half(w);
    round_div_is_nearest(w * (ONE as int / 2), ONE as int);
    assert(w * (ONE as int / 2) == w * 500_000_000);
    let q = scaled(w, ONE as int / 2);
    assert(2_000_000_000 * q <= 2 * (w * 500_000_000) + 1_000_000_000);
    assert(2 * (w * 500_000_000) + 1_000_000_000 < 2_000_000_000 * q + 2_000_000_000);
}

/// One axis of the law below.
proof fn lemma_view_covers(from: int, len: int, zoom: int, c: int)
    requires
        0 <= len <= CELL_LIMIT,
        zoom_ok(zoom),
        half_view(zoom) <= c <= ONE - half_view(zoom),
    ensures
        ({
            let w = scaled(len, zoom);
            let x = from + half(len) - scaled(w, c);
            &&& x <= from + 2 + w / (ONE as int)
            &&& x + w >= from + len - 2 - w / (ONE as int)
        }),
{
    let w = scaled(len, zoom);
    let hv = half_view(zoom);
    lemma_half_view(zoom);
    lemma_zoomed_sides(len, zoom, c);
    lemma_half(len);
    round_div_is_nearest(ONE * ONE, 2 * zoom);
    round_div_is_nearest(len * zoom, ONE as int);
    round_div_is_nearest(w * c, ONE as int);
    let one = ONE as int;
    let s = scaled(w, c);
    // hv is within half a unit of one * one / (2 * zoom).
    let z = zoom;
    assert(4 * z * hv > 2 * (one * one) - 2 * z) by (nonlinear_arith)
        requires
            2 * (one * one) + 2 * z < 2 * (2 * z) * hv + 2 * (2 * z),
    ;
    // w is within half a unit of len * zoom / one.
    assert(2 * one * w > 2 * (len * z) - one) by (nonlinear_arith)
        requires
            2 * (len * z) + one < 2 * one * w + 2 * one,
    ;
    // Together, w * hv is close to one * len / 2.
    lemma_product(w, hv, len, z, one);
    let cl = w / one;
    vstd::arithmetic::div_mod::lemma_fundamental_div_mod(w, one);
    vstd::arithmetic::div_mod::lemma_mod_bound(w, one);
    assert(w < one * cl + one);
    assert(w * c >= w * hv && w * c <= w * one - w * hv) by (nonlinear_arith)
        requires
            w >= 0,
            hv <= c <= one - hv,
    ;
    let (p, wc) = (w * hv, w * c);
    assert(2_000_000_000 * s > 2 * wc - 1_000_000_000);
    assert(2_000_000_000 * s <= 2 * wc + 1_000_000_000);
    assert(2 * p >= 1_000_000_000 * len - w - 1_000_000_000);
}

proof fn lemma_product(w: int, hv: int, len: int, z: int, one: int)
    requires
        w >= 0,
        len >= 0,
        one == 1_000_000_000,
        one <= z,
        4 * z * hv > 2 * (one * one) - 2 * z,
        2 * one * w > 2 * (len * z) - one,
    ensures
        2 * (w * hv) >= one * len - w - one,
{
    // 4 z (w hv) >= w (2 one one - 2 z) and one w >= len z - one / 2.
    assert(4 * z * (w * hv) >= 2 * (w * one) * one - 2 * (z * w)) by (nonlinear_arith)
        requires
            w >= 0,
            4 * z * hv > 2 * (one * one) - 2 * z,
    ;
    assert(2 * (w * one) * one >= 2 * (len * z) * one - one * one) by (nonlinear_arith)
        requires
            2 * one * w > 2 * (len * z) - one,
            one == 1_000_000_000,
    ;
    let p = w * hv;
    assert(4 * z * p >= 2 * (len * z) * one - one * one - 2 * (z * w));
    assert(2 * p >= one * len - w - one) by (nonlinear_arith)
        requires
            4 * z * p >= 2 * (len * z) * one - one * one - 2 * (z * w),
            one <= z,
            one == 1_000_000_000,
    ;
}

/// The view never leaves the picture: whatever the zoom and the pan, the
/// zoomed rect covers its base, but for rounding (two units, and one more
/// for each ten thousand pixels of picture).
pub proof fn the_view_stays_inside_the_content(base: RectPx, zoom: int, center: (int, int))
    requires
        cell_ok(base),
        zoom_ok(zoom),
        center_ok(zoom, center),
    ensures
        ({
            let r = zoomed(base, zoom, center);
            let ex = 2 + r.w / ONE;
            let ey = 2 + r.h / ONE;
            &&& r.x <= base.x + ex && r.x + r.w >= base.x + base.w - ex
            &&& r.y <= base.y + ey && r.y + r.h >= base.y + base.h - ey
        }),
{
    lemma_half_view(zoom);
    lemma_zoomed_bounds(base, zoom, center);
    lemma_view_covers(base.x as int, base.w as int, zoom, center.0);
    lemma_view_covers(base.y as int, base.h as int, zoom, center.1);
}

/// A zoom keeps the content point under the pointer where it is, as long as
/// the picture's edges do not stop the pan: along one axis, with the new
/// middle as the zoom computes it, the point `u` lies at `at` again, but for
/// rounding.
pub proof fn a_zoom_holds_the_point_under_the_pointer(
    u: int,
    at: int,
    from: int,
    len: int,
    zoom: int,
)
    requires
        0 < len <= CELL_LIMIT,
        zoom_ok(zoom),
    ensures
        ({
            let w = scaled(len, zoom);
            let x = from + half(len) - scaled(w, center_for(u, at, from, len, zoom));
            -(2 + w / (ONE as int)) <= x + scaled(w, u) - at <= 2 + w / (ONE as int)
        }),
{
    let one = ONE as int;
    let w = scaled(len, zoom);
    lemma_zoomed_sides(len, zoom, 0);
    let d = from + half(len) - at;
    let q = share(d, w);
    let c = center_for(u, at, from, len, zoom);
    assert(c == u + q);
    round_div_is_nearest(d * one, w);
    round_div_is_nearest(w * c, one);
    round_div_is_nearest(w * u, one);
    let (sc, su) = (scaled(w, c), scaled(w, u));
    assert(w * c == w * u + w * q) by (nonlinear_arith)
        requires
            c == u + q,
    ;
    vstd::arithmetic::div_mod::lemma_fundamental_div_mod(w, one);
    vstd::arithmetic::div_mod::lemma_mod_bound(w, one);
    let cl = w / one;
    let p = w * q;
    assert(2 * p <= 2 * (d * one) + w && 2 * (d * one) < 2 * p + w) by (nonlinear_arith)
        requires
            p == w * q,
            2 * w * q <= 2 * (d * one) + w,
            2 * (d * one) + w < 2 * w * q + 2 * w,
    ;
}

/// The pointer's cell among `n` cells side by side over `w`.
pub open spec fn cell_width(w: int, n: int) -> int {
    round_div(w, n)
}

/// Cell `i` of `n` side by side in a window.
pub open spec fn cell(i: int, n: int, vp: (u32, u32)) -> RectPx {
    rect(i * cell_width(vp.0 as int, n), 0, cell_width(vp.0 as int, n), vp.1 as int)
}

/// The window as one cell.
pub open spec fn whole_window(vp: (u32, u32)) -> RectPx {
    rect(0, 0, vp.0 as int, vp.1 as int)
}

} // verus!
