//! Panning, seen from outside: the picture goes with the pointer.

use crate::app::{clip_ok, AppState, Mode, MIDDLE};
use crate::geometry::{
    at_fit_the_view_is_the_base, cell, cell_ok, cell_width, fit, half, half_view, lemma_half_view, lemma_zoomed_bounds, panned, share, the_fit_stays_inside, whole_window, zoom_ok, zoomed,
};
use crate::items::RectPx;
use crate::pointer::lemma_cells;
use crate::units::{least, round_div_bounds, round_div_is_nearest, scaled, ONE, PX};
use vstd::prelude::*;

verus! {

/// Whether a picture is the same size as before and has moved by `(dx, dy)`, but
/// for rounding (two units, and one more for each ten thousand pixels of
/// picture).
pub open spec fn moved_by(r: RectPx, q: RectPx, dx: int, dy: int) -> bool {
    let ex = 2 + r.w / 1_000_000_000;
    let ey = 2 + r.h / 1_000_000_000;
    &&& q.w == r.w && q.h == r.h
    &&& -ex <= q.x - r.x - dx <= ex
    &&& -ey <= q.y - r.y - dy <= ey
}

/// Whether a picture has moved no way but that of `(dx, dy)`.
pub open spec fn moved_along(r: RectPx, q: RectPx, dx: int, dy: int) -> bool {
    &&& q.w == r.w && q.h == r.h
    &&& (dx >= 0 ==> q.x >= r.x) && (dx <= 0 ==> q.x <= r.x)
    &&& (dy >= 0 ==> q.y >= r.y) && (dy <= 0 ==> q.y <= r.y)
}

/// Whether the picture's edges lie outside the view: the view's middle is
/// farther from each than half of what the view takes of the picture.
pub open spec fn edges_are_out_of_view(s: AppState) -> bool {
    let one = 1_000_000_000int;
    let z = 2 * s.zoom;
    &&& z * s.center.0 >= one * one + z && z * (one - s.center.0) >= one * one + z
    &&& z * s.center.1 >= one * one + z && z * (one - s.center.1) >= one * one + z
}

proof fn lemma_free(c: int, v: int, zoom: int)
    requires
        zoom_ok(zoom),
        c == panned(v, zoom),
        2 * zoom * c >= ONE * ONE + 2 * zoom,
        2 * zoom * (ONE - c) >= ONE * ONE + 2 * zoom,
    ensures
        c == v,
{
    let one = ONE as int;
    let h = half_view(zoom);
    round_div_is_nearest(one * one, 2 * zoom);
    lemma_half_view(zoom);
    assert(h < c && h < one - c) by (nonlinear_arith)
        requires
            2 * (2 * zoom) * h <= 2 * (one * one) + 2 * zoom,
            2 * zoom * c >= one * one + 2 * zoom,
            2 * zoom * (one - c) >= one * one + 2 * zoom,
            zoom > 0,
    ;
}

/// One axis of an unstopped pan.
proof fn lemma_axis(c: int, d: int, w: int)
    requires
        w >= 1,
    ensures
        ({
            let m = scaled(w, c) - scaled(w, c - share(d, w));
            let e = 2 + w / (ONE as int);
            -e <= m - d <= e
        }),
{
    let one = ONE as int;
    let q = share(d, w);
    let e = c - q;
    round_div_is_nearest(d * one, w);
    round_div_is_nearest(w * c, one);
    round_div_is_nearest(w * e, one);
    vstd::arithmetic::div_mod::lemma_fundamental_div_mod(w, one);
    vstd::arithmetic::div_mod::lemma_mod_bound(w, one);
    let p = w * q;
    assert(w * e == w * c - p) by (nonlinear_arith)
        requires
            e == c - q,
            p == w * q,
    ;
    assert(2 * p <= 2 * (d * one) + w && 2 * (d * one) < 2 * p + w) by (nonlinear_arith)
        requires
            p == w * q,
            2 * w * q <= 2 * (d * one) + w,
            2 * (d * one) + w < 2 * w * q + 2 * w,
    ;
}

/// One axis of any pan: the view's middle goes against the pointer, so the
/// picture goes with it.
proof fn lemma_along(c: int, d: int, w: int, zoom: int)
    requires
        w >= 0,
        zoom_ok(zoom),
        half_view(zoom) <= c <= ONE - half_view(zoom),
    ensures
        ({
            let e = panned(c - share(d, w), zoom);
            &&& d >= 0 ==> scaled(w, e) <= scaled(w, c)
            &&& d <= 0 ==> scaled(w, e) >= scaled(w, c)
        }),
{
    let one = ONE as int;
    let k = if w < 1 { 1 } else { w };
    let q = share(d, w);
    round_div_is_nearest(d * one, k);
    assert(d >= 0 ==> q >= 0) by (nonlinear_arith)
        requires
            2 * (d * one) + k < 2 * k * q + 2 * k,
            k >= 1,
            one > 0,
    ;
    assert(d <= 0 ==> q <= 0) by (nonlinear_arith)
        requires
            2 * k * q <= 2 * (d * one) + k,
            k >= 1,
            one > 0,
    ;
    let e = panned(c - q, zoom);
    round_div_is_nearest(w * c, one);
    round_div_is_nearest(w * e, one);
    assert(e <= c ==> w * e <= w * c) by (nonlinear_arith)
        requires
            w >= 0,
    ;
    assert(e >= c ==> w * e >= w * c) by (nonlinear_arith)
        requires
            w >= 0,
    ;
}

/// The pan of a picture that fills `base` when it is not zoomed.
proof fn lemma_pan(s: AppState, base: RectPx, x: int, dx: int, dy: int)
    requires
        s.wf(),
        cell_ok(base),
        s.gesture_base(x) == base,
    ensures
        ({
            let c = s.pan_center(dx, dy, x);
            let m = (c.0 as int, c.1 as int);
            let r = zoomed(base, s.zoom as int, s.middle());
            let q = zoomed(base, s.zoom as int, m);
            &&& moved_along(r, q, dx, dy)
            &&& edges_are_out_of_view(AppState { center: c, ..s }) && r.w >= 1 && r.h >= 1
                ==> moved_by(r, q, dx, dy)
        }),
{
    reveal(AppState::pan_center);
    let z = s.zoom as int;
    lemma_half_view(z);
    let c = s.pan_center(dx, dy, x);
    let m = (c.0 as int, c.1 as int);
    let r = zoomed(base, z, s.middle());
    let q = zoomed(base, z, m);
    lemma_zoomed_bounds(base, z, s.middle());
    lemma_zoomed_bounds(base, z, m);
    lemma_along(s.center.0 as int, dx, r.w as int, z);
    lemma_along(s.center.1 as int, dy, r.h as int, z);
    if edges_are_out_of_view(AppState { center: c, ..s }) && r.w >= 1 && r.h >= 1 {
        lemma_free(m.0, s.center.0 - share(dx, r.w as int), z);
        lemma_free(m.1, s.center.1 - share(dy, r.h as int), z);
        lemma_axis(s.center.0 as int, dx, r.w as int);
        lemma_axis(s.center.1 as int, dy, r.h as int);
    }
}

proof fn lemma_window_base(s: AppState, x: int)
    requires
        s.wf(),
        s.videos.len() > 0,
        s.mode != Mode::SideBySide || s.mask_mode,
    ensures
        ({
            let base = fit(s.videos[s.active as int].dims(), whole_window(s.vp));
            &&& s.gesture_base(x) == base
            &&& cell_ok(base)
        }),
{
    reveal(AppState::gesture_base);
    clip_ok(s.videos, s.masks, s.active as int);
    the_fit_stays_inside(s.videos[s.active as int].dims(), whole_window(s.vp));
}

/// The pointer is over the place that clip `i`, side by side with the others,
/// fills when it is not zoomed; the cells are at least a pixel wide.
pub open spec fn points_at(s: AppState, i: int, x: int) -> bool {
    let r = AppState { zoom: ONE, center: (MIDDLE, MIDDLE), ..s }.cell_content(i);
    &&& s.videos.len() * 100_000 <= s.vp.0
    &&& r.x <= x < r.x + r.w
}

proof fn lemma_cell_base(s: AppState, i: int, x: int)
    requires
        s.wf(),
        0 <= i < s.videos.len(),
        s.mode == Mode::SideBySide,
        !s.mask_mode,
        points_at(s, i, x),
    ensures
        ({
            let base = fit(s.videos[i].dims(), cell(i, s.videos.len() as int, s.vp));
            &&& s.gesture_base(x) == base
            &&& cell_ok(base)
        }),
{
    reveal(AppState::gesture_base);
    reveal(AppState::cell_content);
    clip_ok(s.videos, s.masks, i);
    let n = s.videos.len() as int;
    let w = s.vp.0 as int;
    lemma_cells(w, n, i);
    let c = cell(i, n, s.vp);
    let base = fit(s.videos[i].dims(), c);
    the_fit_stays_inside(s.videos[i].dims(), c);
    at_fit_the_view_is_the_base(base, 0);
    let cw = cell_width(w, n);
    assert(PX * n <= w && w <= w * n) by (nonlinear_arith)
        requires
            n * 100_000 <= w,
            n >= 1,
            w >= 0,
            PX == 100_000,
    ;
    round_div_bounds(w, n, PX as int, w);
    assert(i * cw <= x < i * cw + cw);
    assert(x / cw == i) by {
        assert(x == i * cw + (x - i * cw));
        vstd::arithmetic::div_mod::lemma_fundamental_div_mod_converse(x, cw, i, x - i * cw);
    }
}

/// A scroll while zoomed moves the picture in the window with it: by `(dx, dy)`
/// on both axes, wherever the picture's edges stay out of view, and against
/// neither where they stop it. Without a zoom nothing moves.
pub proof fn a_scroll_moves_the_picture(s: AppState, dx: int, dy: int)
    requires
        s.wf(),
        s.videos.len() > 0,
        s.mode != Mode::SideBySide || s.mask_mode,
    ensures
        ({
            let a = s.scrolled(dx, dy);
            let (r, q) = (s.content(s.active as int), a.content(s.active as int));
            &&& s.zoom <= 1_001_000_000 ==> a.center == s.center
            &&& s.zoom > 1_001_000_000 ==> moved_along(r, q, dx, dy)
            &&& s.zoom > 1_001_000_000 && r.w >= 1 && r.h >= 1 && edges_are_out_of_view(a)
                ==> moved_by(r, q, dx, dy)
            &&& a.zoom == s.zoom && a.videos == s.videos && a.t == s.t
        }),
{
    reveal(AppState::scrolled);
    reveal(AppState::content);
    let x = s.cursor.0 as int;
    lemma_window_base(s, x);
    lemma_pan(s, s.gesture_base(x), x, dx, dy);
}

/// The same side by side, of the clip that the pointer is at.
pub proof fn a_scroll_moves_the_picture_in_its_cell(s: AppState, i: int, dx: int, dy: int)
    requires
        s.wf(),
        0 <= i < s.videos.len(),
        s.mode == Mode::SideBySide,
        !s.mask_mode,
        points_at(s, i, s.cursor.0 as int),
    ensures
        ({
            let a = s.scrolled(dx, dy);
            let (r, q) = (s.cell_content(i), a.cell_content(i));
            &&& s.zoom <= 1_001_000_000 ==> a.center == s.center
            &&& s.zoom > 1_001_000_000 ==> moved_along(r, q, dx, dy)
            &&& s.zoom > 1_001_000_000 && r.w >= 1 && r.h >= 1 && edges_are_out_of_view(a)
                ==> moved_by(r, q, dx, dy)
            &&& a.zoom == s.zoom && a.videos == s.videos && a.t == s.t
        }),
{
    let x = s.cursor.0 as int;
    lemma_cell_base(s, i, x);
    reveal(AppState::scrolled);
    reveal(AppState::cell_content);
    lemma_pan(s, s.gesture_base(x), x, dx, dy);
}

/// A drag while zoomed moves the picture in the window with the pointer, from
/// where the pointer was to where it is; the next part of the drag goes on from
/// there. Without a zoom nothing moves.
pub proof fn a_drag_moves_the_picture(s: AppState, x: i32, y: i32)
    requires
        s.wf(),
        s.videos.len() > 0,
        s.mode != Mode::SideBySide,
        !s.mask_mode,
        !s.scrubbing,
    ensures
        ({
            let a = s.moved(x, y);
            let (r, q) = (s.content(s.active as int), a.content(s.active as int));
            &&& s.drag is None || s.zoom <= 1_001_000_000 ==> a.center == s.center && a.drag
                == s.drag
            &&& s.zoom > 1_001_000_000 ==> (s.drag matches Some(p) ==> {
                &&& moved_along(r, q, x - p.0, y - p.1)
                &&& r.w >= 1 && r.h >= 1 && edges_are_out_of_view(a) ==> moved_by(
                    r,
                    q,
                    x - p.0,
                    y - p.1,
                )
                &&& a.drag == Some((x, y))
            })
            &&& a.zoom == s.zoom && a.videos == s.videos && a.t == s.t && a.cursor == (x, y)
        }),
{
    reveal(AppState::moved);
    reveal(AppState::dragged);
    reveal(AppState::content);
    lemma_window_base(s, x as int);
    if s.drag is Some {
        let p = s.drag->0;
        lemma_pan(s, s.gesture_base(x as int), x as int, x - p.0, y - p.1);
    }
}

/// The same side by side, of the clip that the pointer has come to.
pub proof fn a_drag_moves_the_picture_in_its_cell(s: AppState, i: int, x: i32, y: i32)
    requires
        s.wf(),
        0 <= i < s.videos.len(),
        s.mode == Mode::SideBySide,
        !s.mask_mode,
        !s.scrubbing,
        points_at(s, i, x as int),
    ensures
        ({
            let a = s.moved(x, y);
            let (r, q) = (s.cell_content(i), a.cell_content(i));
            &&& s.drag is None || s.zoom <= 1_001_000_000 ==> a.center == s.center && a.drag
                == s.drag
            &&& s.zoom > 1_001_000_000 ==> (s.drag matches Some(p) ==> {
                &&& moved_along(r, q, x - p.0, y - p.1)
                &&& r.w >= 1 && r.h >= 1 && edges_are_out_of_view(a) ==> moved_by(
                    r,
                    q,
                    x - p.0,
                    y - p.1,
                )
                &&& a.drag == Some((x, y))
            })
            &&& a.zoom == s.zoom && a.videos == s.videos && a.t == s.t && a.cursor == (x, y)
        }),
{
    lemma_cell_base(s, i, x as int);
    reveal(AppState::moved);
    reveal(AppState::dragged);
    reveal(AppState::cell_content);
    if s.drag is Some {
        let p = s.drag->0;
        lemma_pan(s, s.gesture_base(x as int), x as int, x - p.0, y - p.1);
    }
}

/// A pinch is anchored to the picture that the pointer is at: the active clip's
/// in the window, or the clip's whose cell it is, side by side. That picture is
/// what `zoomed` makes of the anchor.
pub proof fn a_gesture_is_anchored_to_the_picture_shown(s: AppState, i: int, x: int)
    requires
        s.wf(),
        0 <= i < s.videos.len(),
    ensures
        s.mode != Mode::SideBySide || s.mask_mode ==> s.content(s.active as int) == zoomed(
            s.gesture_base(x),
            s.zoom as int,
            s.middle(),
        ),
        s.mode == Mode::SideBySide && !s.mask_mode && points_at(s, i, x) ==> s.cell_content(i)
            == zoomed(s.gesture_base(x), s.zoom as int, s.middle()),
{
    reveal(AppState::content);
    if s.mode != Mode::SideBySide || s.mask_mode {
        lemma_window_base(s, x);
    } else if points_at(s, i, x) {
        lemma_cell_base(s, i, x);
        reveal(AppState::cell_content);
    }
}

/// A pinch zooms by its delta: the new zoom is the old one and that share of it,
/// from 1 to 32, but for a change of less than a hundred-thousandth, which is
/// none. Without clips there is nothing to zoom.
pub proof fn a_pinch_zooms_by_its_delta(s: AppState, delta: int)
    requires
        s.wf(),
    ensures
        ({
            let a = s.pinched(delta);
            let one = 1_000_000_000int;
            let p = s.zoom * (one + delta);
            &&& s.videos.len() == 0 ==> a.zoom == s.zoom && a.center == s.center
            &&& one <= a.zoom <= 32 * one
            &&& s.videos.len() > 0 && p >= one * (s.zoom + 10_001) && p <= 32 * one * one ==> 2 * (one
                * a.zoom - p) <= one && 2 * (p - one * a.zoom) <= one
            &&& s.videos.len() > 0 && p <= one * (s.zoom - 10_001) && p >= one * one ==> 2 * (one
                * a.zoom - p) <= one && 2 * (p - one * a.zoom) <= one
            &&& s.videos.len() > 0 && p <= one * one ==> a.zoom - one < 10_000
            &&& s.videos.len() > 0 && p >= 32 * one * one ==> 32 * one - a.zoom < 10_000
            &&& a.videos == s.videos && a.t == s.t && a.masks == s.masks && a.cursor == s.cursor
        }),
{
    reveal(AppState::pinched);
    round_div_is_nearest(s.zoom * (ONE + delta), ONE as int);
}

/// Whether the point of a picture that lay at `at` lies there still: its share of
/// the picture from `x` on, `w` long, is its share of the one from `y` on, `v`
/// long, but for rounding.
pub open spec fn holds_the_point(at: int, x: int, w: int, y: int, v: int) -> bool {
    let one = 1_000_000_000int;
    let d = w * (at - y) - v * (at - x);
    let e = w * (7 + 3 * (v / one) + 2 * (v / w)) + v * (3 + 2 * (w / one));
    -e <= d <= e
}

proof fn lemma_hold(at: int, x: int, w: int, y: int, v: int)
    requires
        w >= 1,
        v >= 0,
        ({
            let ex = 2 + w / (ONE as int);
            let u = crate::geometry::spot(at, x, w);
            let e = 6 + 3 * (v / (ONE as int)) + 2 * (v / w);
            &&& -ex <= at - x <= w + ex
            &&& -e <= y + scaled(v, u) - at <= e
        }),
    ensures
        holds_the_point(at, x, w, y, v),
{
    let one = ONE as int;
    let d = at - x;
    let cl = w / one;
    let ex = 2 + cl;
    let u = crate::geometry::spot(at, x, w);
    let e = 6 + 3 * (v / one) + 2 * (v / w);
    vstd::arithmetic::div_mod::lemma_fundamental_div_mod(w, one);
    vstd::arithmetic::div_mod::lemma_mod_bound(w, one);
    crate::views::lemma_divider(at, x, w);
    let uw = u * w;
    let od = d * one;
    // The share of the point, to within the picture's rounding at its edges.
    assert(uw - od <= one * (cl + 1) + ex * one && od - uw <= one * (cl + 1) + ex * one) by {
        if d < 0 {
            assert(uw == 0) by (nonlinear_arith)
                requires
                    u == 0,
                    uw == u * w,
            ;
        } else if d > w {
            assert(uw == one * w) by (nonlinear_arith)
                requires
                    u == one,
                    uw == u * w,
            ;
        }
    }
    let b = one * (3 + 2 * cl);
    assert(one * (cl + 1) + ex * one == b) by (nonlinear_arith)
        requires
            ex == 2 + cl,
            b == one * (3 + 2 * cl),
    ;
    let t = scaled(v, u);
    round_div_is_nearest(v * u, one);
    let vu = v * u;
    let k = at - y;
    assert(one * k - vu <= one * (e + 1) && vu - one * k <= one * (e + 1));
    // Both shares over the one denominator.
    assert(w * (one * k) - w * vu <= w * (one * (e + 1)) && w * vu - w * (one * k) <= w * (one * (e
        + 1))) by (nonlinear_arith)
        requires
            one * k - vu <= one * (e + 1),
            vu - one * k <= one * (e + 1),
            w >= 1,
    ;
    assert(v * uw - v * od <= v * b && v * od - v * uw <= v * b) by (nonlinear_arith)
        requires
            uw - od <= b,
            od - uw <= b,
            v >= 0,
    ;
    assert(w * vu == v * uw) by (nonlinear_arith)
        requires
            vu == v * u,
            uw == u * w,
    ;
    let m = w * k - v * d;
    let f = w * (e + 1) + v * (3 + 2 * cl);
    assert(w * (one * k) - v * od == one * m && w * (one * (e + 1)) + v * b == one * f)
        by (nonlinear_arith)
        requires
            m == w * k - v * d,
            od == d * one,
            f == w * (e + 1) + v * (3 + 2 * cl),
            b == one * (3 + 2 * cl),
    ;
    assert(-f <= m <= f) by (nonlinear_arith)
        requires
            one * m <= one * f,
            -(one * m) <= one * f,
            one > 0,
    ;
}

/// Pinching in, the point of the picture under the pointer stays under it, on
/// both axes: of the active clip's picture in the window, with the pointer over
/// the place that the picture fills when it is not zoomed.
pub proof fn a_pinch_keeps_the_point_shown(s: AppState, delta: int)
    requires
        s.wf(),
        s.videos.len() > 0,
        delta >= 0,
        s.mode != Mode::SideBySide || s.mask_mode,
        ({
            let r = AppState { zoom: ONE, center: (MIDDLE, MIDDLE), ..s }.content(s.active as int);
            &&& r.w >= 1 && r.h >= 1
            &&& r.x <= s.cursor.0 <= r.x + r.w
            &&& r.y <= s.cursor.1 <= r.y + r.h
        }),
    ensures
        ({
            let r = s.content(s.active as int);
            let q = s.pinched(delta).content(s.active as int);
            &&& holds_the_point(s.cursor.0 as int, r.x as int, r.w as int, q.x as int, q.w as int)
            &&& holds_the_point(s.cursor.1 as int, r.y as int, r.h as int, q.y as int, q.h as int)
        }),
{
    let i = s.active as int;
    let (cx, cy) = (s.cursor.0 as int, s.cursor.1 as int);
    let a = s.pinched(delta);
    lemma_window_base(s, cx);
    lemma_half_view(ONE as int);
    lemma_half_view(s.zoom as int);
    let base = s.gesture_base(cx);
    at_fit_the_view_is_the_base(base, 0);
    reveal(AppState::content);
    let r = s.content(i);
    lemma_zoomed_bounds(base, s.zoom as int, s.middle());
    crate::geometry::the_view_stays_inside_the_content(base, s.zoom as int, s.middle());
    if s.pinch_acts(delta) {
        let p = s.zoom * (ONE + delta);
        assert(p >= s.zoom * ONE) by (nonlinear_arith)
            requires
                p == s.zoom * (ONE + delta),
                delta >= 0,
                s.zoom > 0,
        ;
        round_div_is_nearest(p, ONE as int);
        assert(s.pinch_zoom(delta) >= s.zoom);
        crate::laws::a_pinch_holds_the_point_under_the_pointer(s, delta);
        reveal(AppState::pinched);
        let q = a.content(i);
        lemma_half_view(a.zoom as int);
        assert(a.content(i) == zoomed(base, a.zoom as int, a.middle()));
        lemma_after(s, delta);
        lemma_zoomed_bounds(base, a.zoom as int, a.middle());
        lemma_hold(cx, r.x as int, r.w as int, q.x as int, q.w as int);
        lemma_hold(cy, r.y as int, r.h as int, q.y as int, q.h as int);
    } else {
        reveal(AppState::pinched);
        assert(a.content(i) == r);
        lemma_same(cx, r.x as int, r.w as int);
        lemma_same(cy, r.y as int, r.h as int);
    }
}

/// A pinch leaves the view's middle in range.
proof fn lemma_after(s: AppState, delta: int)
    requires
        s.wf(),
        s.pinch_acts(delta),
    ensures
        ({
            let a = s.pinched(delta);
            &&& zoom_ok(a.zoom as int)
            &&& 0 <= a.center.0 <= ONE && 0 <= a.center.1 <= ONE
        }),
{
    reveal(AppState::pinched);
    reveal(AppState::pinch_center);
    lemma_half_view(s.pinch_zoom(delta));
}

proof fn lemma_same(at: int, x: int, w: int)
    requires
        w >= 1,
    ensures
        holds_the_point(at, x, w, x, w),
{
    vstd::arithmetic::div_mod::lemma_div_pos_is_pos(w, ONE as int);
    vstd::arithmetic::div_mod::lemma_div_pos_is_pos(w, w);
    let e = w * (7 + 3 * (w / (ONE as int)) + 2 * (w / w)) + w * (3 + 2 * (w / (ONE as int)));
    assert(e >= 0) by (nonlinear_arith)
        requires
            e == w * (7 + 3 * (w / (ONE as int)) + 2 * (w / w)) + w * (3 + 2 * (w / (ONE as int))),
            w >= 1,
            w / (ONE as int) >= 0,
            w / w >= 0,
    ;
}

} // verus!
