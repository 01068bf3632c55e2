//! The views, seen from outside: which pictures a frame shows, and where.

use crate::app::{clip_ok, following, AppState, Mode, MIDDLE};
use crate::geometry::{
    at_fit_the_view_is_the_base, cell, cell_ok, cell_width, fit, fitted, lemma_half_view, lemma_zoomed_bounds, share, spot, the_fit_is_centred, the_fit_stays_inside, whole_window, zoomed,
};
use crate::items::{ItemState, RectPx, Uv, VideoMode};
use crate::pointer::lemma_cells;
use crate::statusline::{hint_width, keycap, keycaps};
use crate::tick::ReplyState;
use crate::transport::walk;
use crate::units::{most, round_div, round_div_is_nearest, ONE, PX};
use vstd::prelude::*;

verus! {

/// Whether none of the items is a picture.
pub open spec fn no_pictures(items: Seq<ItemState>) -> bool {
    forall|m: int| 0 <= m < items.len() ==> !((#[trigger] items[m]) is Video)
}

/// Whether the first `n` items are the pictures.
pub open spec fn pictures_are_first(items: Seq<ItemState>, n: int) -> bool {
    &&& n <= items.len()
    &&& forall|m: int| 0 <= m < items.len() ==> ((#[trigger] items[m]) is Video <==> m < n)
}

proof fn lemma_add(a: Seq<ItemState>, b: Seq<ItemState>)
    requires
        no_pictures(a),
        no_pictures(b),
    ensures
        no_pictures(a + b),
{
}

proof fn lemma_segments(s: AppState, k: int)
    ensures
        no_pictures(s.segments(k)),
    decreases k,
{
    if k > 0 {
        lemma_segments(s, k - 1);
        assert(no_pictures(s.segment(k - 1)));
        lemma_add(s.segments(k - 1), s.segment(k - 1));
    }
}

proof fn lemma_info(s: AppState, k: int)
    ensures
        no_pictures(s.info_block(k)),
    decreases k,
{
    if k > 0 {
        lemma_info(s, k - 1);
        let (i, y) = (k - 1, s.block_top(k - 1));
        assert(no_pictures(s.title_row(i, y)));
        assert(no_pictures(s.details(i, y + 2_100_000)));
        lemma_add(s.info_block(k - 1), s.title_row(i, y));
        lemma_add(
            s.info_block(k - 1) + s.title_row(i, y),
            s.details(i, y + 2_100_000),
        );
    }
}

proof fn lemma_walk(
    segments: Seq<(Seq<char>, crate::items::Rgba)>,
    i: int,
    x: int,
    y: int,
)
    ensures
        no_pictures(walk(segments, i, x, y)),
    decreases segments.len() - i,
{
    if i < segments.len() {
        lemma_walk(segments, i + 1, x - (660_000 * segments[i].0.len() + 800_000), y);
    }
}

proof fn lemma_keycaps(keys: Seq<(Seq<char>, Seq<char>)>, i: int, x: int, y: int, limit: int)
    ensures
        no_pictures(keycaps(keys, i, x, y, limit)),
    decreases keys.len() - i,
{
    if !(i >= keys.len() || x + hint_width(keys[i]) > limit) {
        lemma_keycaps(keys, i + 1, x + hint_width(keys[i]) + 2_000_000, y, limit);
        assert(no_pictures(keycap(x, y, keys[i].0)));
    }
}

proof fn lemma_transport(s: AppState)
    ensures
        no_pictures(s.transport_items()),
{
    if s.revealed() > crate::transport::FAINTEST {
        let w = walk(s.readout(), 0, s.vp.0 - 2_200_000, s.transport_middle());
        lemma_walk(s.readout(), 0, s.vp.0 - 2_200_000, s.transport_middle());
        let a = s.scrim() + s.skip_glyph(2_200_000, true);
        let b = a + s.skip_glyph(9_600_000, false);
        let c = b + s.play_glyph();
        lemma_add(s.scrim(), s.skip_glyph(2_200_000, true));
        lemma_add(a, s.skip_glyph(9_600_000, false));
        lemma_add(b, s.play_glyph());
        lemma_add(c, s.seek_bar());
        lemma_add(c + s.seek_bar(), w);
    }
}

proof fn lemma_hud(s: AppState)
    ensures
        no_pictures(s.hud()),
{
    let n = s.videos.len() as int;
    lemma_transport(s);
    lemma_segments(s, n);
    lemma_info(s, n);
    assert(no_pictures(s.brackets()));
    assert(no_pictures(s.toggle()));
    lemma_add(s.brackets(), s.toggle());
    lemma_add(s.brackets() + s.toggle(), s.info_block(n));
    lemma_add(s.brackets() + s.toggle() + s.info_block(n), s.transport_items());
}

proof fn lemma_status(s: AppState)
    ensures
        no_pictures(s.status_line()),
{
    lemma_keycaps(
        s.live_keys(),
        0,
        10_600_000,
        s.status_bar().y + 450_000,
        s.keys_limit(),
    );
}

proof fn lemma_badges(s: AppState)
    ensures
        no_pictures(s.badges()),
{
}

/// A frame draws its pictures first, and no other among what lies over them.
proof fn lemma_scene(s: AppState)
    requires
        forall|m: int| 0 <= m < s.pictures().len() ==> (#[trigger] s.pictures()[m]) is Video,
    ensures
        pictures_are_first(s.scene(), s.pictures().len() as int),
        forall|m: int| 0 <= m < s.pictures().len() ==> #[trigger] s.scene()[m] == s.pictures()[m],
{
    lemma_badges(s);
    lemma_status(s);
    let over = if s.mask_mode {
        assert(no_pictures(s.mask_layer()));
        lemma_add(s.badges(), s.mask_layer());
        lemma_add(s.badges() + s.mask_layer(), s.status_line());
        s.badges() + s.mask_layer() + s.status_line()
    } else if s.show_ui {
        lemma_hud(s);
        lemma_add(s.badges(), s.hud());
        lemma_add(s.badges() + s.hud(), s.status_line());
        s.badges() + s.hud() + s.status_line()
    } else {
        s.badges()
    };
    assert(s.scene() =~= s.pictures() + over);
}

/// A tick leaves the view as it is, and gives the window its size.
pub proof fn a_tick_leaves_the_view_as_it_is(
    s: AppState,
    dt: int,
    vp: (u32, u32),
    reply: ReplyState,
)
    requires
        s.wf(),
    ensures
        ({
            let a = s.ticked(dt, vp, reply);
            &&& a.vp == vp
            &&& a.mode == s.mode && a.active == s.active && a.mask_mode == s.mask_mode
            &&& a.zoom == s.zoom && a.center == s.center && a.cursor == s.cursor
            &&& a.gain == s.gain && a.blend == s.blend && a.checker_px == s.checker_px
            &&& a.show_ui == s.show_ui && a.fullscreen == s.fullscreen && a.speed == s.speed
            &&& a.masks == s.masks && a.brush_diameter == s.brush_diameter
            &&& a.fps == s.fps && a.wrap == s.wrap && a.drag == s.drag && a.cmds == s.cmds
            &&& a.playing == s.playing
            &&& a.videos.len() == s.videos.len()
            &&& forall|i: int|
                0 <= i < s.videos.len() ==> (#[trigger] a.videos[i]).info == s.videos[i].info
        }),
{
    reveal(AppState::sized);
    reveal(AppState::replied);
    reveal(AppState::clocked);
    reveal(AppState::looped);
    reveal(AppState::sought);
    reveal(AppState::drained);
}

/// In overlay the active clip is the one picture shown, plain and whole; so it
/// is in every view with a single clip, and while its mask is painted.
pub proof fn overlay_shows_the_active_clip(
    s: AppState,
    dt: int,
    vp: (u32, u32),
    reply: ReplyState,
)
    requires
        s.wf(),
        s.videos.len() > 0,
        s.mode == Mode::Overlay || s.videos.len() == 1 || s.mask_mode,
    ensures
        ({
            let items = s.shown_frame(dt, vp, reply).items;
            let after = s.ticked(dt, vp, reply);
            &&& pictures_are_first(items, 1)
            &&& items[0] == ItemState::Video {
                a: s.active,
                b: s.active,
                r: after.content(s.active as int),
                uv: Uv { u0: 0, v0: 0, u1: 1_000_000_000, v1: 1_000_000_000 },
                mode: VideoMode::Tex,
                p0: 0,
                p1: 0,
            }
        }),
{
    a_tick_leaves_the_view_as_it_is(s, dt, vp, reply);
    lemma_scene(s.ticked(dt, vp, reply));
}

/// Which picture mode shows a view.
pub open spec fn shown_by(mode: Mode, how: VideoMode) -> bool {
    match mode {
        Mode::Delta => how == VideoMode::Delta,
        Mode::Split => how == VideoMode::Split,
        Mode::Checker => how == VideoMode::Checker,
        Mode::Blend => how == VideoMode::Blend,
        _ => how == VideoMode::Tex,
    }
}

/// In delta, split, checker and blend one picture is drawn, and it compares the
/// active clip with the next one, the first after the last: two different
/// clips. The gain, the tile and the mix are those that are set; the divider of
/// the split lies under the pointer, or at the picture's edge beyond which the
/// pointer is.
pub proof fn a_pair_is_the_active_clip_and_the_next(
    s: AppState,
    dt: int,
    vp: (u32, u32),
    reply: ReplyState,
)
    requires
        s.wf(),
        s.videos.len() >= 2,
        !s.mask_mode,
        s.mode != Mode::Overlay && s.mode != Mode::SideBySide,
    ensures
        ({
            let items = s.shown_frame(dt, vp, reply).items;
            let after = s.ticked(dt, vp, reply);
            &&& pictures_are_first(items, 1)
            &&& match items[0] {
                ItemState::Video { a, b, r, uv, mode, p0, p1 } => {
                    let x = s.cursor.0 - r.x;
                    &&& a == s.active
                    &&& b == (s.active + 1) % (s.videos.len() as int)
                    &&& a != b
                    &&& r == after.content(s.active as int)
                    &&& uv == Uv { u0: 0, v0: 0, u1: 1_000_000_000, v1: 1_000_000_000 }
                    &&& shown_by(s.mode, mode)
                    &&& p1 == s.gain
                    &&& s.mode == Mode::Blend ==> p0 == s.blend
                    &&& s.mode == Mode::Checker ==> p0 == s.checker_px
                    &&& s.mode == Mode::Split && x <= 0 ==> p0 == 0
                    &&& s.mode == Mode::Split && x >= r.w && r.w >= PX ==> p0 == 1_000_000_000
                    &&& s.mode == Mode::Split && 0 <= x <= r.w && r.w >= PX ==> {
                        &&& 2 * (p0 * r.w - x * 1_000_000_000) <= r.w
                        &&& 2 * (x * 1_000_000_000 - p0 * r.w) <= r.w
                    }
                },
                _ => false,
            }
        }),
{
    a_tick_leaves_the_view_as_it_is(s, dt, vp, reply);
    let after = s.ticked(dt, vp, reply);
    lemma_scene(after);
    let n = s.videos.len() as int;
    assert((s.active + 1) % n == following(s.active as int, n)) by {
        if s.active + 1 < n {
            vstd::arithmetic::div_mod::lemma_small_mod((s.active + 1) as nat, n as nat);
        } else {
            vstd::arithmetic::div_mod::lemma_mod_self_0(n);
        }
    }
    let r = after.content(after.active as int);
    lemma_divider(s.cursor.0 as int, r.x as int, most(r.w as int, PX as int));
}

/// Where a coordinate lies on a length.
pub proof fn lemma_divider(v: int, from: int, len: int)
    requires
        len >= 1,
    ensures
        ({
            let p = spot(v, from, len);
            let x = v - from;
            &&& 0 <= p <= ONE
            &&& x <= 0 ==> p == 0
            &&& x >= len ==> p == ONE
            &&& 0 <= x <= len ==> 2 * (p * len - x * ONE) <= len && 2 * (x * ONE - p * len) <= len
        }),
{
    let x = v - from;
    let one = ONE as int;
    let q = share(x, len);
    round_div_is_nearest(x * one, len);
    assert(2 * len * q == 2 * (q * len)) by (nonlinear_arith);
    assert(x <= 0 ==> q <= 0) by (nonlinear_arith)
        requires
            2 * len * q <= 2 * (x * one) + len,
            len >= 1,
            one > 0,
    ;
    assert(x >= len ==> q >= one) by (nonlinear_arith)
        requires
            2 * (x * one) + len < 2 * len * q + 2 * len,
            len >= 1,
            one > 0,
    ;
    assert(0 <= x ==> q >= 0) by (nonlinear_arith)
        requires
            2 * (x * one) + len < 2 * len * q + 2 * len,
            len >= 1,
            one > 0,
    ;
    assert(x <= len ==> q <= one) by (nonlinear_arith)
        requires
            2 * len * q <= 2 * (x * one) + len,
            len >= 1,
            one > 0,
    ;
}

/// Side by side, every clip is shown once, plain and whole, the clips in their
/// order.
pub proof fn side_by_side_shows_every_clip(
    s: AppState,
    dt: int,
    vp: (u32, u32),
    reply: ReplyState,
    i: int,
)
    requires
        s.wf(),
        s.videos.len() >= 2,
        !s.mask_mode,
        s.mode == Mode::SideBySide,
        0 <= i < s.videos.len(),
    ensures
        ({
            let items = s.shown_frame(dt, vp, reply).items;
            let after = s.ticked(dt, vp, reply);
            &&& pictures_are_first(items, s.videos.len() as int)
            &&& items[i] == ItemState::Video {
                a: i as usize,
                b: i as usize,
                r: after.cell_content(i),
                uv: Uv { u0: 0, v0: 0, u1: 1_000_000_000, v1: 1_000_000_000 },
                mode: VideoMode::Tex,
                p0: 0,
                p1: 0,
            }
        }),
{
    a_tick_leaves_the_view_as_it_is(s, dt, vp, reply);
    lemma_scene(s.ticked(dt, vp, reply));
}

/// Whether a picture of those dimensions is fitted into the space from `x` to
/// `x + w` and from 0 to `h`: inside it, as large as it can be, in its shape,
/// and in the middle, to within a unit.
pub open spec fn fills(r: RectPx, dims: (u32, u32), x: int, w: int, h: int) -> bool {
    let (dw, dh) = (dims.0 as int, dims.1 as int);
    &&& x <= r.x && r.x + r.w <= x + w
    &&& 0 <= r.y && r.y + r.h <= h
    &&& r.w == w || r.h == h
    &&& 2 * (r.h * dw - r.w * dh) <= most(dw, dh)
    &&& 2 * (r.w * dh - r.h * dw) <= most(dw, dh)
    &&& 0 <= (r.x - x) - ((x + w) - (r.x + r.w)) <= 1
    &&& 0 <= r.y - (h - (r.y + r.h)) <= 1
}

proof fn lemma_fit_fills(dims: (u32, u32), c: RectPx)
    requires
        crate::geometry::dims_ok(dims),
        cell_ok(c),
        c.y == 0,
    ensures
        fills(fit(dims, c), dims, c.x as int, c.w as int, c.h as int),
{
    the_fit_stays_inside(dims, c);
    the_fit_is_centred(dims, c);
    let r = fit(dims, c);
    let (dw, dh) = (dims.0 as int, dims.1 as int);
    let (w, h) = (c.w as int, c.h as int);
    if w * dh <= h * dw {
        let q = round_div(w * dh, dw);
        round_div_is_nearest(w * dh, dw);
        assert(2 * dw * q == 2 * (q * dw)) by (nonlinear_arith);
        assert(r.w == w && r.h == q);
    } else {
        let q = round_div(h * dw, dh);
        round_div_is_nearest(h * dw, dh);
        assert(2 * dh * q == 2 * (q * dh)) by (nonlinear_arith);
        assert(r.h == h && r.w == q);
    }
}

/// Not zoomed, a picture fills its window: as large as its shape allows, in the
/// middle.
pub proof fn a_picture_fits_its_window(s: AppState, i: int)
    requires
        s.wf(),
        s.zoom == ONE,
        0 <= i < s.videos.len(),
    ensures
        fills(
            s.content(i),
            (s.videos[i].info.width, s.videos[i].info.height),
            0,
            s.vp.0 as int,
            s.vp.1 as int,
        ),
{
    reveal(AppState::content);
    clip_ok(s.videos, s.masks, i);
    lemma_half_view(ONE as int);
    let c = whole_window(s.vp);
    the_fit_stays_inside(s.videos[i].dims(), c);
    at_fit_the_view_is_the_base(fit(s.videos[i].dims(), c), 0);
    lemma_fit_fills(s.videos[i].dims(), c);
}

/// Side by side and not zoomed, clip `i` of `n` fills the `i`-th of `n` cells as
/// wide as the window allows: clips stand next to each other from left to right
/// in their order, none over another.
pub proof fn clips_stand_side_by_side(s: AppState, i: int, j: int)
    requires
        s.wf(),
        s.zoom == ONE,
        0 <= i < j < s.videos.len(),
    ensures
        ({
            let (a, b) = (s.cell_content(i), s.cell_content(j));
            let (n, w, h) = (s.videos.len() as int, s.vp.0 as int, s.vp.1 as int);
            &&& a.x + a.w <= b.x
            &&& exists|cw: int|
                {
                    &&& 2 * (n * cw - w) <= n && 2 * (w - n * cw) <= n
                    &&& #[trigger] stands(s, i, i * cw, cw) && stands(s, j, j * cw, cw)
                }
        }),
{
    lemma_cell_of_clip(s, i);
    lemma_cell_of_clip(s, j);
    let n = s.videos.len() as int;
    let cw = cell_width(s.vp.0 as int, n);
    round_div_is_nearest(s.vp.0 as int, n);
    assert(2 * n * cw == 2 * (n * cw)) by (nonlinear_arith);
    assert(i * cw + cw <= j * cw) by (nonlinear_arith)
        requires
            i + 1 <= j,
            cw >= 0,
    ;
    assert(stands(s, i, i * cw, cw) && stands(s, j, j * cw, cw));
}

/// Whether clip `i`, side by side with the others, fills the cell from `x` on,
/// `cw` wide and as high as the window.
pub open spec fn stands(s: AppState, i: int, x: int, cw: int) -> bool {
    fills(
        s.cell_content(i),
        (s.videos[i].info.width, s.videos[i].info.height),
        x,
        cw,
        s.vp.1 as int,
    )
}

proof fn lemma_cell_of_clip(s: AppState, i: int)
    requires
        s.wf(),
        s.zoom == ONE,
        0 <= i < s.videos.len(),
    ensures
        ({
            let cw = cell_width(s.vp.0 as int, s.videos.len() as int);
            &&& cw >= 0
            &&& stands(s, i, i * cw, cw)
        }),
{
    reveal(AppState::cell_content);
    clip_ok(s.videos, s.masks, i);
    lemma_half_view(ONE as int);
    let n = s.videos.len() as int;
    lemma_cells(s.vp.0 as int, n, i);
    let c = cell(i, n, s.vp);
    the_fit_stays_inside(s.videos[i].dims(), c);
    at_fit_the_view_is_the_base(fit(s.videos[i].dims(), c), 0);
    lemma_fit_fills(s.videos[i].dims(), c);
}

/// Whether `r` is `base` zoomed: its sides are `zoom` times as long, and the
/// point of it at `center` lies in the middle of `base`, to within a unit.
pub open spec fn is_zoomed(r: RectPx, base: RectPx, zoom: int, center: (i64, i64)) -> bool {
    let one = 1_000_000_000int;
    let ax = one * (2 * base.x + base.w - 2 * r.x) - 2 * (r.w * center.0);
    let ay = one * (2 * base.y + base.h - 2 * r.y) - 2 * (r.h * center.1);
    &&& 2 * (one * r.w - base.w * zoom) <= one && 2 * (base.w * zoom - one * r.w) <= one
    &&& 2 * (one * r.h - base.h * zoom) <= one && 2 * (base.h * zoom - one * r.h) <= one
    &&& -2 * one <= ax <= 2 * one
    &&& -2 * one <= ay <= 2 * one
}

proof fn lemma_is_zoomed(base: RectPx, zoom: int, center: (i64, i64))
    requires
        cell_ok(base),
        crate::geometry::zoom_ok(zoom),
        0 <= center.0 <= ONE,
        0 <= center.1 <= ONE,
    ensures
        is_zoomed(zoomed(base, zoom, (center.0 as int, center.1 as int)), base, zoom, center),
{
    let r = zoomed(base, zoom, (center.0 as int, center.1 as int));
    lemma_zoomed_bounds(base, zoom, (center.0 as int, center.1 as int));
    round_div_is_nearest(base.w * zoom, ONE as int);
    round_div_is_nearest(base.h * zoom, ONE as int);
    round_div_is_nearest(r.w * center.0, ONE as int);
    round_div_is_nearest(r.h * center.1, ONE as int);
    round_div_is_nearest(base.w as int, 2);
    round_div_is_nearest(base.h as int, 2);
}

/// Every picture is zoomed alike: by the one zoom, with the one point of the
/// content in the middle of the place that it fills when it is not zoomed;
/// in the whole window, and side by side with the others.
pub proof fn every_picture_is_zoomed_alike(s: AppState, i: int)
    requires
        s.wf(),
        0 <= i < s.videos.len(),
    ensures
        ({
            let fit = AppState { zoom: ONE, center: (MIDDLE, MIDDLE), ..s };
            &&& is_zoomed(s.content(i), fit.content(i), s.zoom as int, s.center)
            &&& is_zoomed(s.cell_content(i), fit.cell_content(i), s.zoom as int, s.center)
        }),
{
    reveal(AppState::content);
    reveal(AppState::cell_content);
    clip_ok(s.videos, s.masks, i);
    lemma_half_view(ONE as int);
    lemma_half_view(s.zoom as int);
    let n = s.videos.len() as int;
    let dims = s.videos[i].dims();
    lemma_cells(s.vp.0 as int, n, i);
    let (a, b) = (fit(dims, whole_window(s.vp)), fit(dims, cell(i, n, s.vp)));
    the_fit_stays_inside(dims, whole_window(s.vp));
    the_fit_stays_inside(dims, cell(i, n, s.vp));
    at_fit_the_view_is_the_base(a, 0);
    at_fit_the_view_is_the_base(b, 0);
    lemma_is_zoomed(a, s.zoom as int, s.center);
    lemma_is_zoomed(b, s.zoom as int, s.center);
}

/// While a mask is painted it lies over the picture, and on nothing else: in the
/// place of the one picture that the frame shows, the active clip's mask.
pub proof fn the_mask_covers_its_picture(
    s: AppState,
    dt: int,
    vp: (u32, u32),
    reply: ReplyState,
)
    requires
        s.wf(),
        s.mask_mode,
    ensures
        ({
            let items = s.shown_frame(dt, vp, reply).items;
            &&& items.len() >= 2
            &&& items[0] is Video
            &&& items[1] matches ItemState::Mask { r, slot, id, revision, width, height }
            &&& r == items[0]->Video_r
            &&& slot == s.active
            &&& s.masks[s.active as int] == Some(
                crate::mask::MaskState {
                    id,
                    revision,
                    width,
                    height,
                    ..s.masks[s.active as int]->0
                },
            )
        }),
{
    a_tick_leaves_the_view_as_it_is(s, dt, vp, reply);
    let after = s.ticked(dt, vp, reply);
    lemma_scene(after);
    assert(after.badges().len() == 0);
    let (p, m) = (after.pictures(), after.mask_layer());
    assert(after.scene()[1] == m[0]);
}

} // verus!
