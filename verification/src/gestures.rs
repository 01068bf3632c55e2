//! The pointer, seen from outside: pressing, scrubbing and painting.

use crate::app::{clip_ok, AppState};
use crate::geometry::{half, share, spot};
use crate::items::RectPx;
use crate::units::{round_div, round_div_is_nearest, scaled, ONE};
use vstd::prelude::*;

verus! {

/// The transport lies along the bottom of the window, and its parts in it, side
/// by side from left to right: previous, play, next and the seek bar, of which
/// none covers another.
pub proof fn the_transport_lies_at_the_bottom(s: AppState)
    ensures
        ({
            let (bar, prev, play, next, track) = (
                s.transport(),
                s.prev_button(),
                s.play_button(),
                s.next_button(),
                s.seek_track(),
            );
            &&& bar.x == 0 && bar.w == s.vp.0 && bar.y + bar.h == s.vp.1 && bar.h == 9_000_000
            &&& 0 < prev.x && prev.x + prev.w < play.x && play.x + play.w < next.x
            &&& next.x + next.w < track.x - 600_000
            &&& bar.y <= prev.y && prev.y + prev.h <= s.vp.1
            &&& prev.y == play.y && play.y == next.y && prev.h == play.h && play.h == next.h
            &&& prev.w > 0 && play.w > 0 && next.w > 0 && prev.h > 0
            &&& prev.y <= track.y && track.y + track.h <= prev.y + prev.h && track.h > 0
            &&& track.w >= 4_000_000
            &&& s.vp.0 >= 52_700_000 ==> track.x + track.w == s.vp.0 - 35_200_000
        }),
{
}

/// Whether every stream and the clock were sent to `t`.
pub open spec fn all_sent_to(s: AppState, a: AppState, t: int) -> bool {
    &&& a.t == t
    &&& a.videos.len() == s.videos.len()
    &&& forall|i: int|
        0 <= i < s.videos.len() ==> {
            &&& (#[trigger] a.videos[i]).player.cmd == Some((t as i64, true))
            &&& a.videos[i].player.frames.len() == 0
            &&& a.videos[i].pending == (s.videos[i].pending || !s.playing)
        }
}

/// Whether `t` is as far into `length` as `x` is along the track, to the nearest
/// billionth of the track and then of a second; beyond the track's ends, its
/// ends.
pub open spec fn as_far_as(t: int, length: int, x: int, track: RectPx) -> bool {
    let d = x - track.x;
    let one = 1_000_000_000int;
    &&& d <= 0 ==> t == 0
    &&& d >= track.w ==> t == length
    &&& 0 <= d <= track.w ==> {
        &&& 2 * (one * (track.w * t - length * d)) <= track.w * (one + length)
        &&& 2 * (one * (length * d - track.w * t)) <= track.w * (one + length)
    }
}

pub proof fn lemma_scrub(length: int, x: int, track: RectPx)
    requires
        length >= 0,
        track.w >= 1,
    ensures
        as_far_as(scaled(length, spot(x, track.x as int, track.w as int)), length, x, track),
        0 <= scaled(length, spot(x, track.x as int, track.w as int)) <= length,
{
    let one = ONE as int;
    let w = track.w as int;
    let d = x - track.x;
    let q = share(d, w);
    let f = spot(x, track.x as int, w);
    let t = scaled(length, f);
    round_div_is_nearest(d * one, w);
    round_div_is_nearest(length * f, one);
    crate::units::scaled_within(length, f);
    assert(d <= 0 ==> q <= 0) by (nonlinear_arith)
        requires
            2 * w * q <= 2 * (d * one) + w,
            w >= 1,
            one > 0,
    ;
    assert(d >= w ==> q >= one) by (nonlinear_arith)
        requires
            2 * (d * one) + w < 2 * w * q + 2 * w,
            w >= 1,
            one > 0,
    ;
    if d <= 0 {
        assert(length * f == 0) by (nonlinear_arith)
            requires
                f == 0,
        ;
        crate::units::round_div_bounds(0, one, 0, 0);
    }
    if 0 <= d <= w {
        assert(0 <= q <= one) by (nonlinear_arith)
            requires
                2 * w * q <= 2 * (d * one) + w,
                2 * (d * one) + w < 2 * w * q + 2 * w,
                0 <= d <= w,
                w >= 1,
                one > 0,
        ;
        assert(f == q);
        let lf = length * f;
        let (wf, od, wl) = (w * f, d * one, w * length);
        assert(2 * w * f == 2 * wf) by (nonlinear_arith)
            requires
                wf == w * f,
        ;
        assert(2 * (length * wf) <= 2 * (length * od) + wl && 2 * (length * od) <= 2 * (length * wf)
            + wl) by (nonlinear_arith)
            requires
                wl == w * length,
                2 * wf <= 2 * od + w,
                2 * od + w <= 2 * wf + 2 * w,
                length >= 0,
        ;
        let ot = one * t;
        assert(2 * (w * ot) <= 2 * (w * lf) + w * one && 2 * (w * lf) <= 2 * (w * ot) + w * one)
            by (nonlinear_arith)
            requires
                2 * ot <= 2 * lf + one,
                2 * lf + one <= 2 * ot + 2 * one,
                w >= 1,
        ;
        assert(w * lf == length * wf) by (nonlinear_arith)
            requires
                lf == length * f,
                wf == w * f,
        ;
        assert(one * (w * t - length * d) == w * ot - length * od && w * (one + length) == w * one
            + wl && one * (length * d - w * t) == length * od - w * ot) by (nonlinear_arith)
            requires
                ot == one * t,
                od == d * one,
                wl == w * length,
        ;
    }
}

/// A press on the seek bar, or near it, takes every stream to the place that the
/// pointer names: from the start at the bar's left end to the loop point's
/// margin at its right.
pub proof fn a_press_on_the_seek_bar_scrubs(s: AppState, x: i32, y: i32)
    requires
        s.wf(),
        s.videos.len() > 0,
        s.show_ui,
        !s.mask_mode,
        s.seek_track().x - 600_000 <= x <= s.seek_track().x + s.seek_track().w + 600_000,
        s.seek_track().y - 900_000 <= y <= s.seek_track().y + s.seek_track().h + 900_000,
    ensures
        ({
            let a = s.pressed(x, y);
            &&& a.scrubbing && a.drag == s.drag && a.playing == s.playing
            &&& s.wrap matches Some(w) ==> as_far_as(
                a.t as int,
                w - 50_000_000,
                x as int,
                s.seek_track(),
            ) && all_sent_to(s, a, a.t as int)
            &&& s.wrap is None ==> a.t == s.t && a.videos == s.videos
        }),
{
    reveal(AppState::pressed);
    reveal(AppState::target);
    reveal(AppState::revealed);
    reveal(AppState::scrubbed);
    reveal(AppState::sought);
    the_transport_lies_at_the_bottom(s);
    if s.wrap is Some {
        lemma_scrub(s.wrap->0 - 50_000_000, x as int, s.seek_track());
    }
}

/// While the bar is held, every motion takes the streams along.
pub proof fn a_scrub_follows_the_pointer(s: AppState, x: i32, y: i32)
    requires
        s.wf(),
        s.scrubbing,
        !s.mask_mode,
    ensures
        ({
            let a = s.moved(x, y);
            &&& a.scrubbing && a.center == s.center && a.cursor == (x, y)
            &&& s.wrap matches Some(w) ==> as_far_as(
                a.t as int,
                w - 50_000_000,
                x as int,
                s.seek_track(),
            ) && all_sent_to(s, a, a.t as int)
            &&& s.wrap is None ==> a.t == s.t && a.videos == s.videos
        }),
{
    reveal(AppState::moved);
    reveal(AppState::scrubbed);
    reveal(AppState::sought);
    if s.wrap is Some {
        lemma_scrub(s.wrap->0 - 50_000_000, x as int, s.seek_track());
    }
}

/// A press anywhere above the transport starts a drag there, and does nothing
/// else but bring the transport up; so does any press with the interface hidden.
pub proof fn a_press_on_the_frame_starts_a_drag(s: AppState, x: i32, y: i32)
    requires
        s.wf(),
        !s.mask_mode,
        !s.show_ui || s.videos.len() == 0 || y < s.vp.1 - 9_000_000,
    ensures
        s.pressed(x, y) == (AppState { drag: Some((x, y)), since_pointer: 0, ..s }),
{
    reveal(AppState::pressed);
    reveal(AppState::target);
}

/// Whether the pointer at `(x, y)` is over the picture where it can be painted:
/// inside the picture and the window, not under the window's buttons and not on
/// the status line.
pub open spec fn over_the_picture(s: AppState, x: int, y: int) -> bool {
    let r = s.content(s.active as int);
    &&& r.x <= x < r.x + r.w && r.y <= y < r.y + r.h
    &&& 0 <= x < s.vp.0
    &&& y >= if s.fullscreen { 0int } else { 2_800_000 }
    &&& y < s.vp.1 - 3_400_000
}

/// Whether `p` is the image point that lies at `at` on a picture from `from` on,
/// `len` long, of `pixels` pixels: to the nearest unit.
pub open spec fn lies_under(p: int, at: int, from: int, len: int, pixels: int) -> bool {
    &&& 2 * (p * len - (at - from) * (pixels * 100_000)) <= len
    &&& 2 * ((at - from) * (pixels * 100_000) - p * len) <= len
}

proof fn lemma_under(d: int, k: int, len: int)
    requires
        0 <= d < len,
        k >= 0,
    ensures
        ({
            let p = round_div(d * k, len);
            &&& 2 * (p * len - d * k) <= len
            &&& 2 * (d * k - p * len) <= len
            &&& 0 <= p <= k
        }),
{
    let p = round_div(d * k, len);
    round_div_is_nearest(d * k, len);
    assert(2 * len * p == 2 * (p * len)) by (nonlinear_arith);
    assert(0 <= d * k && d * k <= k * len) by (nonlinear_arith)
        requires
            0 <= d < len,
            k >= 0,
    ;
    crate::units::round_div_bounds(d * k, len, 0, k);
}

/// What a stroke of the brush does to a comparison: the active clip's mask is
/// painted from where the stroke was, or from here where it begins, to the image
/// point under the pointer, and nothing else of the clips and masks changes.
pub open spec fn brushed_to(s: AppState, a: AppState, x: int, y: int) -> bool {
    let i = s.active as int;
    let r = s.content(i);
    let m = s.masks[i]->0;
    &&& a.videos == s.videos && a.t == s.t && a.active == s.active && a.playing == s.playing
    &&& a.masks.len() == s.masks.len()
    &&& forall|k: int| 0 <= k < s.masks.len() && k != i ==> #[trigger] a.masks[k] == s.masks[k]
    &&& a.stroke_last matches Some(p) && {
        let to = (p.0 as int, p.1 as int);
        let from = match s.stroke_last {
            Some(q) => (q.0 as int, q.1 as int),
            None => to,
        };
        &&& lies_under(to.0, x, r.x as int, r.w as int, m.width as int)
        &&& lies_under(to.1, y, r.y as int, r.h as int, m.height as int)
        &&& a.masks[i] == Some(m.painted(from, to, (s.brush_diameter + 1) / 2))
    }
}

proof fn lemma_brushed(s: AppState)
    requires
        s.wf(),
        s.mask_mode,
        s.cursor_inside,
        over_the_picture(s, s.cursor.0 as int, s.cursor.1 as int),
    ensures
        s.brush_visible(),
        brushed_to(s, s.painted(), s.cursor.0 as int, s.cursor.1 as int),
{
    reveal(AppState::brush_visible);
    reveal(AppState::painted);
    reveal(AppState::brush_point);
    let i = s.active as int;
    let r = s.content(i);
    clip_ok(s.videos, s.masks, i);
    let m = s.masks[i]->0;
    lemma_under(s.cursor.0 - r.x, m.width * 100_000, r.w as int);
    lemma_under(s.cursor.1 - r.y, m.height * 100_000, r.h as int);
    let d = s.brush_diameter as int;
    assert(half(d) == (d + 1) / 2) by {
        round_div_is_nearest(d, 2);
    }
}

/// While painting, a motion paints on to the image point under the pointer,
/// where the pointer is over the picture; elsewhere nothing is painted, and the
/// stroke breaks off.
pub proof fn a_motion_paints_under_the_pointer(s: AppState, x: i32, y: i32)
    requires
        s.wf(),
        s.mask_mode,
        s.painting,
    ensures
        over_the_picture(s, x as int, y as int) ==> brushed_to(s, s.moved(x, y), x as int, y as int),
        !over_the_picture(s, x as int, y as int) ==> s.moved(x, y).masks == s.masks && s.moved(
            x,
            y,
        ).stroke_last is None,
{
    reveal(AppState::moved);
    reveal(AppState::hovering);
    reveal(AppState::content);
    let h = s.hovering(x, y);
    assert(h.content(s.active as int) == s.content(s.active as int));
    if over_the_picture(s, x as int, y as int) {
        lemma_brushed(h);
    } else {
        reveal(AppState::brush_visible);
        reveal(AppState::painted);
    }
}

/// A press in mask painting starts a stroke under the pointer, where the pointer
/// is over the picture, and paints there; elsewhere it paints nothing.
pub proof fn a_press_starts_a_stroke(s: AppState, x: i32, y: i32)
    requires
        s.wf(),
        s.mask_mode,
    ensures
        ({
            let a = s.pressed(x, y);
            &&& over_the_picture(s, x as int, y as int) ==> a.painting && brushed_to(
                AppState { stroke_last: None, ..s },
                a,
                x as int,
                y as int,
            )
            &&& !over_the_picture(s, x as int, y as int) ==> !a.painting && a.masks == s.masks
                && a.stroke_last is None
        }),
{
    reveal(AppState::pressed);
    reveal(AppState::brush_down);
    reveal(AppState::hovering);
    reveal(AppState::content);
    let h = s.hovering(x, y);
    let t = AppState { painting: true, stroke_last: None, ..h };
    assert(t.content(s.active as int) == s.content(s.active as int));
    assert(h.content(s.active as int) == s.content(s.active as int));
    assert((AppState { stroke_last: None, ..s }).content(s.active as int) == s.content(
        s.active as int,
    ));
    reveal(AppState::brush_visible);
    reveal(AppState::painted);
    if over_the_picture(s, x as int, y as int) {
        lemma_brushed(t);
    }
}

/// A motion without the button held paints nothing and pans nothing in mask
/// painting.
pub proof fn a_hover_changes_nothing(s: AppState, x: i32, y: i32)
    requires
        s.wf(),
        s.mask_mode,
        !s.painting,
    ensures
        s.moved(x, y) == (AppState { cursor_inside: true, cursor: (x, y), ..s }),
{
    reveal(AppState::moved);
    reveal(AppState::hovering);
}

/// The transport stands for 2.6 seconds after the last motion, fades over 0.45,
/// and is gone then; while the seek bar is held it stays.
pub proof fn the_transport_fades_after_stillness(s: AppState)
    requires
        s.wf(),
    ensures
        ({
            let a = s.revealed();
            let over = s.since_pointer - 2_600_000_000;
            &&& s.scrubbing || over <= 0 ==> a == 1_000_000_000
            &&& !s.scrubbing && over >= 450_000_000 ==> a == 0
            &&& !s.scrubbing && 0 <= over <= 450_000_000 ==> {
                &&& 2 * (450_000_000 * (1_000_000_000 - a) - over * 1_000_000_000) <= 450_000_000
                &&& 2 * (over * 1_000_000_000 - 450_000_000 * (1_000_000_000 - a)) <= 450_000_000
            }
        }),
{
    reveal(AppState::revealed);
    let over = s.since_pointer - 2_600_000_000;
    round_div_is_nearest(over * ONE, 450_000_000);
}

/// Whether a point lies in a rectangle, its edges counted.
pub open spec fn is_in(r: RectPx, x: int, y: int) -> bool {
    r.x <= x && x <= r.x + r.w && r.y <= y && y <= r.y + r.h
}

/// A press on the transport is that of the part it lands on: previous and next
/// step a frame, play pauses or plays; what lands beside them all starts a drag.
pub proof fn a_press_is_the_parts_that_it_lands_on(s: AppState, x: i32, y: i32)
    requires
        s.wf(),
        s.videos.len() > 0,
        s.show_ui,
        !s.mask_mode,
    ensures
        ({
            let a = s.pressed(x, y);
            let t = s.seek_track();
            let (px, py) = (x as int, y as int);
            let on_bar = t.x - 600_000 <= x <= t.x + t.w + 600_000 && t.y - 900_000 <= y <= t.y + t.h
                + 900_000;
            let (prev, play, next) = (
                is_in(s.prev_button(), px, py),
                is_in(s.play_button(), px, py),
                is_in(s.next_button(), px, py),
            );
            let still = AppState { since_pointer: 0, ..s };
            &&& play ==> a == (AppState { playing: !s.playing, ..still })
            &&& prev ==> a == still.keyed(crate::app::Key::Char(','))
            &&& next ==> a == still.keyed(crate::app::Key::Char('.'))
            &&& !prev && !play && !next && !on_bar ==> a == (AppState { drag: Some((x, y)), ..still })
        }),
{
    reveal(AppState::pressed);
    reveal(AppState::target);
    reveal(AppState::revealed);
    reveal(AppState::compare_keyed);
    reveal(AppState::char_keyed);
}

/// A change of the window's size breaks a stroke off, and a tick without one
/// leaves it.
pub proof fn a_resize_breaks_the_stroke_off(s: AppState, vp: (u32, u32))
    ensures
        s.sized(vp).vp == vp,
        vp == s.vp ==> s.sized(vp) == s,
        vp != s.vp ==> s.sized(vp).stroke_last is None,
        s.sized(vp).masks == s.masks && s.sized(vp).videos == s.videos && s.sized(vp).zoom == s.zoom,
{
    reveal(AppState::sized);
}

/// A stroke on the picture takes back what was said of the mask; a pointer off
/// the picture leaves it said.
pub proof fn a_stroke_clears_the_status(s: AppState)
    ensures
        s.brush_visible() ==> s.painted().mask_status.len() == 0,
        !s.brush_visible() ==> s.painted().mask_status == s.mask_status,
{
    reveal(AppState::painted);
}

/// Controls that are hidden, or have faded by half, take no press.
pub proof fn faded_controls_take_no_press(s: AppState, x: int, y: int)
    requires
        s.wf(),
    ensures
        !s.show_ui || s.videos.len() == 0 ==> s.target(x, y) is Frame,
        !s.scrubbing && s.since_pointer >= 3_050_000_000 ==> s.target(x, y) is Frame,
        s.revealed() <= 500_000_000 ==> s.target(x, y) is Frame,
{
    reveal(AppState::target);
    reveal(AppState::revealed);
    round_div_is_nearest(
        (s.since_pointer - crate::app::TRANSPORT_HOLD) * ONE,
        crate::app::TRANSPORT_FADE as int,
    );
}

} // verus!
