//! What the pointer does: painting, scrubbing, panning and zooming.

use crate::app::{
    clip_ok, clips_ok, fits, hits, ids_ok, mask_state, App, AppState, Mode, Target, MIDDLE, SEEK_GRAB,
    STATUS_H, STATUS_RESERVE, TRANSPORT_FADE, TRANSPORT_H, TRANSPORT_HOLD, WRAP_MARGIN,
};
use crate::geometry::{
    cell_ok, cell_width, center_at, center_ok, fit_rect, halve, lemma_half_view, pan_by, rect,
    spot_of, zoom_ok, zoom_rect, zoomed, CELL_LIMIT, ZOOM_MAX, ZOOM_MIN,
};
use crate::items::RectPx;
use crate::units::{
    div_round, held, least, max, most, round_div, round_div_bounds, round_div_sign, scale, scaled_within, ONE, PX,
};
use vstd::prelude::*;

verus! {

/// A zoomed picture is in range.
pub open spec fn picture_ok(r: RectPx) -> bool {
    &&& 0 <= r.w <= 32 * CELL_LIMIT
    &&& 0 <= r.h <= 32 * CELL_LIMIT
    &&& -35 * CELL_LIMIT <= r.x <= 35 * CELL_LIMIT
    &&& -35 * CELL_LIMIT <= r.y <= 35 * CELL_LIMIT
}

/// The cells of a window, side by side, stay in range, however many there
/// are: where there are too many to see, they have no width.
pub proof fn lemma_cells(w: int, n: int, i: int)
    requires
        0 <= w < CELL_LIMIT,
        0 <= i < n,
    ensures
        0 <= cell_width(w, n) <= w,
        0 <= i * cell_width(w, n),
        i * cell_width(w, n) + cell_width(w, n) <= 2 * CELL_LIMIT,
        cell_width(w, n) > 0 ==> n < 2 * CELL_LIMIT,
        cell_width(w, n) == 0 ==> i * cell_width(w, n) == 0,
{
    let c = cell_width(w, n);
    assert(0 * n <= w && w <= w * n) by (nonlinear_arith)
        requires
            w >= 0,
            n >= 1,
    ;
    round_div_bounds(w, n, 0, w);
    crate::units::round_div_is_nearest(w, n);
    assert(i * c >= 0 && i * c + c <= n * c) by (nonlinear_arith)
        requires
            0 <= i < n,
            c >= 0,
    ;
    if c > 0 {
        assert(n <= 2 * w) by (nonlinear_arith)
            requires
                2 * n * c <= 2 * w + n,
                c >= 1,
                n >= 1,
        ;
        assert(2 * (n * c) <= 2 * w + n) by (nonlinear_arith)
            requires
                2 * n * c <= 2 * w + n,
        ;
    } else {
        assert(i * c == 0 && n * c == 0) by (nonlinear_arith)
            requires
                c == 0,
        ;
    }
}

/// The cell under the pointer lies in range.
pub proof fn lemma_cell_under(x: int, cw: int, n: int)
    requires
        PX <= cw <= CELL_LIMIT,
        x <= i32::MAX,
        n >= 1,
    ensures
        ({
            let i = least(most(x / cw, 0), n - 1);
            &&& 0 <= i < n
            &&& 0 <= i * cw
            &&& i * cw + cw <= 2 * CELL_LIMIT
        }),
{
    let q = x / cw;
    let i = least(most(q, 0), n - 1);
    vstd::arithmetic::div_mod::lemma_fundamental_div_mod(x, cw);
    vstd::arithmetic::div_mod::lemma_mod_bound(x, cw);
    assert(0 <= i * cw) by (nonlinear_arith)
        requires
            i >= 0,
            cw > 0,
    ;
    if q >= 0 {
        assert(i * cw <= q * cw) by (nonlinear_arith)
            requires
                i <= q,
                cw > 0,
        ;
        vstd::arithmetic::mul::lemma_mul_is_commutative(q, cw);
    } else {
        assert(i * cw == 0) by (nonlinear_arith)
            requires
                i == 0,
        ;
    }
}

impl App {
    /// Clip `i`'s dimensions.
    pub(crate) fn dims(&self, i: usize) -> (r: (u32, u32))
        requires
            self@.wf(),
            i < self@.videos.len(),
        ensures
            r == self@.videos[i as int].dims(),
            crate::geometry::dims_ok(r),
    {
        proof {
            clip_ok(self@.videos, self@.masks, i as int);
        }
        (self.videos[i].info.width, self.videos[i].info.height)
    }

    /// Where clip `idx` is shown when it fills the window.
    pub fn content_rect(&self, idx: usize) -> (r: RectPx)
        requires
            self@.wf(),
            idx < self@.videos.len(),
        ensures
            r == self@.content(idx as int),
            picture_ok(r),
    {
        proof {
            reveal(AppState::content);
            lemma_half_view(self.zoom as int);
        }
        let base = fit_rect(
            self.dims(idx),
            RectPx { x: 0, y: 0, w: self.vp.0 as i64, h: self.vp.1 as i64 },
        );
        zoom_rect(base, self.zoom, self.center)
    }

    /// The base fit rect a pointer gesture at `x` is anchored to.
    fn gesture_rect(&self, x: i32) -> (r: RectPx)
        requires
            self@.wf(),
            self@.is_ready(),
        ensures
            r == self@.gesture_base(x as int),
            cell_ok(r),
    {
        proof {
            reveal(AppState::gesture_base);
        }
        if self.mode == Mode::SideBySide && !self.mask_mode {
            let n: usize = self.videos.len();
            proof {
                lemma_cells(self.vp.0 as int, n as int, 0);
            }
            let cw: i64 = max(div_round(self.vp.0 as i128, n as i128) as i64, PX);
            let at: i64 = if x < 0 {
                0
            } else {
                x as i64 / cw
            };
            proof {
                lemma_cell_of(x as int, cw as int);
            }
            let i: usize = if (at as u64) < n as u64 {
                at as usize
            } else {
                n - 1
            };
            proof {
                lemma_cell_under(x as int, cw as int, n as int);
            }
            fit_rect(
                self.dims(i),
                RectPx { x: i as i64 * cw, y: 0, w: cw, h: self.vp.1 as i64 },
            )
        } else {
            fit_rect(
                self.dims(self.active),
                RectPx { x: 0, y: 0, w: self.vp.0 as i64, h: self.vp.1 as i64 },
            )
        }
    }

    /// The view's middle after a drag or a scroll by `(dx, dy)` at `x`.
    fn center_panned(&self, dx: i64, dy: i64, x: i32) -> (r: (i64, i64))
        requires
            self@.wf(),
            self@.is_ready(),
        ensures
            r == self@.pan_center(dx as int, dy as int, x as int),
            center_ok(self.zoom as int, (r.0 as int, r.1 as int)),
    {
        proof {
            reveal(AppState::pan_center);
            lemma_half_view(self.zoom as int);
        }
        let base = self.gesture_rect(x);
        (
            pan_by(self.center.0, dx, base.w, self.zoom),
            pan_by(self.center.1, dy, base.h, self.zoom),
        )
    }

    #[verifier::spinoff_prover]
    pub fn scroll(&mut self, dx: i32, dy: i32)
        requires
            old(self)@.wf(),
        ensures
            final(self)@ == old(self)@.scrolled(dx as int, dy as int),
            final(self)@.wf(),
    {
        proof {
            reveal(AppState::scrolled);
        }
        let center = if self.zoom > ZOOM_MIN {
            self.center_panned(dx as i64, dy as i64, self.cursor.0)
        } else {
            self.center
        };
        self.center = center;
        self.stroke_last = None;
    }

    /// The zoom that a pinch leads to.
    fn zoom_after(&self, delta: i64) -> (r: i64)
        requires
            self@.wf(),
        ensures
            r == self@.pinch_zoom(delta as int),
            zoom_ok(r as int),
    {
        let k: i128 = ONE as i128 + delta as i128;
        let z: i128 = self.zoom as i128;
        proof {
            assert(-0x100_0000_0000_0000_0000_0000_0000 <= z * k
                <= 0x100_0000_0000_0000_0000_0000_0000) by (nonlinear_arith)
                requires
                    0 <= z <= 0x8_0000_0000,
                    -0x1_0000_0000_0000_0000 <= k <= 0x1_0000_0000_0000_0000,
            ;
        }
        let q: i128 = div_round(z * k, ONE as i128);
        if q < ONE as i128 {
            ONE
        } else if q > ZOOM_MAX as i128 {
            ZOOM_MAX
        } else {
            q as i64
        }
    }

    /// Trackpad pinch, photo-style: scale around the pointer so whatever
    /// sits under it stays put, and every stream shares the resulting
    /// center. Positive delta means fingers spreading, so zooming in.
    #[verifier::spinoff_prover]
    pub fn pinch(&mut self, delta: i64)
        requires
            old(self)@.wf(),
        ensures
            final(self)@ == old(self)@.pinched(delta as int),
            final(self)@.wf(),
    {
        proof {
            reveal(AppState::pinched);
        }
        let new: i64 = self.zoom_after(delta);
        let acts = self.ready() && !(-10_000 < new - self.zoom && new - self.zoom < 10_000);
        let (zoom, center) = if acts {
            (new, self.center_after(new))
        } else {
            (self.zoom, self.center)
        };
        self.zoom = zoom;
        self.center = center;
        self.stroke_last = None;
    }

    /// The view's middle after a pinch to the zoom `new`.
    fn center_after(&self, new: i64) -> (r: (i64, i64))
        requires
            self@.wf(),
            self@.is_ready(),
            zoom_ok(new as int),
        ensures
            r == self@.pinch_center(new as int),
            center_ok(new as int, (r.0 as int, r.1 as int)),
    {
        proof {
            reveal(AppState::pinch_center);
            lemma_half_view(self.zoom as int);
        }
        let cx: i64 = self.cursor.0 as i64;
        let cy: i64 = self.cursor.1 as i64;
        let base = self.gesture_rect(self.cursor.0);
        let r = zoom_rect(base, self.zoom, self.center);
        let u: i64 = spot_of(cx, r.x, r.w);
        let v: i64 = spot_of(cy, r.y, r.h);
        (center_at(u, cx, base.x, base.w, new), center_at(v, cy, base.y, base.h, new))
    }

    /// The mask uses exactly the full-window video transform. The status
    /// line, the strip of the window buttons and the letterbox are not paint
    /// targets; leaving them breaks stroke continuity.
    pub fn brush_cursor_visible(&self) -> (r: bool)
        requires
            self@.wf(),
        ensures
            r == self@.brush_visible(),
    {
        proof {
            reveal(AppState::brush_visible);
        }
        if !self.mask_mode || !self.cursor_inside || !self.ready() {
            return false;
        }
        let r = self.content_rect(self.active);
        let x: i64 = self.cursor.0 as i64;
        let y: i64 = self.cursor.1 as i64;
        x >= r.x && x < r.x + r.w && y >= r.y && y < r.y + r.h && x >= 0 && x < self.vp.0 as i64 && y
            >= self.top_inset() && y < self.vp.1 as i64 - STATUS_H
    }

    /// The image point under the brush.
    fn point_under(&self) -> (r: (i64, i64))
        requires
            self@.wf(),
            self@.brush_visible(),
        ensures
            (r.0 as int, r.1 as int) == self@.brush_point(),
    {
        let a: usize = self.active;
        proof {
            reveal(AppState::brush_visible);
            reveal(AppState::brush_point);
            clip_ok(self@.videos, self@.masks, a as int);
        }
        assert(self@.masks[a as int] == mask_state(self.masks@[a as int]));
        let r = self.content_rect(a);
        match &self.masks[a] {
            Some(m) => {
                let x: i64 = place_in(self.cursor.0 as i64 - r.x, m.width, r.w);
                let y: i64 = place_in(self.cursor.1 as i64 - r.y, m.height, r.h);
                (x, y)
            },
            None => (0, 0),
        }
    }

    #[verifier::spinoff_prover]
    pub(crate) fn paint_at_cursor(&mut self)
        requires
            old(self)@.wf(),
            old(self)@.mask_mode,
        ensures
            final(self)@ == old(self)@.painted(),
            final(self)@.wf(),
    {
        let ghost s = self@;
        proof {
            reveal(AppState::painted);
        }
        if !self.brush_cursor_visible() {
            self.stroke_last = None;
            return;
        }
        let a: usize = self.active;
        let point: (i64, i64) = self.point_under();
        let from: (i64, i64) = match self.stroke_last {
            Some(p) => p,
            None => point,
        };
        let radius: i64 = halve(self.brush_diameter);
        proof {
            clip_ok(s.videos, s.masks, a as int);
        }
        assert(s.masks[a as int] == mask_state(self.masks@[a as int]));
        stroke(&mut self.masks, a, from, point, radius);
        assert(self@.masks =~= s.painted().masks);
        self.stroke_last = Some(point);
        self.mask_status = String::new();
        assert(self@.mask_status =~= Seq::empty());
        assert(ids_ok(self@.masks, self@.next_mask_id)) by {
            reveal(ids_ok);
            let (x, y) = (self@.masks, s.masks);
            assert forall|i: int| 0 <= i < x.len() implies #[trigger] x[i] is Some == y[i] is Some
                && (x[i] is Some ==> x[i]->0.id == y[i]->0.id) by {}
        }
        assert(clips_ok(self@.videos, self@.masks)) by {
            reveal(clips_ok);
            assert forall|i: int| 0 <= i < self@.masks.len() implies fits(
                #[trigger] self@.masks[i],
                self@.videos[i],
            ) by {
                assert(fits(s.masks[i], s.videos[i]));
            }
        }
    }

    fn hover(&mut self, x: i32, y: i32)
        requires
            old(self)@.wf(),
        ensures
            final(self)@ == old(self)@.hovering(x, y),
            final(self)@.wf(),
            final(self)@.mask_mode == old(self)@.mask_mode,
    {
        proof {
            reveal(AppState::hovering);
        }
        self.cursor_inside = true;
        self.cursor = (x, y);
    }

    #[verifier::spinoff_prover]
    fn drag_to(&mut self, x: i32, y: i32)
        requires
            old(self)@.wf(),
        ensures
            final(self)@ == old(self)@.dragged(x, y),
            final(self)@.wf(),
    {
        proof {
            reveal(AppState::dragged);
        }
        let pans = self.drag.is_some() && self.zoom > ZOOM_MIN;
        let center = match self.drag {
            Some((lx, ly)) if pans => self.center_panned(
                x as i64 - lx as i64,
                y as i64 - ly as i64,
                x,
            ),
            _ => self.center,
        };
        let drag = if pans {
            Some((x, y))
        } else {
            self.drag
        };
        self.center = center;
        self.drag = drag;
        self.cursor_inside = true;
        self.since_pointer = 0;
        self.cursor = (x, y);
    }

    pub(crate) fn transport_rect(&self) -> (r: RectPx)
        ensures
            r == self@.transport(),
            r.y == self.vp.1 - TRANSPORT_H,
    {
        RectPx { x: 0, y: self.vp.1 as i64 - TRANSPORT_H, w: self.vp.0 as i64, h: TRANSPORT_H }
    }

    /// Transport button hit and draw rects: shared by the draw and the press
    /// so a button can't move out from under its target.
    pub fn btn_prev(&self) -> (r: RectPx)
        ensures
            r == self@.prev_button(),
    {
        RectPx { x: 2_200_000, y: self.transport_rect().y + 1_300_000, w: 2_600_000, h: 3_200_000 }
    }

    pub fn btn_play(&self) -> (r: RectPx)
        ensures
            r == self@.play_button(),
    {
        RectPx { x: 5_600_000, y: self.transport_rect().y + 1_300_000, w: 3_200_000, h: 3_200_000 }
    }

    pub fn btn_next(&self) -> (r: RectPx)
        ensures
            r == self@.next_button(),
    {
        RectPx { x: 9_600_000, y: self.transport_rect().y + 1_300_000, w: 2_600_000, h: 3_200_000 }
    }

    /// The seek bar's drawn track (the clickable band is taller).
    pub fn seek_rect(&self) -> (r: RectPx)
        ensures
            r == self@.seek_track(),
            r.x == 13_500_000,
            4_000_000 <= r.w <= CELL_LIMIT,
    {
        let x1: i64 = max(self.vp.0 as i64 - 2_200_000 - STATUS_RESERVE, 17_500_000);
        RectPx {
            x: 13_500_000,
            y: self.transport_rect().y + 2_650_000,
            w: x1 - 13_500_000,
            h: 500_000,
        }
    }

    /// How far the transport is revealed.
    pub fn transport_alpha(&self) -> (r: i64)
        requires
            self@.wf(),
        ensures
            r == self@.revealed(),
            0 <= r <= ONE,
    {
        proof {
            reveal(AppState::revealed);
        }
        let over: i64 = self.since_pointer - TRANSPORT_HOLD;
        if self.scrubbing || over <= 0 {
            return ONE;
        }
        let gone: i128 = div_round(over as i128 * ONE as i128, TRANSPORT_FADE as i128);
        proof {
            round_div_sign(over * ONE, TRANSPORT_FADE as int);
        }
        if gone > ONE as i128 {
            0
        } else {
            ONE - gone as i64
        }
    }

    /// Seek to the position the pointer names on the seek bar.
    pub(crate) fn scrub_to(&mut self, x: i32)
        requires
            old(self)@.wf(),
        ensures
            final(self)@ == old(self)@.scrubbed(x as int),
            final(self)@.wf(),
    {
        proof {
            reveal(AppState::scrubbed);
        }
        match self.wrap {
            None => {
                return;
            },
            Some(w) => {
                let s = self.seek_rect();
                let f: i64 = spot_of(x as i64, s.x, s.w);
                let len: i64 = max(w - WRAP_MARGIN, 0);
                proof {
                    scaled_within(len as int, f as int);
                    assert(len * f <= 0x1000_0000_0000_0000 * 0x4000_0000) by (nonlinear_arith)
                        requires
                            0 <= len <= 0x1000_0000_0000_0000,
                            0 <= f <= 0x4000_0000,
                    ;
                    assert(len * f >= 0) by (nonlinear_arith)
                        requires
                            0 <= len,
                            0 <= f,
                    ;
                }
                let target: i64 = div_round(len as i128 * f as i128, ONE as i128) as i64;
                self.seek_all(target);
            },
        }
    }

    fn find_target(&self, x: i32, y: i32) -> (r: Target)
        requires
            self@.wf(),
        ensures
            r == self@.target(x as int, y as int),
    {
        proof {
            reveal(AppState::target);
        }
        let (px, py) = (x as i64, y as i64);
        if !self.show_ui || !self.ready() || self.transport_alpha() <= MIDDLE {
            return Target::Frame;
        }
        if is_hit(self.btn_prev(), px, py) {
            return Target::Prev;
        }
        if is_hit(self.btn_play(), px, py) {
            return Target::Play;
        }
        if is_hit(self.btn_next(), px, py) {
            return Target::Next;
        }
        let s = self.seek_rect();
        if py >= s.y - SEEK_GRAB && py <= s.y + s.h + SEEK_GRAB && px >= s.x - 600_000 && px <= s.x
            + s.w + 600_000 {
            Target::Seek
        } else {
            Target::Frame
        }
    }

    fn scrub_move(&mut self, x: i32, y: i32)
        requires
            old(self)@.wf(),
        ensures
            final(self)@ == (AppState {
                cursor_inside: true,
                since_pointer: 0,
                cursor: (x, y),
                ..old(self)@
            }).scrubbed(x as int),
            final(self)@.wf(),
    {
        let ghost s = self@;
        self.cursor_inside = true;
        self.since_pointer = 0;
        self.cursor = (x, y);
        assert(self@ == AppState { cursor_inside: true, since_pointer: 0, cursor: (x, y), ..s });
        self.scrub_to(x);
    }

    /// The pointer moved. While painting it paints, while scrubbing it
    /// seeks, and a held drag pans.
    pub fn cursor_moved(&mut self, x: i32, y: i32)
        requires
            old(self)@.wf(),
        ensures
            final(self)@ == old(self)@.moved(x, y),
            final(self)@.wf(),
    {
        proof {
            lemma_moved(self@, x, y);
        }
        if self.mask_mode {
            let painting = self.painting;
            self.hover(x, y);
            if painting {
                self.paint_at_cursor();
                return;
            }
            return;
        }
        if self.scrubbing {
            self.scrub_move(x, y);
            return;
        }
        self.drag_to(x, y);
    }

    fn start_stroke(&mut self, on: bool)
        requires
            old(self)@.wf(),
        ensures
            final(self)@ == (AppState { painting: on, stroke_last: None, ..old(self)@ }),
            final(self)@.wf(),
    {
        self.painting = on;
        self.stroke_last = None;
    }

    fn brush_press(&mut self, x: i32, y: i32)
        requires
            old(self)@.wf(),
            old(self)@.mask_mode,
        ensures
            final(self)@ == old(self)@.brush_down(x, y),
            final(self)@.wf(),
    {
        proof {
            lemma_brush_down(self@, x, y);
        }
        self.hover(x, y);
        let on = self.brush_cursor_visible();
        self.start_stroke(on);
        if on {
            self.paint_at_cursor();
            return;
        }
    }

    fn touch(&mut self)
        requires
            old(self)@.wf(),
        ensures
            final(self)@ == (AppState { since_pointer: 0, ..old(self)@ }),
            final(self)@.wf(),
    {
        self.since_pointer = 0;
    }

    fn start_scrub(&mut self, x: i32)
        requires
            old(self)@.wf(),
        ensures
            final(self)@ == (AppState { scrubbing: true, ..old(self)@ }).scrubbed(x as int),
            final(self)@.wf(),
    {
        self.scrubbing = true;
        self.scrub_to(x);
    }

    fn start_drag(&mut self, x: i32, y: i32)
        requires
            old(self)@.wf(),
        ensures
            final(self)@ == (AppState { drag: Some((x, y)), ..old(self)@ }),
            final(self)@.wf(),
    {
        self.drag = Some((x, y));
    }

    /// The mouse button went down.
    pub fn mouse_down(&mut self, x: i32, y: i32)
        requires
            old(self)@.wf(),
        ensures
            final(self)@ == old(self)@.pressed(x, y),
            final(self)@.wf(),
    {
        proof {
            lemma_pressed(self@, x, y);
        }
        if self.mask_mode {
            self.brush_press(x, y);
            return;
        }
        self.touch();
        match self.find_target(x, y) {
            Target::Prev => {
                self.step(false);
                return;
            },
            Target::Play => {
                self.toggle_playing();
                return;
            },
            Target::Next => {
                self.step(true);
                return;
            },
            Target::Seek => {
                self.start_scrub(x);
                return;
            },
            Target::Frame => {
                self.start_drag(x, y);
                return;
            },
        }
    }
}

proof fn lemma_moved(s: AppState, x: i32, y: i32)
    ensures
        s.mask_mode && s.painting ==> s.moved(x, y) == s.hovering(x, y).painted(),
        s.mask_mode && !s.painting ==> s.moved(x, y) == s.hovering(x, y),
        s.mask_mode ==> s.hovering(x, y).mask_mode,
        !s.mask_mode && s.scrubbing ==> s.moved(x, y) == (AppState {
            cursor_inside: true,
            since_pointer: 0,
            cursor: (x, y),
            ..s
        }).scrubbed(x as int),
        !s.mask_mode && !s.scrubbing ==> s.moved(x, y) == s.dragged(x, y),
{
    reveal(AppState::moved);
    reveal(AppState::hovering);
}

proof fn lemma_brush_down(s: AppState, x: i32, y: i32)
    ensures
        ({
            let h = s.hovering(x, y);
            let on = h.brush_visible();
            let t = AppState { painting: on, stroke_last: None, ..h };
            &&& on ==> s.brush_down(x, y) == t.painted()
            &&& !on ==> s.brush_down(x, y) == t
        }),
{
    reveal(AppState::brush_down);
}

proof fn lemma_pressed(s: AppState, x: i32, y: i32)
    ensures
        s.mask_mode ==> s.pressed(x, y) == s.brush_down(x, y),
        !s.mask_mode ==> ({
            let t = AppState { since_pointer: 0, ..s };
            match t.target(x as int, y as int) {
                Target::Prev => s.pressed(x, y) == t.stepped(false),
                Target::Play => s.pressed(x, y) == (AppState { playing: !t.playing, ..t }),
                Target::Next => s.pressed(x, y) == t.stepped(true),
                Target::Seek => s.pressed(x, y) == (AppState { scrubbing: true, ..t }).scrubbed(
                    x as int,
                ),
                Target::Frame => s.pressed(x, y) == (AppState { drag: Some((x, y)), ..t }),
            }
        }),
{
    reveal(AppState::pressed);
}

fn is_hit(r: RectPx, x: i64, y: i64) -> (b: bool)
    requires
        -0x1000_0000_0000 <= r.x <= 0x1000_0000_0000,
        -0x1000_0000_0000 <= r.y <= 0x1000_0000_0000,
        0 <= r.w <= 0x1000_0000_0000,
        0 <= r.h <= 0x1000_0000_0000,
    ensures
        b == hits(r, x as int, y as int),
{
    x >= r.x && x <= r.x + r.w && y >= r.y && y <= r.y + r.h
}

/// Where on `pixels` pixels an offset into a picture `len` long lies.
fn place_in(offset: i64, pixels: u32, len: i64) -> (r: i64)
    requires
        0 <= offset < len <= 32 * CELL_LIMIT,
    ensures
        r == round_div(offset * (pixels * PX), len as int),
        0 <= r <= pixels * PX,
{
    let k: i64 = pixels as i64 * PX;
    proof {
        assert(0 <= offset * k && offset * k <= k * len && offset * k <= 0x100_0000_0000_0000_0000_0000)
            by (nonlinear_arith)
            requires
                0 <= offset < len <= 0x20_0000_0000,
                0 <= k <= 0x2_0000_0000_0000,
        ;
        round_div_bounds(offset * k, len as int, 0, k as int);
    }
    div_round(offset as i128 * k as i128, len as i128) as i64
}

/// Paints on mask `a`.
fn stroke(
    masks: &mut Vec<Option<crate::mask::Mask>>,
    a: usize,
    from: (i64, i64),
    to: (i64, i64),
    radius: i64,
)
    requires
        a < old(masks)@.len(),
        mask_state(old(masks)@[a as int]) matches Some(m) && m.wf(),
    ensures
        crate::app::mask_states(final(masks)@) == crate::app::mask_states(old(masks)@).update(
            a as int,
            Some(
                mask_state(old(masks)@[a as int])->0.painted(
                    (from.0 as int, from.1 as int),
                    (to.0 as int, to.1 as int),
                    radius as int,
                ),
            ),
        ),
        mask_state(final(masks)@[a as int]) matches Some(m) && m.wf(),
{
    let ghost before = masks@;
    match &mut masks[a] {
        Some(m) => {
            m.paint(from, to, radius);
        },
        None => {},
    }
    assert(crate::app::mask_states(masks@) =~= crate::app::mask_states(before).update(
        a as int,
        Some(
            mask_state(before[a as int])->0.painted(
                (from.0 as int, from.1 as int),
                (to.0 as int, to.1 as int),
                radius as int,
            ),
        ),
    ));
}

proof fn lemma_cell_of(x: int, cw: int)
    requires
        cw >= PX,
    ensures
        x < 0 ==> most(x / cw, 0) == 0,
        x >= 0 ==> x / cw >= 0 && x / cw <= x,
{
    if x < 0 {
        assert(x / cw < 0) by (nonlinear_arith)
            requires
                x < 0,
                cw > 0,
        ;
    } else {
        assert(x / cw >= 0 && x / cw <= x) by (nonlinear_arith)
            requires
                x >= 0,
                cw > 0,
        ;
    }
}

} // verus!
