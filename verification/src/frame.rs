//! One whole frame: the clock moves on, the streams are drained, and the
//! draw list is built.

use crate::app::{App, AppState};
use crate::geometry::{half, halve, rect};
use crate::items::{
    draw, drawn, label, sent, Align, FrameDesc, FrameDescState, Item, ItemState, RectPx, TextItem,
    TextState, Upload,
};
use crate::palette::Ink;
use crate::tick::{uploads_of, ReplyState, SaveReply};
use crate::transport::{FAINTEST, FULLEST};
use crate::units::{
    clamp, div_round, held, least, min, round_div, round_div_bounds, round_div_sign, ONE,
};
use vstd::prelude::*;

verus! {

/// How long an idle application waits for the next frame.
pub const IDLE_TICK: i64 = 100_000_000;

impl AppState {
    /// Everything drawn with clips loaded.
    pub open spec fn scene(self) -> Seq<ItemState> {
        let base = self.pictures() + self.badges();
        if self.mask_mode {
            base + self.mask_layer() + self.status_line()
        } else if self.show_ui {
            base + self.hud() + self.status_line()
        } else {
            base
        }
    }

    /// While the transport is mid-fade.
    pub open spec fn fading(self) -> bool {
        FAINTEST < self.revealed() < FULLEST
    }

    /// Whether the next frame differs without any event.
    pub open spec fn is_animating(self) -> bool {
        self.playing || self.badge_flash > 0 || !self.started || self.fading()
    }

    /// The wordmark's size: its width is capped against the window so a
    /// narrow one doesn't run it edge to edge.
    pub open spec fn logo_size(self) -> (int, int) {
        let w = self.vp.0 as int;
        let lw = least(held(round_div(34 * w, 100), 24_000_000, 46_000_000), w - 9_600_000);
        (lw, round_div(lw * ONE, self.logo_aspect as int))
    }

    /// The launch window: the wordmark and one line asking for a clip,
    /// centred as one group. A drag over the window lights the line.
    pub open spec fn launch_items(self) -> Seq<ItemState> {
        let (w, h) = (self.vp.0 as int, self.vp.1 as int);
        let (lw, lh) = self.logo_size();
        let top = half(h - (lh + 4_900_000));
        let (text, ink) = if self.drag_hover {
            ("release to open"@, Ink::Accent)
        } else {
            ("drop a video file to begin"@, Ink::Dim)
        };
        seq![
            ItemState::Logo { r: rect(half(w - lw), top, lw, lh), alpha: ONE },
            ItemState::Text(
                TextState {
                    align: Align::Center,
                    ..label(half(w), top + lh + 3_600_000, 1_300_000, ink.color(), text)
                },
            ),
        ]
    }

    /// The frame that one tick shows.
    pub open spec fn shown_frame(self, dt: int, vp: (u32, u32), reply: ReplyState) -> FrameDescState {
        let after = self.ticked(dt, vp, reply);
        if self.is_ready() {
            let before = self.before_drain(dt, vp, reply);
            FrameDescState {
                clear: Ink::FrameBg.color(),
                uploads: uploads_of(before.videos, before.t as int, before.videos.len() as int),
                items: after.scene(),
                animating: after.is_animating(),
                redraw_after: if after.is_animating() { None } else { Some(IDLE_TICK) },
            }
        } else {
            FrameDescState {
                clear: Ink::LaunchBg.color(),
                uploads: Seq::empty(),
                items: after.launch_items(),
                animating: false,
                redraw_after: None,
            }
        }
    }
}

impl App {
    fn logo_dims(&self) -> (r: (i64, i64))
        requires
            self@.wf(),
        ensures
            (r.0 as int, r.1 as int) == self@.logo_size(),
            -9_600_000 <= r.0 <= 46_000_000,
            -0x100_0000_0000_0000 <= r.1 <= 0x100_0000_0000_0000,
    {
        let w: i64 = self.vp.0 as i64;
        proof {
            round_div_sign(34 * self.vp.0, 100);
        }
        let lw: i64 = min(
            clamp(div_round(34 * w as i128, 100) as i64, 24_000_000, 46_000_000),
            w - 9_600_000,
        );
        proof {
            let m = 0x100_0000_0000_0000int;
            let a = self.logo_aspect as int;
            assert(-m * a <= lw * ONE && lw * ONE <= m * a) by (nonlinear_arith)
                requires
                    -9_600_000 <= lw <= 46_000_000,
                    a >= 1,
                    m == 0x100_0000_0000_0000,
                    ONE == 1_000_000_000,
            ;
            round_div_bounds(lw * ONE, a, -m, m);
        }
        let lh: i64 = div_round(lw as i128 * ONE as i128, self.logo_aspect as i128) as i64;
        (lw, lh)
    }

    fn launch_frame(&self) -> (r: FrameDesc)
        requires
            self@.wf(),
        ensures
            r@ == (FrameDescState {
                clear: Ink::LaunchBg.color(),
                uploads: Seq::empty(),
                items: self@.launch_items(),
                animating: false,
                redraw_after: None,
            }),
    {
        let mut items: Vec<Item> = Vec::new();
        let w: i64 = self.vp.0 as i64;
        let h: i64 = self.vp.1 as i64;
        let (lw, lh) = self.logo_dims();
        let top: i64 = halve(h - (lh + 4_900_000));
        draw(
            &mut items,
            Item::Logo { r: RectPx { x: halve(w - lw), y: top, w: lw, h: lh }, alpha: ONE },
        );
        let text = if self.drag_hover {
            "release to open".to_owned()
        } else {
            "drop a video file to begin".to_owned()
        };
        let ink = if self.drag_hover {
            Ink::Accent
        } else {
            Ink::Dim
        };
        let mut t = TextItem::new(halve(w), top + lh + 3_600_000, 1_300_000, ink.color(), text);
        t.align = Align::Center;
        draw(&mut items, Item::Text(t));
        assert(drawn(items@) =~= self@.launch_items());
        let uploads: Vec<Upload> = Vec::new();
        assert(sent(uploads@) =~= Seq::empty());
        FrameDesc {
            clear: Ink::LaunchBg.color(),
            uploads,
            items,
            animating: false,
            redraw_after: None,
        }
    }

    fn animates(&self) -> (r: bool)
        requires
            self@.wf(),
        ensures
            r == self@.is_animating(),
    {
        let a: i64 = self.transport_alpha();
        self.playing || self.badge_flash > 0 || !self.started || (a > FAINTEST && a < FULLEST)
    }

    fn draw_scene(&self) -> (items: Vec<Item>)
        requires
            self@.wf(),
            self@.is_ready(),
        ensures
            drawn(items@) == self@.scene(),
    {
        let mut items: Vec<Item> = Vec::new();
        self.draw_pictures(&mut items);
        self.draw_badges(&mut items);
        if self.mask_mode {
            self.build_mask_layer(&mut items);
            self.build_status_line(&mut items);
        } else if self.show_ui {
            self.build_hud(&mut items);
            self.build_status_line(&mut items);
        }
        assert(drawn(items@) =~= self@.scene());
        items
    }

    /// One frame: `dt` has passed, the window measures `vp`, and `reply` is
    /// what the running save has to say.
    pub fn tick(&mut self, dt: u32, vp: (u32, u32), reply: SaveReply) -> (r: FrameDesc)
        requires
            old(self)@.wf(),
        ensures
            final(self)@ == old(self)@.ticked(dt as int, vp, reply@),
            r@ == old(self)@.shown_frame(dt as int, vp, reply@),
            final(self)@.wf(),
    {
        self.set_size(vp);
        self.take_reply(reply);
        // Nothing loaded: paint the launch window and stop.
        if !self.ready() {
            return self.launch_frame();
        }
        self.run_clock(dt);
        self.run_loop();
        let uploads = self.drain(dt);
        let items = self.draw_scene();
        let animating = self.animates();
        FrameDesc {
            clear: Ink::FrameBg.color(),
            uploads,
            items,
            animating,
            redraw_after: if animating {
                None
            } else {
                Some(IDLE_TICK)
            },
        }
    }
}

} // verus!
