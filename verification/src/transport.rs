//! The bottom transport: scrim, buttons, seek bar and the readout.

use crate::app::{App, AppState, Mode};
use crate::geometry::{rect, CELL_LIMIT};
use crate::hud::{draw_rect, draw_rounded, draw_triangle, rounded, triangle, SCRIM_LEAD};
use crate::items::{draw, drawn, plain, Align, Item, ItemState, RectItem, RectPx, Rgba};
use crate::palette::Ink;
use crate::readout::{
    fixed, fmt_time, lemma_fixed_is_short, lemma_time_is_short, lemma_wide_digits, push_fixed,
    push_signed, signed_digits, time_text,
};
use crate::scene::{line, line_of};
use crate::units::{
    div_round, div_round_away, held, ratio_of, round_away, round_div_bounds, scale, scaled,
    scaled_within, ONE,
};
use vstd::prelude::*;
use vstd::string::StrSliceExecFns;
use vstd::string::StringExecFns;

verus! {

/// Below this the transport is not drawn at all.
pub const FAINTEST: i64 = 1_000_000;

/// From here on the transport counts as fully revealed.
pub const FULLEST: i64 = 999_000_000;

/// A run of the readout: its text and colour.
pub struct Segment {
    pub text: String,
    pub color: Rgba,
}

/// The runs of the readout.
pub open spec fn runs(segments: Seq<Segment>) -> Seq<(Seq<char>, Rgba)> {
    Seq::new(segments.len(), |i: int| (segments[i].text@, segments[i].color))
}

/// The readout from run `i` on, laid out from right to left; a per-character
/// step is exact with a monospace font.
pub open spec fn walk(segments: Seq<(Seq<char>, Rgba)>, i: int, x: int, y: int) -> Seq<ItemState>
    decreases segments.len() - i,
{
    if i >= segments.len() {
        Seq::empty()
    } else {
        seq![line(x, y, 1_100_000, segments[i].1, segments[i].0, Align::Right)] + walk(
            segments,
            i + 1,
            x - (660_000 * segments[i].0.len() + 800_000),
            y,
        )
    }
}

impl AppState {
    /// The line the controls are centred on.
    pub open spec fn transport_middle(self) -> int {
        self.transport().y + 2_900_000
    }

    pub open spec fn scrim(self) -> Seq<ItemState> {
        let bar = self.transport();
        let a = self.revealed();
        seq![
            ItemState::Rect(
                RectItem {
                    fade_up: true,
                    ..plain(
                        rect(
                            bar.x as int,
                            bar.y - SCRIM_LEAD,
                            bar.w as int,
                            bar.h + SCRIM_LEAD,
                        ),
                        Ink::Scrim.faded(a),
                    )
                },
            ),
            ItemState::Rect(
                plain(
                    rect(bar.x as int, bar.y as int, bar.w as int, 100_000),
                    Ink::TransportRule.faded(a),
                ),
            ),
        ]
    }

    /// Two small triangles nose to tail, centred on a button that begins at
    /// `x`.
    pub open spec fn skip_glyph(self, x: int, left: bool) -> Seq<ItemState> {
        let y = self.transport_middle() - 450_000;
        let ink = Ink::Glyph.faded(self.revealed());
        seq![
            triangle(x + 600_000, y, 700_000, 900_000, left, ink),
            triangle(x + 1_300_000, y, 700_000, 900_000, left, ink),
        ]
    }

    /// Play or pause, on an accent disc.
    pub open spec fn play_glyph(self) -> Seq<ItemState> {
        let disc = self.play_button();
        let cy = self.transport_middle();
        let ink = Ink::FrameInk.faded(self.revealed());
        let plate = rounded(disc, Ink::Accent.faded(self.revealed()), 1_600_000);
        if self.playing {
            seq![
                plate,
                rounded(rect(6_750_000, cy - 600_000, 300_000, 1_200_000), ink, 100_000),
                rounded(rect(7_350_000, cy - 600_000, 300_000, 1_200_000), ink, 100_000),
            ]
        } else {
            // Nudged right of the box centre toward the centroid.
            seq![plate, triangle(6_717_000, cy - 650_000, 1_150_000, 1_300_000, false, ink)]
        }
    }

    /// How far the clock has run, as a ratio of the loop.
    #[verifier::opaque]
    pub open spec fn progress(self) -> int {
        match self.wrap {
            Some(w) => held(ratio_of(self.t as int, w as int), 0, ONE as int),
            None => 0,
        }
    }

    /// Track, accent fill to the playhead, white knob.
    pub open spec fn seek_bar(self) -> Seq<ItemState> {
        let s = self.seek_track();
        let a = self.revealed();
        let done = scaled(s.w as int, self.progress());
        let track = rounded(s, Ink::Track.faded(a), 300_000);
        let knob = rounded(
            rect(s.x + done - 650_000, s.y - 400_000, 1_300_000, 1_300_000),
            Ink::Knob.faded(a),
            650_000,
        );
        if self.progress() > 0 {
            seq![
                track,
                rounded(
                    rect(s.x as int, s.y as int, done, s.h as int),
                    Ink::Accent.faded(a),
                    300_000,
                ),
                knob,
            ]
        } else {
            seq![track, knob]
        }
    }

    /// The drawn view's name, with its parameter where it has one.
    pub open spec fn view_text(self) -> Seq<char> {
        let mode = self.shown();
        match mode {
            Mode::Delta => mode.title() + "  gain ×"@ + fixed(self.gain as nat, ONE as nat, 1),
            Mode::Blend => mode.title() + "  blend "@ + fixed(self.blend as nat, 10_000_000, 0)
                + "%"@,
            Mode::Checker => mode.title() + "  checker "@ + fixed(self.checker_px as nat, 100_000, 0)
                + "px"@,
            _ => mode.title(),
        }
    }

    pub open spec fn zoom_text(self) -> Seq<char> {
        if self.zoom > crate::geometry::ZOOM_MIN {
            fixed(self.zoom as nat, ONE as nat, 1) + "×"@
        } else {
            "fit"@
        }
    }

    /// The number of the frame on screen.
    pub open spec fn frame_number(self) -> int {
        round_away(self.t * self.fps, ONE * ONE)
    }

    pub open spec fn frame_text(self) -> Seq<char> {
        let n = "· frame "@ + signed_digits(self.frame_number());
        if self.speed - ONE > 1_000_000 || self.speed - ONE < -1_000_000 {
            n + " · "@ + fixed(self.speed as nat, ONE as nat, 2) + "× ·"@
        } else {
            n + " ·"@
        }
    }

    pub open spec fn length_text(self) -> Seq<char> {
        "/ "@ + match self.wrap {
            Some(w) => time_text(w as int),
            None => "?"@,
        }
    }

    /// The readout from right to left.
    pub open spec fn readout(self) -> Seq<(Seq<char>, Rgba)> {
        let a = self.revealed();
        seq![
            (self.zoom_text(), Ink::Dim.faded(a)),
            (self.frame_text(), Ink::Dim.faded(a)),
            (self.length_text(), Ink::TimeOff.faded(a)),
            (time_text(self.t as int), Ink::Text.faded(a)),
            (self.view_text(), Ink::Accent.faded(a)),
        ]
    }

    /// The transport, where it is revealed.
    pub open spec fn transport_items(self) -> Seq<ItemState> {
        if self.revealed() <= FAINTEST {
            Seq::empty()
        } else {
            self.scrim() + self.skip_glyph(2_200_000, true) + self.skip_glyph(9_600_000, false)
                + self.play_glyph() + self.seek_bar() + walk(
                self.readout(),
                0,
                self.vp.0 - 2_200_000,
                self.transport_middle(),
            )
        }
    }

    /// The whole instrument overlay.
    pub open spec fn hud(self) -> Seq<ItemState> {
        self.brackets() + self.toggle() + self.info_block(self.videos.len() as int)
            + self.transport_items()
    }
}

impl App {
    fn draw_scrim(&self, items: &mut Vec<Item>, a: i64)
        requires
            a == self@.revealed(),
            0 <= a <= ONE,
        ensures
            drawn(final(items)@) == drawn(old(items)@) + self@.scrim(),
    {
        let ghost before = drawn(items@);
        let bar = self.transport_rect();
        let mut ri = RectItem::new(
            RectPx { x: bar.x, y: bar.y - SCRIM_LEAD, w: bar.w, h: bar.h + SCRIM_LEAD },
            Ink::Scrim.fade(a),
        );
        ri.fade_up = true;
        draw(items, Item::Rect(ri));
        draw_rect(
            items,
            RectPx { x: bar.x, y: bar.y, w: bar.w, h: 100_000 },
            Ink::TransportRule.fade(a),
        );
        assert(drawn(items@) =~= before + self@.scrim());
    }

    fn draw_skip(&self, items: &mut Vec<Item>, a: i64, x: i64, left: bool)
        requires
            a == self@.revealed(),
            0 <= a <= ONE,
            0 <= x <= 100_000_000,
        ensures
            drawn(final(items)@) == drawn(old(items)@) + self@.skip_glyph(x as int, left),
    {
        let ghost before = drawn(items@);
        let y: i64 = self.transport_rect().y + 2_900_000 - 450_000;
        draw_triangle(
            items,
            RectPx { x: x + 600_000, y, w: 700_000, h: 900_000 },
            left,
            Ink::Glyph.fade(a),
        );
        draw_triangle(
            items,
            RectPx { x: x + 1_300_000, y, w: 700_000, h: 900_000 },
            left,
            Ink::Glyph.fade(a),
        );
        assert(drawn(items@) =~= before + self@.skip_glyph(x as int, left));
    }

    fn draw_play(&self, items: &mut Vec<Item>, a: i64)
        requires
            a == self@.revealed(),
            0 <= a <= ONE,
        ensures
            drawn(final(items)@) == drawn(old(items)@) + self@.play_glyph(),
    {
        let ghost before = drawn(items@);
        let cy: i64 = self.transport_rect().y + 2_900_000;
        draw_rounded(items, self.btn_play(), Ink::Accent.fade(a), 1_600_000);
        if self.playing {
            draw_rounded(
                items,
                RectPx { x: 6_750_000, y: cy - 600_000, w: 300_000, h: 1_200_000 },
                Ink::FrameInk.fade(a),
                100_000,
            );
            draw_rounded(
                items,
                RectPx { x: 7_350_000, y: cy - 600_000, w: 300_000, h: 1_200_000 },
                Ink::FrameInk.fade(a),
                100_000,
            );
        } else {
            draw_triangle(
                items,
                RectPx { x: 6_717_000, y: cy - 650_000, w: 1_150_000, h: 1_300_000 },
                false,
                Ink::FrameInk.fade(a),
            );
        }
        assert(drawn(items@) =~= before + self@.play_glyph());
    }

    fn progress_of(&self) -> (r: i64)
        requires
            self@.wf(),
        ensures
            r == self@.progress(),
            0 <= r <= ONE,
    {
        proof {
            reveal(AppState::progress);
        }
        match self.wrap {
            None => 0,
            Some(w) => {
                let q: i128 = div_round(self.t as i128 * ONE as i128, w as i128);
                if q < 0 {
                    0
                } else if q > ONE as i128 {
                    ONE
                } else {
                    q as i64
                }
            },
        }
    }

    fn draw_seek(&self, items: &mut Vec<Item>, a: i64)
        requires
            self@.wf(),
            a == self@.revealed(),
            0 <= a <= ONE,
        ensures
            drawn(final(items)@) == drawn(old(items)@) + self@.seek_bar(),
    {
        let ghost before = drawn(items@);
        let s = self.seek_rect();
        let f: i64 = self.progress_of();
        proof {
            scaled_within(s.w as int, f as int);
        }
        let done: i64 = scale(s.w, f);
        draw_rounded(items, s, Ink::Track.fade(a), 300_000);
        if f > 0 {
            draw_rounded(
                items,
                RectPx { x: s.x, y: s.y, w: done, h: s.h },
                Ink::Accent.fade(a),
                300_000,
            );
        }
        draw_rounded(
            items,
            RectPx { x: s.x + done - 650_000, y: s.y - 400_000, w: 1_300_000, h: 1_300_000 },
            Ink::Knob.fade(a),
            650_000,
        );
        assert(drawn(items@) =~= before + self@.seek_bar());
    }

    fn zoom_run(&self) -> (r: String)
        requires
            self@.wf(),
        ensures
            r@ == self@.zoom_text(),
            r@.len() <= 200,
    {
        proof {
            reveal_strlit("×");
            reveal_strlit("fit");
            lemma_fixed_is_short(self.zoom as nat, ONE as nat, 1);
        }
        if self.zoom > crate::geometry::ZOOM_MIN {
            let mut s = String::new();
            push_fixed(&mut s, self.zoom as u64, ONE as u64, 1);
            s.append("×");
            assert(s@ =~= self@.zoom_text());
            s
        } else {
            "fit".to_owned()
        }
    }

    fn frame_run(&self) -> (r: String)
        requires
            self@.wf(),
        ensures
            r@ == self@.frame_text(),
            r@.len() <= 200,
    {
        proof {
            reveal_strlit("· frame ");
            reveal_strlit(" · ");
            reveal_strlit("× ·");
            reveal_strlit(" ·");
            lemma_fixed_is_short(self.speed as nat, ONE as nat, 2);
            lemma_frame_number(self.t as int, self.fps as int);
        }
        let n: i64 = div_round_away(
            self.t as i128 * self.fps as i128,
            ONE as i128 * ONE as i128,
        ) as i64;
        proof {
            if n < 0 {
                lemma_wide_digits((-n) as nat);
            } else {
                lemma_wide_digits(n as nat);
            }
        }
        let mut s = "· frame ".to_owned();
        push_signed(&mut s, n);
        if self.speed - ONE > 1_000_000 || self.speed - ONE < -1_000_000 {
            s.append(" · ");
            push_fixed(&mut s, self.speed as u64, ONE as u64, 2);
            s.append("× ·");
        } else {
            s.append(" ·");
        }
        assert(s@ =~= self@.frame_text());
        s
    }

    fn length_run(&self) -> (r: String)
        ensures
            r@ == self@.length_text(),
            r@.len() <= 200,
    {
        let mut s = "/ ".to_owned();
        proof {
            reveal_strlit("/ ");
            reveal_strlit("?");
        }
        match self.wrap {
            Some(w) => {
                proof {
                    lemma_time_is_short(w as int);
                }
                s.append(fmt_time(w).as_str());
            },
            None => {
                s.append("?");
            },
        }
        assert(s@ =~= self@.length_text());
        s
    }

    fn view_run(&self) -> (r: String)
        requires
            self@.wf(),
        ensures
            r@ == self@.view_text(),
            r@.len() <= 200,
    {
        let mode = self.shown_mode();
        let mut s = mode.name();
        proof {
            reveal_strlit("overlay");
            reveal_strlit("side-by-side");
            reveal_strlit("delta");
            reveal_strlit("split");
            reveal_strlit("checker");
            reveal_strlit("blend");
            reveal_strlit("  gain ×");
            reveal_strlit("  blend ");
            reveal_strlit("%");
            reveal_strlit("  checker ");
            reveal_strlit("px");
            lemma_fixed_is_short(self.gain as nat, ONE as nat, 1);
            lemma_fixed_is_short(self.blend as nat, 10_000_000, 0);
            lemma_fixed_is_short(self.checker_px as nat, 100_000, 0);
        }
        match mode {
            Mode::Delta => {
                s.append("  gain ×");
                push_fixed(&mut s, self.gain as u64, ONE as u64, 1);
            },
            Mode::Blend => {
                s.append("  blend ");
                push_fixed(&mut s, self.blend as u64, 10_000_000, 0);
                s.append("%");
            },
            Mode::Checker => {
                s.append("  checker ");
                push_fixed(&mut s, self.checker_px as u64, 100_000, 0);
                s.append("px");
            },
            _ => {},
        }
        assert(s@ =~= self@.view_text());
        s
    }

    fn draw_readout(&self, items: &mut Vec<Item>, a: i64)
        requires
            self@.wf(),
            a == self@.revealed(),
            0 <= a <= ONE,
        ensures
            drawn(final(items)@) == drawn(old(items)@) + walk(
                self@.readout(),
                0,
                self@.vp.0 - 2_200_000,
                self@.transport_middle(),
            ),
    {
        let ghost s = self@;
        let mut segments: Vec<Segment> = Vec::new();
        segments.push(Segment { text: self.zoom_run(), color: Ink::Dim.fade(a) });
        segments.push(Segment { text: self.frame_run(), color: Ink::Dim.fade(a) });
        segments.push(Segment { text: self.length_run(), color: Ink::TimeOff.fade(a) });
        proof {
            lemma_time_is_short(self.t as int);
        }
        segments.push(Segment { text: fmt_time(self.t), color: Ink::Text.fade(a) });
        segments.push(Segment { text: self.view_run(), color: Ink::Accent.fade(a) });
        assert(runs(segments@) =~= s.readout());
        draw_walk(
            items,
            &segments,
            self.vp.0 as i64 - 2_200_000,
            self.transport_rect().y + 2_900_000,
        );
    }

    /// Scrim, buttons, seek bar and readout, where the transport is revealed.
    fn draw_transport(&self, items: &mut Vec<Item>)
        requires
            self@.wf(),
        ensures
            drawn(final(items)@) == drawn(old(items)@) + self@.transport_items(),
    {
        let ghost before = drawn(items@);
        let a: i64 = self.transport_alpha();
        if a <= FAINTEST {
            assert(before =~= before + self@.transport_items());
            return;
        }
        self.draw_scrim(items, a);
        self.draw_skip(items, a, 2_200_000, true);
        self.draw_skip(items, a, 9_600_000, false);
        self.draw_play(items, a);
        self.draw_seek(items, a);
        self.draw_readout(items, a);
        assert(drawn(items@) =~= before + self@.transport_items());
    }

    /// Corner brackets, centre toggle, info block, and the hover-revealed
    /// transport.
    pub(crate) fn build_hud(&self, items: &mut Vec<Item>)
        requires
            self@.wf(),
        ensures
            drawn(final(items)@) == drawn(old(items)@) + self@.hud(),
    {
        let ghost before = drawn(items@);
        self.draw_brackets(items);
        self.draw_toggle(items);
        self.draw_info(items);
        self.draw_transport(items);
        assert(drawn(items@) =~= before + self@.hud());
    }
}

proof fn lemma_frame_number(t: int, fps: int)
    requires
        -0x1000_0000_0000_0000 <= t <= 0x1000_0000_0000_0000,
        0 <= fps <= 0x1000_0000_0000_0000,
    ensures
        -0x100_0000_0000_0000_0000_0000_0000_0000 <= t * fps
            <= 0x100_0000_0000_0000_0000_0000_0000_0000,
        -0x4000_0000_0000_0000 <= round_away(t * fps, ONE * ONE) <= 0x4000_0000_0000_0000,
{
    assert(-0x100_0000_0000_0000_0000_0000_0000_0000 <= t * fps
        <= 0x100_0000_0000_0000_0000_0000_0000_0000) by (nonlinear_arith)
        requires
            -0x1000_0000_0000_0000 <= t <= 0x1000_0000_0000_0000,
            0 <= fps <= 0x1000_0000_0000_0000,
    ;
    let d = ONE * ONE;
    if t * fps >= 0 {
        round_div_bounds(t * fps, d, 0, 0x4000_0000_0000_0000);
    } else {
        round_div_bounds(-(t * fps), d, 0, 0x4000_0000_0000_0000);
    }
}

/// `walk` from the start.
fn draw_walk(items: &mut Vec<Item>, segments: &Vec<Segment>, x: i64, y: i64)
    requires
        -CELL_LIMIT <= x <= CELL_LIMIT,
        segments@.len() <= 16,
        forall|i: int| 0 <= i < segments@.len() ==> (#[trigger] segments@[i]).text@.len() <= 200,
    ensures
        drawn(final(items)@) == drawn(old(items)@) + walk(runs(segments@), 0, x as int, y as int),
{
    let ghost before = drawn(items@);
    let ghost all = runs(segments@);
    let mut sx: i64 = x;
    let mut i: usize = 0;
    while i < segments.len()
        invariant
            i <= segments@.len(),
            segments@.len() <= 16,
            all == runs(segments@),
            -CELL_LIMIT <= x <= CELL_LIMIT,
            x - 200_000_000 * i <= sx <= x,
            forall|k: int| 0 <= k < segments@.len() ==> (#[trigger] segments@[k]).text@.len()
                <= 200,
            drawn(items@) + walk(all, i as int, sx as int, y as int) == before + walk(
                all,
                0,
                x as int,
                y as int,
            ),
        decreases segments@.len() - i,
    {
        let ghost so_far = drawn(items@);
        let seg = &segments[i];
        assert(all[i as int] == (seg.text@, seg.color));
        let len: usize = seg.text.as_str().unicode_len();
        let text = seg.text.as_str().to_owned();
        draw(items, line_of(sx, y, 1_100_000, seg.color, text, Align::Right));
        let ghost next = sx - (660_000 * len + 800_000);
        assert(walk(all, i as int, sx as int, y as int) == seq![
            line(sx as int, y as int, 1_100_000, seg.color, seg.text@, Align::Right),
        ] + walk(all, i + 1, next, y as int));
        assert(drawn(items@) + walk(all, i + 1, next, y as int) =~= so_far + walk(
            all,
            i as int,
            sx as int,
            y as int,
        ));
        sx = sx - (660_000 * len as i64 + 800_000);
        i = i + 1;
    }
    assert(drawn(items@) =~= drawn(items@) + walk(all, i as int, sx as int, y as int));
}

} // verus!
