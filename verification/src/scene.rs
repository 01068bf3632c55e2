//! What a frame shows: the pictures, the letter badges, the mask layer and
//! the launch window.

use crate::app::{clip_ok, following, mask_state, App, AppState, Mode};
use crate::geometry::{
    cell, cell_width, fit, fit_rect, half, halve, lemma_half_view, rect, spot, spot_of, zoom_rect,
    zoomed, CELL_LIMIT,
};
use crate::items::{
    draw, drawn, label, plain, Align, Item, ItemState, RectItem, RectPx, Rgba, TextItem, TextState,
    Uv, VAlign, VideoMode,
};
use crate::palette::Ink;
use crate::pointer::lemma_cells;
use crate::units::{
    clamp, div_round, held, least, max, min, most, round_div, round_div_bounds, round_div_sign,
    scale, scaled, scaled_within, ONE, PX,
};
use vstd::prelude::*;

verus! {

/// Clip `i`'s letter: A, B, C…
pub open spec fn letter(i: int) -> Seq<char> {
    seq![((65 + i) % 256) as char]
}

/// `letter`.
pub fn letter_of(i: usize) -> (r: String)
    ensures
        r@ == letter(i as int),
{
    let c: u8 = ((65 + (i % 256)) % 256) as u8;
    let mut s = String::new();
    s.push(c as char);
    assert(s@ =~= letter(i as int));
    s
}

/// A run centred on its line, anchored at the given edge.
pub open spec fn line(
    x: int,
    y: int,
    px: int,
    color: Rgba,
    text: Seq<char>,
    align: Align,
) -> ItemState {
    ItemState::Text(TextState { align, valign: VAlign::Middle, ..label(x, y, px, color, text) })
}

/// `line`.
pub fn line_of(x: i64, y: i64, px: i64, color: Rgba, text: String, align: Align) -> (r: Item)
    ensures
        r@ == line(x as int, y as int, px as int, color, text@, align),
{
    let mut t = TextItem::new(x, y, px, color, text);
    t.align = align;
    t.valign = VAlign::Middle;
    Item::Text(t)
}

/// One picture, as it is.
pub open spec fn picture(i: int, r: RectPx) -> ItemState {
    ItemState::Video {
        a: i as usize,
        b: i as usize,
        r,
        uv: Uv::full(),
        mode: VideoMode::Tex,
        p0: 0,
        p1: 0,
    }
}

impl AppState {
    /// The mode drawn: the focused clip fills the window while its mask is
    /// painted.
    pub open spec fn drawn_mode(self) -> Mode {
        if self.mask_mode { Mode::Overlay } else { self.shown() }
    }

    /// The clip the active one is compared with.
    pub open spec fn other(self) -> int {
        following(self.active as int, self.videos.len() as int)
    }

    /// Where clip `i` is shown side by side with the others. Every cell
    /// shares the zoom and the center, so panning one pans them all to the
    /// same content position.
    #[verifier::opaque]
    pub open spec fn cell_content(self, i: int) -> RectPx {
        zoomed(
            fit(self.videos[i].dims(), cell(i, self.videos.len() as int, self.vp)),
            self.zoom as int,
            self.middle(),
        )
    }

    /// How the active clip and the next are compared.
    pub open spec fn comparison(self) -> ItemState {
        let r = self.content(self.active as int);
        let (mode, p0) = match self.mode {
            Mode::Delta => (VideoMode::Delta, 0),
            Mode::Split => (
                VideoMode::Split,
                spot(self.cursor.0 as int, r.x as int, most(r.w as int, PX as int)),
            ),
            Mode::Checker => (VideoMode::Checker, self.checker_px as int),
            _ => (VideoMode::Blend, self.blend as int),
        };
        ItemState::Video {
            a: self.active,
            b: self.other() as usize,
            r,
            uv: Uv::full(),
            mode,
            p0: p0 as i64,
            p1: self.gain,
        }
    }

    pub open spec fn pictures(self) -> Seq<ItemState> {
        match self.drawn_mode() {
            Mode::Overlay => seq![
                picture(self.active as int, self.content(self.active as int)),
            ],
            Mode::SideBySide => Seq::new(
                self.videos.len(),
                |i: int| picture(i, self.cell_content(i)),
            ),
            _ => seq![self.comparison()],
        }
    }

    /// How strongly the letter badges show: always with the interface up, a
    /// brief flash after a flip when it's hidden.
    pub open spec fn badge_alpha(self) -> int {
        if self.show_ui {
            ONE as int
        } else {
            least(round_div(5 * self.badge_flash, 2), ONE as int)
        }
    }

    /// The badge keeps its proportion to the frame at any window size.
    pub open spec fn badge_size(self) -> int {
        held(round_div(257 * self.vp.1, 1_000), 7_200_000, 24_000_000)
    }

    /// Clip `i`'s badge with its drop shadow: A hugs the left edge, the last
    /// clip the right.
    pub open spec fn badge(self, i: int, px: int, on: bool) -> Seq<ItemState> {
        let n = self.videos.len() as int;
        let across = if n > 1 { round_div(i * (self.vp.0 - 5_200_000), n - 1) } else { 0 };
        let x = 2_600_000 + across;
        let y = half(self.vp.1 as int);
        let align = if n > 1 && 2 * i >= n - 1 { Align::Right } else { Align::Left };
        let ink = if on { Ink::Accent } else { Ink::Inactive };
        let alpha = self.badge_alpha();
        seq![
            line(
                x + round_div(2 * px, 100),
                y + round_div(3 * px, 100),
                px,
                Ink::Black.faded(scaled(450_000_000, alpha)),
                letter(i),
                align,
            ),
            line(x, y, px, ink.faded(scaled(alpha, 920_000_000)), letter(i), align),
        ]
    }

    /// Clip `i`'s label, over its own cell.
    pub open spec fn cell_badge(self, i: int) -> ItemState {
        let ink = if i == self.active { Ink::Accent } else { Ink::Inactive };
        line(
            i * cell_width(self.vp.0 as int, self.videos.len() as int) + 2_000_000,
            half(self.vp.1 as int),
            round_div(42 * self.badge_size(), 100),
            ink.faded(self.badge_alpha()),
            letter(i),
            Align::Left,
        )
    }

    pub open spec fn badges(self) -> Seq<ItemState> {
        let big = self.badge_size();
        let small = round_div(74 * big, 100);
        if self.badge_alpha() <= 0 || self.mask_mode {
            Seq::empty()
        } else {
            match self.drawn_mode() {
                Mode::Overlay => self.badge(self.active as int, big, true),
                Mode::SideBySide => Seq::new(self.videos.len(), |i: int| self.cell_badge(i)),
                _ => self.badge(self.active as int, small, true) + self.badge(
                    self.other(),
                    small,
                    false,
                ),
            }
        }
    }

    /// One outline of the brush.
    pub open spec fn brush_outline(self, d: int, width: int, color: Rgba) -> ItemState {
        ItemState::Rect(
            RectItem {
                radius: half(d) as i64,
                border_w: width as i64,
                border_color: color,
                ..plain(
                    rect(self.cursor.0 - half(d), self.cursor.1 - half(d), d, d),
                    Rgba::clear(),
                )
            },
        )
    }

    /// The brush's diameter on screen.
    pub open spec fn brush_on_screen(self) -> int {
        let a = self.active as int;
        round_div(
            self.brush_diameter * self.content(a).w,
            (self.masks[a]->0).width * PX,
        )
    }

    /// The tinted mask, and the brush over it in two contrasting outlines.
    pub open spec fn mask_layer(self) -> Seq<ItemState> {
        let a = self.active as int;
        let m = self.masks[a]->0;
        let d = self.brush_on_screen();
        let layer = seq![
            ItemState::Mask {
                r: self.content(a),
                slot: self.active,
                id: m.id,
                revision: m.revision,
                width: m.width,
                height: m.height,
            },
        ];
        if self.brush_visible() {
            layer.push(self.brush_outline(d + 200_000, 300_000, Ink::Black.faded(900_000_000))).push(
                self.brush_outline(d, 100_000, Ink::White.color()),
            )
        } else {
            layer
        }
    }
}

impl App {
    fn cell_rect(&self, i: usize) -> (r: RectPx)
        requires
            self@.wf(),
            i < self@.videos.len(),
        ensures
            r == self@.cell_content(i as int),
    {
        proof {
            reveal(AppState::cell_content);
            lemma_half_view(self.zoom as int);
            lemma_cells(self.vp.0 as int, self@.videos.len() as int, i as int);
        }
        let cw: i64 = div_round(self.vp.0 as i128, self.videos.len() as i128) as i64;
        let base = fit_rect(
            self.dims(i),
            RectPx { x: (i as i128 * cw as i128) as i64, y: 0, w: cw, h: self.vp.1 as i64 },
        );
        zoom_rect(base, self.zoom, self.center)
    }

    fn drawn_as(&self) -> (r: Mode)
        ensures
            r == self@.drawn_mode(),
    {
        if self.mask_mode {
            Mode::Overlay
        } else {
            self.shown_mode()
        }
    }

    fn next_clip(&self) -> (r: usize)
        requires
            self@.wf(),
            self@.is_ready(),
        ensures
            r == self@.other(),
            r < self@.videos.len(),
    {
        if self.active + 1 < self.videos.len() {
            self.active + 1
        } else {
            0
        }
    }

    fn draw_comparison(&self, items: &mut Vec<Item>)
        requires
            self@.wf(),
            self@.is_ready(),
        ensures
            drawn(final(items)@) == drawn(old(items)@).push(self@.comparison()),
    {
        let r = self.content_rect(self.active);
        let (mode, p0): (VideoMode, i64) = match self.mode {
            Mode::Delta => (VideoMode::Delta, 0),
            Mode::Split => (
                VideoMode::Split,
                spot_of(self.cursor.0 as i64, r.x, max(r.w, PX)),
            ),
            Mode::Checker => (VideoMode::Checker, self.checker_px),
            _ => (VideoMode::Blend, self.blend),
        };
        draw(
            items,
            Item::Video {
                a: self.active,
                b: self.next_clip(),
                r,
                uv: Uv::full(),
                mode,
                p0,
                p1: self.gain,
            },
        );
    }

    fn draw_picture(&self, items: &mut Vec<Item>, i: usize, r: RectPx)
        ensures
            drawn(final(items)@) == drawn(old(items)@).push(picture(i as int, r)),
    {
        draw(
            items,
            Item::Video { a: i, b: i, r, uv: Uv::full(), mode: VideoMode::Tex, p0: 0, p1: 0 },
        );
    }

    pub(crate) fn draw_pictures(&self, items: &mut Vec<Item>)
        requires
            self@.wf(),
            self@.is_ready(),
        ensures
            drawn(final(items)@) == drawn(old(items)@) + self@.pictures(),
    {
        let ghost before = drawn(items@);
        let ghost s = self@;
        match self.drawn_as() {
            Mode::Overlay => {
                self.draw_picture(items, self.active, self.content_rect(self.active));
                assert(drawn(items@) =~= before + s.pictures());
            },
            Mode::SideBySide => {
                let n: usize = self.videos.len();
                let mut i: usize = 0;
                assert(drawn(items@) =~= before + s.pictures().take(0));
                while i < n
                    invariant
                        self@ == s,
                        s.wf(),
                        s.drawn_mode() == Mode::SideBySide,
                        n == s.videos.len(),
                        i <= n,
                        drawn(items@) == before + s.pictures().take(i as int),
                    decreases n - i,
                {
                    self.draw_picture(items, i, self.cell_rect(i));
                    i = i + 1;
                    assert(drawn(items@) =~= before + s.pictures().take(i as int));
                }
                assert(s.pictures().take(n as int) =~= s.pictures());
            },
            _ => {
                self.draw_comparison(items);
                assert(drawn(items@) =~= before + s.pictures());
            },
        }
    }

    fn badge_strength(&self) -> (r: i64)
        requires
            self@.wf(),
        ensures
            r == self@.badge_alpha(),
            0 <= r <= ONE,
    {
        proof {
            round_div_bounds(5 * self.badge_flash, 2, 0, 5 * self.badge_flash);
        }
        if self.show_ui {
            ONE
        } else {
            min(div_round(5 * self.badge_flash as i128, 2) as i64, ONE)
        }
    }

    fn badge_px(&self) -> (r: i64)
        ensures
            r == self@.badge_size(),
            7_200_000 <= r <= 24_000_000,
    {
        proof {
            round_div_sign(257 * self.vp.1, 1_000);
        }
        clamp(div_round(257 * self.vp.1 as i128, 1_000) as i64, 7_200_000, 24_000_000)
    }

    fn draw_badge(&self, items: &mut Vec<Item>, i: usize, px: i64, on: bool)
        requires
            self@.wf(),
            i < self@.videos.len(),
            0 <= px <= 24_000_000,
        ensures
            drawn(final(items)@) == drawn(old(items)@) + self@.badge(i as int, px as int, on),
    {
        let ghost before = drawn(items@);
        let n: i128 = self.videos.len() as i128;
        let span: i64 = self.vp.0 as i64 - 5_200_000;
        let across: i64 = if n > 1 {
            proof {
                lemma_across(i as int, span as int, n as int);
            }
            div_round(i as i128 * span as i128, n - 1) as i64
        } else {
            0
        };
        let x: i64 = 2_600_000 + across;
        let y: i64 = halve(self.vp.1 as i64);
        let align = if n > 1 && 2 * i as i128 >= n - 1 {
            Align::Right
        } else {
            Align::Left
        };
        let ink = if on {
            Ink::Accent
        } else {
            Ink::Inactive
        };
        let alpha: i64 = self.badge_strength();
        proof {
            round_div_bounds(2 * px, 100, 0, px as int);
            round_div_bounds(3 * px, 100, 0, px as int);
            scaled_within(450_000_000, alpha as int);
            scaled_within(alpha as int, 920_000_000);
        }
        let dx: i64 = div_round(2 * px as i128, 100) as i64;
        let dy: i64 = div_round(3 * px as i128, 100) as i64;
        draw(
            items,
            line_of(
                x + dx,
                y + dy,
                px,
                Ink::Black.fade(scale(450_000_000, alpha)),
                letter_of(i),
                align,
            ),
        );
        draw(
            items,
            line_of(x, y, px, ink.fade(scale(alpha, 920_000_000)), letter_of(i), align),
        );
        assert(drawn(items@) =~= before + self@.badge(i as int, px as int, on));
    }

    fn draw_cell_badge(&self, items: &mut Vec<Item>, i: usize)
        requires
            self@.wf(),
            i < self@.videos.len(),
        ensures
            drawn(final(items)@) == drawn(old(items)@).push(self@.cell_badge(i as int)),
    {
        let big: i64 = self.badge_px();
        proof {
            lemma_cells(self.vp.0 as int, self@.videos.len() as int, i as int);
            round_div_bounds(42 * big, 100, 0, big as int);
        }
        let cw: i64 = div_round(self.vp.0 as i128, self.videos.len() as i128) as i64;
        let ink = if i == self.active {
            Ink::Accent
        } else {
            Ink::Inactive
        };
        draw(
            items,
            line_of(
                (i as i128 * cw as i128) as i64 + 2_000_000,
                halve(self.vp.1 as i64),
                div_round(42 * big as i128, 100) as i64,
                ink.fade(self.badge_strength()),
                letter_of(i),
                Align::Left,
            ),
        );
    }

    pub(crate) fn draw_badges(&self, items: &mut Vec<Item>)
        requires
            self@.wf(),
            self@.is_ready(),
        ensures
            drawn(final(items)@) == drawn(old(items)@) + self@.badges(),
    {
        let ghost before = drawn(items@);
        let ghost s = self@;
        if self.badge_strength() <= 0 || self.mask_mode {
            assert(drawn(items@) =~= before + s.badges());
            return;
        }
        let big: i64 = self.badge_px();
        proof {
            round_div_bounds(74 * big, 100, 0, big as int);
        }
        let small: i64 = div_round(74 * big as i128, 100) as i64;
        match self.drawn_as() {
            Mode::Overlay => {
                self.draw_badge(items, self.active, big, true);
            },
            Mode::SideBySide => {
                let n: usize = self.videos.len();
                let mut i: usize = 0;
                let ghost all = Seq::new(s.videos.len(), |k: int| s.cell_badge(k));
                assert(drawn(items@) =~= before + all.take(0));
                while i < n
                    invariant
                        self@ == s,
                        s.wf(),
                        n == s.videos.len(),
                        i <= n,
                        all == Seq::new(s.videos.len(), |k: int| s.cell_badge(k)),
                        drawn(items@) == before + all.take(i as int),
                    decreases n - i,
                {
                    self.draw_cell_badge(items, i);
                    i = i + 1;
                    assert(drawn(items@) =~= before + all.take(i as int));
                }
                assert(all.take(n as int) =~= s.badges());
            },
            _ => {
                self.draw_badge(items, self.active, small, true);
                self.draw_badge(items, self.next_clip(), small, false);
                assert(drawn(items@) =~= before + s.badges());
            },
        }
    }

    fn draw_outline(&self, items: &mut Vec<Item>, d: i64, width: i64, color: Rgba)
        requires
            0 <= d <= 0x1000_0000_0000_0000,
        ensures
            drawn(final(items)@) == drawn(old(items)@).push(
                self@.brush_outline(d as int, width as int, color),
            ),
    {
        let h: i64 = halve(d);
        let mut ri = RectItem::new(
            RectPx { x: self.cursor.0 as i64 - h, y: self.cursor.1 as i64 - h, w: d, h: d },
            Rgba::clear(),
        );
        ri.radius = h;
        ri.border_w = width;
        ri.border_color = color;
        draw(items, Item::Rect(ri));
    }

    pub(crate) fn build_mask_layer(&self, items: &mut Vec<Item>)
        requires
            self@.wf(),
            self@.mask_mode,
        ensures
            drawn(final(items)@) == drawn(old(items)@) + self@.mask_layer(),
    {
        let ghost before = drawn(items@);
        let ghost s = self@;
        let a: usize = self.active;
        proof {
            clip_ok(s.videos, s.masks, a as int);
        }
        assert(s.masks[a as int] == mask_state(self.masks@[a as int]));
        let r = self.content_rect(a);
        match &self.masks[a] {
            Some(m) => {
                draw(
                    items,
                    Item::Mask {
                        r,
                        slot: a,
                        id: m.id,
                        revision: m.revision,
                        width: m.width,
                        height: m.height,
                    },
                );
                if self.brush_cursor_visible() {
                    let w: i64 = m.width as i64 * PX;
                    proof {
                        lemma_brush(self.brush_diameter as int, r.w as int, w as int);
                    }
                    let d: i64 = div_round(
                        self.brush_diameter as i128 * r.w as i128,
                        w as i128,
                    ) as i64;
                    self.draw_outline(items, d + 200_000, 300_000, Ink::Black.fade(900_000_000));
                    self.draw_outline(items, d, 100_000, Ink::White.color());
                }
            },
            None => {},
        }
        assert(drawn(items@) =~= before + s.mask_layer());
    }
}

proof fn lemma_across(i: int, span: int, n: int)
    requires
        0 <= i < n <= 0xffff_ffff_ffff_ffff,
        n > 1,
        -5_200_000 <= span <= 0xffff_ffff,
    ensures
        -0x1_0000_0000_0000_0000_0000_0000 <= i * span <= 0x1_0000_0000_0000_0000_0000_0000,
        -5_200_000 <= round_div(i * span, n - 1) <= 0xffff_ffff,
{
    assert(-0x1_0000_0000_0000_0000_0000_0000 <= i * span <= 0x1_0000_0000_0000_0000_0000_0000)
        by (nonlinear_arith)
        requires
            0 <= i < n <= 0xffff_ffff_ffff_ffff,
            -5_200_000 <= span <= 0xffff_ffff,
    ;
    assert(-5_200_000 * (n - 1) <= i * span && i * span <= 0xffff_ffff * (n - 1)) by (nonlinear_arith)
        requires
            0 <= i <= n - 1,
            -5_200_000 <= span <= 0xffff_ffff,
    ;
    round_div_bounds(i * span, n - 1, -5_200_000, 0xffff_ffff);
}

proof fn lemma_brush(brush: int, w: int, image: int)
    requires
        0 <= brush <= 4096 * PX,
        0 <= w <= 32 * CELL_LIMIT,
        image >= PX,
    ensures
        0 <= brush * w <= 0x10_0000_0000_0000_0000,
        0 <= round_div(brush * w, image) <= 0x100_0000_0000_0000,
{
    assert(0 <= brush * w && brush * w <= 409_600_000 * 0x20_0000_0000) by (nonlinear_arith)
        requires
            0 <= brush <= 409_600_000,
            0 <= w <= 0x20_0000_0000,
    ;
    assert(brush * w <= 0x100_0000_0000_0000 * image) by (nonlinear_arith)
        requires
            brush * w <= 409_600_000 * 0x20_0000_0000,
            image >= 100_000,
    ;
    round_div_bounds(brush * w, image, 0, 0x100_0000_0000_0000);
}

} // verus!
