//! What the renderer decides before it talks to the GPU: which quads a
//! frame is made of, which of them share a draw call, and what textures and
//! buffers it needs.

use crate::geometry::half;
use crate::items::{
    drawn, Align, Item, ItemState, RectItem, RectPx, Rgba, TextBg, TextItem, TextState, Uv, VAlign,
};
use crate::text::{quad_ok, GlyphQuad, LaidState, LaidText};
use crate::units::{div_round, round_div, round_div_bounds, ONE};
use vstd::prelude::*;

verus! {

/// A number handed to the shader: a length or a plain ratio.
#[derive(Debug, Clone, Copy, PartialEq, Eq, Structural)]
pub enum Param {
    Px(i64),
    Ratio(i64),
}

/// One quad: its place, what it samples, its colour, and how the shader
/// fills it. A filled rect carries its border colour in `uv`.
#[derive(Debug, Clone, Copy, PartialEq, Eq, Structural)]
pub struct Instance {
    pub r: RectPx,
    pub uv: Uv,
    pub color: Rgba,
    pub mode: u8,
    pub p0: Param,
    pub p1: Param,
    /// The gradient of a rect, the direction of a triangle.
    pub flag: bool,
}

/// The shader's numbers for what is not a pair of pictures.
pub const MODE_RECT: u8 = 0;

pub const MODE_GLYPH: u8 = 6;

pub const MODE_LOGO: u8 = 7;

pub const MODE_MASK: u8 = 8;

pub const MODE_TRIANGLE: u8 = 9;

/// A run of quads drawn with one pair of pictures bound.
#[derive(Debug, Clone, Copy, PartialEq, Eq, Structural)]
pub struct Batch {
    pub a: usize,
    pub b: usize,
    pub start: u32,
    pub end: u32,
}

/// A frame's quads, back to front, and their draw calls.
pub struct DrawList {
    pub data: Vec<Instance>,
    pub batches: Vec<Batch>,
}

/// A draw list's content.
#[verifier::ext_equal]
pub struct DrawState {
    pub data: Seq<Instance>,
    pub batches: Seq<Batch>,
}

impl View for DrawList {
    type V = DrawState;

    open spec fn view(&self) -> DrawState {
        DrawState { data: self.data@, batches: self.batches@ }
    }
}

impl DrawState {
    /// The draw calls take the quads in order, each quad once, and no two
    /// neighbouring calls could have been one.
    pub open spec fn wf(self) -> bool {
        &&& self.data.len() <= u32::MAX
        &&& self.data.len() == 0 <==> self.batches.len() == 0
        &&& self.batches.len() > 0 ==> {
            &&& self.batches[0].start == 0
            &&& self.batches.last().end == self.data.len()
        }
        &&& forall|k: int|
            0 <= k < self.batches.len() ==> (#[trigger] self.batches[k]).start < self.batches[k].end
        &&& forall|k: int|
            0 < k < self.batches.len() ==> {
                &&& (#[trigger] self.batches[k]).start == self.batches[k - 1].end
                &&& self.batches[k].a != self.batches[k - 1].a || self.batches[k].b
                    != self.batches[k - 1].b
            }
    }

    /// Whether a quad with that key can join the last draw call. One that
    /// samples no picture rides along with any.
    pub open spec fn joins(self, key: Option<(usize, usize)>) -> bool {
        &&& self.batches.len() > 0
        &&& key matches Some(k) ==> self.batches.last().a == k.0 && self.batches.last().b == k.1
    }

    /// With one more quad on top.
    pub open spec fn pushed(self, key: Option<(usize, usize)>, inst: Instance) -> DrawState {
        let end = (self.data.len() + 1) as u32;
        DrawState {
            data: self.data.push(inst),
            batches: if self.joins(key) {
                self.batches.drop_last().push(Batch { end, ..self.batches.last() })
            } else {
                let (a, b) = match key {
                    Some(k) => k,
                    None => (0, 0),
                };
                self.batches.push(Batch { a, b, start: self.data.len() as u32, end })
            },
        }
    }

    /// With several quads on top that sample no picture.
    pub open spec fn stacked(self, insts: Seq<Instance>) -> DrawState
        decreases insts.len(),
    {
        if insts.len() == 0 {
            self
        } else {
            self.stacked(insts.drop_last()).pushed(None, insts.last())
        }
    }
}

/// The draw calls cover the quads exactly, in order, whatever is drawn; a
/// quad that needs a pair of pictures is in a call that has that pair bound.
pub proof fn the_draw_calls_cover_the_quads(
    s: DrawState,
    key: Option<(usize, usize)>,
    inst: Instance,
)
    requires
        s.wf(),
        s.data.len() < u32::MAX,
    ensures
        s.pushed(key, inst).wf(),
        s.pushed(key, inst).batches.last().start <= s.data.len()
            < s.pushed(key, inst).batches.last().end,
        key matches Some(k) ==> {
            &&& s.pushed(key, inst).batches.last().a == k.0
            &&& s.pushed(key, inst).batches.last().b == k.1
        },
        key is None && s.batches.len() > 0 ==> s.pushed(key, inst).batches.len()
            == s.batches.len(),
        forall|k: int|
            0 <= k < s.batches.len() - 1 ==> #[trigger] s.pushed(key, inst).batches[k]
                == s.batches[k],
{
    let t = s.pushed(key, inst);
    assert forall|k: int| 0 < k < t.batches.len() implies {
        &&& (#[trigger] t.batches[k]).start == t.batches[k - 1].end
        &&& t.batches[k].a != t.batches[k - 1].a || t.batches[k].b != t.batches[k - 1].b
    } by {
        if k < s.batches.len() {
            assert(s.batches[k].start == s.batches[k - 1].end);
        }
    }
    assert forall|k: int| 0 <= k < t.batches.len() implies (#[trigger] t.batches[k]).start
        < t.batches[k].end by {
        if k < s.batches.len() {
            assert(s.batches[k].start < s.batches[k].end);
        }
    }
    if s.batches.len() > 0 {
        assert(s.batches.last().start < s.batches.last().end);
        assert(t.batches[0].start == 0);
    }
}

/// Several quads on top keep the order too.
pub proof fn stacking_keeps_order(s: DrawState, insts: Seq<Instance>)
    requires
        s.wf(),
        s.data.len() + insts.len() <= u32::MAX,
    ensures
        s.stacked(insts).wf(),
        s.stacked(insts).data == s.data + insts,
    decreases insts.len(),
{
    if insts.len() > 0 {
        stacking_keeps_order(s, insts.drop_last());
        the_draw_calls_cover_the_quads(s.stacked(insts.drop_last()), None, insts.last());
        assert(s.stacked(insts).data =~= s.data + insts);
    } else {
        assert(s.stacked(insts).data =~= s.data + insts);
    }
}

/// A colour in the place of texture coordinates.
pub open spec fn as_uv(c: Rgba) -> Uv {
    Uv { u0: c.r, v0: c.g, u1: c.b, v1: c.a }
}

/// The quad of a filled rect.
pub open spec fn rect_quad(ri: RectItem) -> Instance {
    Instance {
        r: ri.r,
        uv: as_uv(ri.border_color),
        color: ri.color,
        mode: MODE_RECT,
        p0: Param::Px(ri.radius),
        p1: Param::Px(ri.border_w),
        flag: ri.fade_up,
    }
}

fn rect_instance(ri: RectItem) -> (q: Instance)
    ensures
        q == rect_quad(ri),
{
    let c = ri.border_color;
    Instance {
        r: ri.r,
        uv: Uv { u0: c.r, v0: c.g, u1: c.b, v1: c.a },
        color: ri.color,
        mode: MODE_RECT,
        p0: Param::Px(ri.radius),
        p1: Param::Px(ri.border_w),
        flag: ri.fade_up,
    }
}

/// What a pair of pictures is compared by: tiles have a length, everything
/// else is a ratio.
pub open spec fn compare_param(mode: crate::items::VideoMode, p0: i64) -> Param {
    if mode is Checker { Param::Px(p0) } else { Param::Ratio(p0) }
}

/// A texture slot that exists.
pub open spec fn slot(i: usize, textures: int) -> usize {
    if i < textures { i } else { (textures - 1) as usize }
}

/// The pair of pictures an item samples, if it samples any.
pub open spec fn key_of(item: ItemState, textures: int) -> Option<(usize, usize)> {
    match item {
        ItemState::Video { a, b, .. } => Some((slot(a, textures), slot(b, textures))),
        _ => None,
    }
}

/// The quad of an item; text has its own.
pub open spec fn quad_of(item: ItemState, logo: Uv) -> Option<Instance> {
    match item {
        ItemState::Rect(ri) => Some(rect_quad(ri)),
        ItemState::Video { r, uv, mode, p0, p1, .. } => Some(
            Instance {
                r,
                uv,
                color: Rgba::clear(),
                mode: mode.number() as u8,
                p0: compare_param(mode, p0),
                p1: Param::Ratio(p1),
                flag: false,
            },
        ),
        ItemState::Mask { r, .. } => Some(
            Instance {
                r,
                uv: Uv::full(),
                color: Rgba::clear(),
                mode: MODE_MASK,
                p0: Param::Ratio(0),
                p1: Param::Ratio(0),
                flag: false,
            },
        ),
        ItemState::Triangle { r, color, left, radius } => Some(
            Instance {
                r,
                uv: Uv::full(),
                color,
                mode: MODE_TRIANGLE,
                p0: Param::Px(radius),
                p1: Param::Ratio(0),
                flag: left,
            },
        ),
        ItemState::Logo { r, alpha } => Some(
            Instance {
                r,
                uv: logo,
                color: Rgba { r: ONE, g: ONE, b: ONE, a: alpha },
                mode: MODE_LOGO,
                p0: Param::Ratio(0),
                p1: Param::Ratio(0),
                flag: false,
            },
        ),
        ItemState::Text(_) => None,
    }
}

/// `slot`.
pub fn texture_slot(i: usize, textures: usize) -> (r: usize)
    requires
        textures > 0,
    ensures
        r == slot(i, textures as int),
        r < textures,
{
    if i < textures {
        i
    } else {
        textures - 1
    }
}

impl DrawList {
    pub fn new() -> (s: DrawList)
        ensures
            s@.data == Seq::<Instance>::empty(),
            s@.batches == Seq::<Batch>::empty(),
            s@.wf(),
    {
        DrawList { data: Vec::new(), batches: Vec::new() }
    }

    /// Whether there is room for `n` more quads.
    pub fn has_room(&self, n: usize) -> (r: bool)
        ensures
            r == (self@.data.len() + n <= u32::MAX),
    {
        let size: usize = self.data.len();
        size <= 0xffff_ffff && n <= 0xffff_ffff - size
    }

    fn push(&mut self, key: Option<(usize, usize)>, inst: Instance)
        requires
            old(self)@.wf(),
            old(self)@.data.len() < u32::MAX,
        ensures
            final(self)@ == old(self)@.pushed(key, inst),
            final(self)@.wf(),
    {
        let ghost before = self@;
        proof {
            the_draw_calls_cover_the_quads(before, key, inst);
        }
        let idx: u32 = self.data.len() as u32;
        self.data.push(inst);
        let n: usize = self.batches.len();
        let joins = n > 0 && match key {
            Some(k) => self.batches[n - 1].a == k.0 && self.batches[n - 1].b == k.1,
            None => true,
        };
        if joins {
            let last = self.batches[n - 1];
            self.batches.set(n - 1, Batch { a: last.a, b: last.b, start: last.start, end: idx + 1 });
        } else {
            let (a, b) = match key {
                Some(k) => k,
                None => (0, 0),
            };
            self.batches.push(Batch { a, b, start: idx, end: idx + 1 });
        }
        assert(self@ =~= before.pushed(key, inst));
    }

    /// Draws an item's quad, if it has one. `logo` is the part of the wordmark's
    /// texture that holds the mark.
    pub fn item(&mut self, item: &Item, textures: usize, logo: Uv)
        requires
            old(self)@.wf(),
            old(self)@.data.len() < u32::MAX,
            textures > 0,
        ensures
            final(self)@ == match quad_of(item@, logo) {
                Some(q) => old(self)@.pushed(key_of(item@, textures as int), q),
                None => old(self)@,
            },
            final(self)@.wf(),
    {
        match item {
            Item::Rect(ri) => self.push(None, rect_instance(*ri)),
            Item::Video { a, b, r, uv, mode, p0, p1 } => {
                let key = (texture_slot(*a, textures), texture_slot(*b, textures));
                let p = match mode {
                    crate::items::VideoMode::Checker => Param::Px(*p0),
                    _ => Param::Ratio(*p0),
                };
                self.push(
                    Some(key),
                    Instance {
                        r: *r,
                        uv: *uv,
                        color: Rgba::clear(),
                        mode: mode.code(),
                        p0: p,
                        p1: Param::Ratio(*p1),
                        flag: false,
                    },
                );
            },
            Item::Mask { r, .. } => self.push(
                None,
                Instance {
                    r: *r,
                    uv: Uv::full(),
                    color: Rgba::clear(),
                    mode: MODE_MASK,
                    p0: Param::Ratio(0),
                    p1: Param::Ratio(0),
                    flag: false,
                },
            ),
            Item::Triangle { r, color, left, radius } => self.push(
                None,
                Instance {
                    r: *r,
                    uv: Uv::full(),
                    color: *color,
                    mode: MODE_TRIANGLE,
                    p0: Param::Px(*radius),
                    p1: Param::Ratio(0),
                    flag: *left,
                },
            ),
            Item::Logo { r, alpha } => self.push(
                None,
                Instance {
                    r: *r,
                    uv: logo,
                    color: Rgba { r: ONE, g: ONE, b: ONE, a: *alpha },
                    mode: MODE_LOGO,
                    p0: Param::Ratio(0),
                    p1: Param::Ratio(0),
                    flag: false,
                },
            ),
            Item::Text(_) => {},
        }
    }
}

/// A physical length in logical pixels, on a display with that many
/// physical pixels to a logical one.
pub open spec fn logical(v: int, scale: int) -> int {
    round_div(v * ONE, scale)
}

/// The top-left corner of a run: the anchor names an edge, and the run is
/// measured, so centring is exact rather than estimated.
pub open spec fn corner(t: TextState, laid: LaidState, scale: int) -> (int, int) {
    let tw = logical(laid.w, scale);
    let th = logical(laid.h, scale);
    (
        match t.align {
            Align::Left => t.x,
            Align::Center => t.x - half(tw),
            Align::Right => t.x - tw,
        },
        match t.valign {
            VAlign::Top => t.y,
            VAlign::Middle => t.y - half(th),
        },
    )
}

/// The rect behind a run.
pub open spec fn chip(t: TextState, bg: TextBg, laid: LaidState, scale: int) -> RectPx {
    let (x, y) = corner(t, laid, scale);
    RectPx {
        x: (x - bg.pad_x) as i64,
        y: (y - bg.pad_y) as i64,
        w: (logical(laid.w, scale) + bg.pad_x * 2) as i64,
        h: (logical(laid.h, scale) + bg.pad_y * 2) as i64,
    }
}

/// A rounded fill.
pub open spec fn pill(r: RectPx, color: Rgba, radius: i64) -> RectItem {
    RectItem { r, color, radius, border_w: 0, border_color: Rgba::clear(), fade_up: false }
}

/// What lies behind a run: the chip, and its shadow beneath it.
pub open spec fn backing(t: TextState, laid: LaidState, scale: int) -> Seq<Instance> {
    match t.bg {
        None => Seq::empty(),
        Some(bg) => {
            let r = chip(t, bg, laid, scale);
            let face = rect_quad(pill(r, bg.color, bg.radius));
            if bg.shadow.a > 0 {
                let under = RectPx { y: (r.y + bg.shadow_dy) as i64, ..r };
                seq![rect_quad(pill(under, bg.shadow, bg.radius)), face]
            } else {
                seq![face]
            }
        },
    }
}

/// The atlas's side in the units of a texture coordinate: `texels` of it.
pub open spec fn along(texels: int) -> i64 {
    round_div(texels * ONE, 2_048) as i64
}

/// The quad of one glyph.
pub open spec fn glyph_quad(q: GlyphQuad, at: (int, int), color: Rgba, scale: int) -> Instance {
    Instance {
        r: RectPx {
            x: (at.0 + logical(q.x as int, scale)) as i64,
            y: (at.1 + logical(q.y as int, scale)) as i64,
            w: logical(q.w as int, scale) as i64,
            h: logical(q.h as int, scale) as i64,
        },
        uv: Uv {
            u0: along(q.texels.x as int),
            v0: along(q.texels.y as int),
            u1: along(q.texels.x + q.texels.w),
            v1: along(q.texels.y + q.texels.h),
        },
        color,
        mode: MODE_GLYPH,
        p0: Param::Ratio(0),
        p1: Param::Ratio(0),
        flag: false,
    }
}

/// The quads of the first `n` glyphs of a run.
pub open spec fn glyph_quads(t: TextState, laid: LaidState, scale: int, n: int) -> Seq<Instance> {
    Seq::new(
        n as nat,
        |k: int| glyph_quad(laid.quads[k], corner(t, laid, scale), t.color, scale),
    )
}

/// Everything a run draws, back to front.
pub open spec fn text_quads(t: TextState, laid: LaidState, scale: int) -> Seq<Instance> {
    backing(t, laid, scale) + glyph_quads(t, laid, scale, laid.quads.len() as int)
}

/// Whether a number fits a coordinate.
pub open spec fn is_coordinate(v: int) -> bool {
    i64::MIN <= v <= i64::MAX
}

/// Whether the numbers of the chip behind a run fit.
pub open spec fn backing_fits(t: TextState, laid: LaidState, scale: int) -> bool {
    let (x, y) = corner(t, laid, scale);
    t.bg matches Some(bg) ==> {
        &&& is_coordinate(x - bg.pad_x)
        &&& is_coordinate(y - bg.pad_y)
        &&& is_coordinate(logical(laid.w, scale) + bg.pad_x * 2)
        &&& is_coordinate(logical(laid.h, scale) + bg.pad_y * 2)
        &&& bg.shadow.a > 0 ==> is_coordinate(y - bg.pad_y + bg.shadow_dy)
    }
}

/// Whether a glyph's numbers fit, the run's corner at `at`.
pub open spec fn glyph_fits(q: GlyphQuad, at: (int, int), scale: int) -> bool {
    &&& is_coordinate(at.0 + logical(q.x as int, scale))
    &&& is_coordinate(at.1 + logical(q.y as int, scale))
    &&& is_coordinate(logical(q.w as int, scale))
    &&& is_coordinate(logical(q.h as int, scale))
}

/// Whether a run can be drawn: the display has a scale, and all the numbers
/// of its quads fit.
#[verifier::opaque]
pub open spec fn text_fits(t: TextState, laid: LaidState, scale: int) -> bool {
    &&& scale > 0
    &&& backing_fits(t, laid, scale)
    &&& forall|k: int|
        0 <= k < laid.quads.len() ==> glyph_fits(
            #[trigger] laid.quads[k],
            corner(t, laid, scale),
            scale,
        )
}

/// `logical`, wide enough for every length and scale.
fn to_logical(v: i64, scale: i64) -> (r: i128)
    requires
        scale > 0,
    ensures
        r == logical(v as int, scale as int),
        -0x1_0000_0000_0000_0000_0000_0000 <= r <= 0x1_0000_0000_0000_0000_0000_0000,
{
    proof {
        let b: int = 0x1_0000_0000_0000_0000_0000_0000;
        assert((-b) * scale <= v * ONE && v * ONE <= b * scale) by (nonlinear_arith)
            requires
                scale >= 1,
                b == 0x1_0000_0000_0000_0000_0000_0000,
                -0x8000_0000_0000_0000 <= v <= 0x7fff_ffff_ffff_ffff,
                ONE == 1_000_000_000,
        ;
        round_div_bounds(v * ONE, scale as int, -b, b);
    }
    div_round(v as i128 * ONE as i128, scale as i128)
}

/// `is_coordinate`.
fn fits(v: i128) -> (r: bool)
    ensures
        r == is_coordinate(v as int),
{
    v >= i64::MIN as i128 && v <= i64::MAX as i128
}

/// `half` of a wide length.
fn half_of(v: i128) -> (r: i128)
    requires
        -0x1_0000_0000_0000_0000_0000_0000 <= v <= 0x1_0000_0000_0000_0000_0000_0000,
    ensures
        r == half(v as int),
        -0x1_0000_0000_0000_0000_0000_0000 <= r <= 0x1_0000_0000_0000_0000_0000_0000,
{
    proof {
        round_div_bounds(
            v as int,
            2,
            -0x1_0000_0000_0000_0000_0000_0000,
            0x1_0000_0000_0000_0000_0000_0000,
        );
    }
    div_round(v, 2)
}

/// `corner`.
fn corner_of(t: &TextItem, laid: &LaidText, scale: i64) -> (r: (i128, i128))
    requires
        scale > 0,
    ensures
        (r.0 as int, r.1 as int) == corner(t@, laid@, scale as int),
        -0x2_0000_0000_0000_0000_0000_0000 <= r.0 <= 0x2_0000_0000_0000_0000_0000_0000,
        -0x2_0000_0000_0000_0000_0000_0000 <= r.1 <= 0x2_0000_0000_0000_0000_0000_0000,
{
    let tw = to_logical(laid.w, scale);
    let th = to_logical(laid.h, scale);
    (
        match t.align {
            Align::Left => t.x as i128,
            Align::Center => t.x as i128 - half_of(tw),
            Align::Right => t.x as i128 - tw,
        },
        match t.valign {
            VAlign::Top => t.y as i128,
            VAlign::Middle => t.y as i128 - half_of(th),
        },
    )
}

/// Whether a run that has been laid out for a display of that scale can be
/// drawn.
pub fn text_in_range(t: &TextItem, laid: &LaidText, scale: i64) -> (r: bool)
    ensures
        r == text_fits(t@, laid@, scale as int),
{
    proof {
        reveal(text_fits);
    }
    if scale <= 0 {
        return false;
    }
    let (x, y) = corner_of(t, laid, scale);
    match &t.bg {
        Some(bg) => {
            let tw = to_logical(laid.w, scale);
            let th = to_logical(laid.h, scale);
            let top: i128 = y - bg.pad_y as i128;
            if !fits(x - bg.pad_x as i128) || !fits(top) || !fits(tw + bg.pad_x as i128 * 2)
                || !fits(th + bg.pad_y as i128 * 2) {
                return false;
            }
            if bg.shadow.a > 0 && !fits(top + bg.shadow_dy as i128) {
                return false;
            }
        },
        None => {},
    }
    let mut k: usize = 0;
    while k < laid.quads.len()
        invariant
            k <= laid@.quads.len(),
            scale > 0,
            (x as int, y as int) == corner(t@, laid@, scale as int),
            -0x2_0000_0000_0000_0000_0000_0000 <= x <= 0x2_0000_0000_0000_0000_0000_0000,
            -0x2_0000_0000_0000_0000_0000_0000 <= y <= 0x2_0000_0000_0000_0000_0000_0000,
            forall|i: int|
                0 <= i < k ==> glyph_fits(
                    #[trigger] laid@.quads[i],
                    corner(t@, laid@, scale as int),
                    scale as int,
                ),
        decreases laid@.quads.len() - k,
    {
        let q = laid.quads[k];
        if !fits(x + to_logical(q.x, scale)) || !fits(y + to_logical(q.y, scale)) || !fits(
            to_logical(q.w, scale),
        ) || !fits(to_logical(q.h, scale)) {
            assert(!glyph_fits(
                laid@.quads[k as int],
                corner(t@, laid@, scale as int),
                scale as int,
            ));
            proof {
                reveal(text_fits);
            }
            return false;
        }
        k = k + 1;
    }
    true
}

/// `along`.
fn atlas_ratio(texels: u32) -> (r: i64)
    requires
        texels <= 2_048,
    ensures
        r == along(texels as int),
{
    proof {
        round_div_bounds(texels * ONE, 2_048, 0, ONE as int);
    }
    div_round(texels as i128 * ONE as i128, 2_048) as i64
}

/// `glyph_quad`.
fn glyph_instance(q: GlyphQuad, at: (i128, i128), color: Rgba, scale: i64) -> (r: Instance)
    requires
        scale > 0,
        quad_ok(q),
        glyph_fits(q, (at.0 as int, at.1 as int), scale as int),
        -0x2_0000_0000_0000_0000_0000_0000 <= at.0 <= 0x2_0000_0000_0000_0000_0000_0000,
        -0x2_0000_0000_0000_0000_0000_0000 <= at.1 <= 0x2_0000_0000_0000_0000_0000_0000,
    ensures
        r == glyph_quad(q, (at.0 as int, at.1 as int), color, scale as int),
{
    Instance {
        r: RectPx {
            x: (at.0 + to_logical(q.x, scale)) as i64,
            y: (at.1 + to_logical(q.y, scale)) as i64,
            w: to_logical(q.w, scale) as i64,
            h: to_logical(q.h, scale) as i64,
        },
        uv: Uv {
            u0: atlas_ratio(q.texels.x),
            v0: atlas_ratio(q.texels.y),
            u1: atlas_ratio(q.texels.x + q.texels.w),
            v1: atlas_ratio(q.texels.y + q.texels.h),
        },
        color,
        mode: MODE_GLYPH,
        p0: Param::Ratio(0),
        p1: Param::Ratio(0),
        flag: false,
    }
}

/// `pill` as a quad.
fn pill_instance(r: RectPx, color: Rgba, radius: i64) -> (q: Instance)
    ensures
        q == rect_quad(pill(r, color, radius)),
{
    let mut ri = RectItem::new(r, color);
    ri.radius = radius;
    rect_instance(ri)
}

/// `chip`.
fn chip_of(t: &TextItem, bg: &TextBg, laid: &LaidText, at: (i128, i128), scale: i64) -> (r: RectPx)
    requires
        scale > 0,
        t.bg == Some(*bg),
        backing_fits(t@, laid@, scale as int),
        (at.0 as int, at.1 as int) == corner(t@, laid@, scale as int),
        -0x2_0000_0000_0000_0000_0000_0000 <= at.0 <= 0x2_0000_0000_0000_0000_0000_0000,
        -0x2_0000_0000_0000_0000_0000_0000 <= at.1 <= 0x2_0000_0000_0000_0000_0000_0000,
    ensures
        r == chip(t@, *bg, laid@, scale as int),
        r.y == at.1 - bg.pad_y,
{
    RectPx {
        x: (at.0 - bg.pad_x as i128) as i64,
        y: (at.1 - bg.pad_y as i128) as i64,
        w: (to_logical(laid.w, scale) + bg.pad_x as i128 * 2) as i64,
        h: (to_logical(laid.h, scale) + bg.pad_y as i128 * 2) as i64,
    }
}

impl DrawList {
    /// Draws the chip behind a run.
    fn back(&mut self, t: &TextItem, laid: &LaidText, at: (i128, i128), scale: i64)
        requires
            old(self)@.wf(),
            old(self)@.data.len() + 2 <= u32::MAX,
            scale > 0,
            backing_fits(t@, laid@, scale as int),
            (at.0 as int, at.1 as int) == corner(t@, laid@, scale as int),
            -0x2_0000_0000_0000_0000_0000_0000 <= at.0 <= 0x2_0000_0000_0000_0000_0000_0000,
            -0x2_0000_0000_0000_0000_0000_0000 <= at.1 <= 0x2_0000_0000_0000_0000_0000_0000,
        ensures
            final(self)@ == old(self)@.stacked(backing(t@, laid@, scale as int)),
            final(self)@.wf(),
    {
        let ghost before = self@;
        proof {
            lemma_two_stack(before, backing(t@, laid@, scale as int));
        }
        match &t.bg {
            Some(bg) => {
                let r = chip_of(t, bg, laid, at, scale);
                if bg.shadow.a > 0 {
                    let under = RectPx { x: r.x, y: r.y + bg.shadow_dy, w: r.w, h: r.h };
                    self.push(None, pill_instance(under, bg.shadow, bg.radius));
                }
                self.push(None, pill_instance(r, bg.color, bg.radius));
            },
            None => {},
        }
    }

    /// Draws a run of text that has been laid out for a display of that
    /// scale: the chip behind it, if any, and its glyphs.
    pub fn text(&mut self, t: &TextItem, laid: &LaidText, scale: i64)
        requires
            old(self)@.wf(),
            old(self)@.data.len() + laid@.quads.len() + 2 <= u32::MAX,
            text_fits(t@, laid@, scale as int),
            laid@.ok(),
        ensures
            final(self)@ == old(self)@.stacked(text_quads(t@, laid@, scale as int)),
            final(self)@.wf(),
    {
        let ghost before = self@;
        let ghost back = backing(t@, laid@, scale as int);
        proof {
            reveal(text_fits);
        }
        let at = corner_of(t, laid, scale);
        self.back(t, laid, at, scale);
        let mut k: usize = 0;
        assert(back + glyph_quads(t@, laid@, scale as int, 0) =~= back);
        while k < laid.quads.len()
            invariant
                k <= laid@.quads.len(),
                before.data.len() + laid@.quads.len() + 2 <= u32::MAX,
                before.wf(),
                self@.wf(),
                laid@.ok(),
                scale > 0,
                forall|i: int|
                    0 <= i < laid@.quads.len() ==> glyph_fits(
                        #[trigger] laid@.quads[i],
                        corner(t@, laid@, scale as int),
                        scale as int,
                    ),
                back.len() <= 2,
                (at.0 as int, at.1 as int) == corner(t@, laid@, scale as int),
                -0x2_0000_0000_0000_0000_0000_0000 <= at.0 <= 0x2_0000_0000_0000_0000_0000_0000,
                -0x2_0000_0000_0000_0000_0000_0000 <= at.1 <= 0x2_0000_0000_0000_0000_0000_0000,
                self@ == before.stacked(back + glyph_quads(t@, laid@, scale as int, k as int)),
            decreases laid@.quads.len() - k,
        {
            let q = laid.quads[k];
            assert(quad_ok(laid@.quads[k as int]));
            assert(glyph_fits(laid@.quads[k as int], corner(t@, laid@, scale as int), scale as int));
            let ghost done = back + glyph_quads(t@, laid@, scale as int, k as int);
            let ghost next = back + glyph_quads(t@, laid@, scale as int, k + 1);
            let inst = glyph_instance(q, at, t.color, scale);
            proof {
                stacking_keeps_order(before, done);
                assert(next.drop_last() =~= done);
                assert(next.last() == inst);
            }
            self.push(None, inst);
            k = k + 1;
        }
    }
}

/// What laid out runs hold.
pub open spec fn runs(laid: Seq<LaidText>) -> Seq<LaidState> {
    Seq::new(laid.len(), |k: int| laid[k]@)
}

/// How many of the first `n` items are text.
pub open spec fn texts(items: Seq<ItemState>, n: int) -> int
    decreases n,
{
    if n <= 0 {
        0
    } else {
        texts(items, n - 1) + if items[n - 1] is Text { 1int } else { 0int }
    }
}

/// A frame's items as they are to be drawn: with its runs of text laid out, in
/// order, for a display of that scale.
pub struct Sheet {
    pub items: Seq<ItemState>,
    pub laid: Seq<LaidState>,
    pub textures: int,
    pub logo: Uv,
    pub scale: int,
}

impl Sheet {
    /// The quads of item `i`, back to front.
    pub open spec fn quads(self, i: int) -> Seq<Instance> {
        match self.items[i] {
            ItemState::Text(t) => text_quads(t, self.laid[texts(self.items, i)], self.scale),
            item => seq![quad_of(item, self.logo)->0],
        }
    }

    /// Whether item `i` is left out of a frame that has `drawn` quads already:
    /// text whose numbers don't fit or that has not been laid out, and what
    /// would be more quads than can be counted.
    pub open spec fn skips(self, i: int, drawn: nat) -> bool {
        match self.items[i] {
            ItemState::Text(t) => {
                let k = texts(self.items, i);
                ||| k >= self.laid.len()
                ||| !text_fits(t, self.laid[k], self.scale)
                ||| drawn + self.laid[k].quads.len() + 2 > u32::MAX
            },
            _ => drawn >= u32::MAX,
        }
    }

    /// The draw list of the first `n` items.
    pub open spec fn upto(self, n: int) -> DrawState
        decreases n,
    {
        if n <= 0 {
            DrawState { data: Seq::empty(), batches: Seq::empty() }
        } else {
            let s = self.upto(n - 1);
            if self.skips(n - 1, s.data.len()) {
                s
            } else {
                match self.items[n - 1] {
                    ItemState::Text(_) => s.stacked(self.quads(n - 1)),
                    item => s.pushed(key_of(item, self.textures), self.quads(n - 1)[0]),
                }
            }
        }
    }
}

/// A frame's quads are those of its items, in the items' order: each item
/// that is not left out adds its own on top of what the items before it drew.
pub proof fn a_frame_draws_its_items_in_order(sheet: Sheet, n: int)
    requires
        0 <= n < sheet.items.len(),
        sheet.upto(n).wf(),
    ensures
        sheet.upto(n + 1).wf(),
        sheet.upto(n + 1).data == sheet.upto(n).data + if sheet.skips(n, sheet.upto(n).data.len()) {
            Seq::empty()
        } else {
            sheet.quads(n)
        },
{
    let s = sheet.upto(n);
    if sheet.skips(n, s.data.len()) {
        assert(s.data + Seq::<Instance>::empty() =~= s.data);
    } else {
        match sheet.items[n] {
            ItemState::Text(_) => stacking_keeps_order(s, sheet.quads(n)),
            item => {
                the_draw_calls_cover_the_quads(
                    s,
                    key_of(item, sheet.textures),
                    sheet.quads(n)[0],
                );
                assert(sheet.upto(n + 1).data =~= s.data + sheet.quads(n));
            },
        }
    }
}

/// An item drawn before another lies beneath it: the quads of the first `n`
/// items are the first quads of the frame, whatever follows.
pub proof fn later_items_lie_on_top(sheet: Sheet, n: int, m: int)
    requires
        0 <= n <= m <= sheet.items.len(),
    ensures
        sheet.upto(m).wf(),
        sheet.upto(n).data.is_prefix_of(sheet.upto(m).data),
    decreases m,
{
    if m > 0 {
        later_items_lie_on_top(sheet, if n < m { n } else { m - 1 }, m - 1);
        a_frame_draws_its_items_in_order(sheet, m - 1);
    }
}

/// The draw list of a frame. `laid` holds the frame's runs of text, laid out
/// for a display of that scale, in the items' order.
pub fn draw_list(
    items: &Vec<Item>,
    laid: &Vec<LaidText>,
    textures: usize,
    logo: Uv,
    scale: i64,
) -> (r: DrawList)
    requires
        textures > 0,
        forall|k: int| 0 <= k < laid@.len() ==> (#[trigger] laid@[k])@.ok(),
    ensures
        r@ == (Sheet {
            items: drawn(items@),
            laid: runs(laid@),
            textures: textures as int,
            logo,
            scale: scale as int,
        }).upto(items@.len() as int),
        r@.wf(),
{
    let mut list = DrawList::new();
    let ghost sheet = Sheet {
        items: drawn(items@),
        laid: runs(laid@),
        textures: textures as int,
        logo,
        scale: scale as int,
    };
    let mut i: usize = 0;
    let mut k: usize = 0;
    assert(list@ =~= sheet.upto(0));
    while i < items.len()
        invariant
            i <= items@.len(),
            k == texts(sheet.items, i as int),
            k <= i,
            list@ == sheet.upto(i as int),
            list@.wf(),
            textures > 0,
            forall|k: int| 0 <= k < laid@.len() ==> (#[trigger] laid@[k])@.ok(),
            sheet == (Sheet {
                items: drawn(items@),
                laid: runs(laid@),
                textures: textures as int,
                logo,
                scale: scale as int,
            }),
        decreases items@.len() - i,
    {
        assert(sheet.items[i as int] == items@[i as int]@);
        match &items[i] {
            Item::Text(t) => {
                if k < laid.len() {
                    let run = &laid[k];
                    assert(sheet.laid[k as int] == run@);
                    let n: usize = run.quads.len();
                    if text_in_range(t, run, scale) && list.has_room(n) && list.data.len() as u64 + n as u64 + 2 <= 0xffff_ffff {
                        list.text(t, run, scale);
                    }
                }
                k = k + 1;
            },
            item => {
                if list.has_room(1) {
                    list.item(item, textures, logo);
                }
            },
        }
        i = i + 1;
    }
    list
}

/// Stacking one quad or two.
proof fn lemma_two_stack(s: DrawState, insts: Seq<Instance>)
    requires
        insts.len() <= 2,
    ensures
        insts.len() == 0 ==> s.stacked(insts) == s,
        insts.len() == 1 ==> s.stacked(insts) == s.pushed(None, insts[0]),
        insts.len() == 2 ==> s.stacked(insts) == s.pushed(None, insts[0]).pushed(None, insts[1]),
{
    reveal_with_fuel(DrawState::stacked, 3);
    if insts.len() == 2 {
        assert(insts.drop_last().drop_last().len() == 0);
    }
}

} // verus!
